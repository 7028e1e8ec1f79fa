//! Transaction-related protocol types: transactions, events, receipts, and
//! contract-deployment payloads.

use vstd::prelude::*;
use vstd::bytes::{spec_u32_to_le_bytes, spec_u64_to_le_bytes};
use crate::crypto;
use crate::error::{Error, ErrorKind};
use crate::encodings::{
    le_u32_at, le_u64_at, lemma_le_u32_at, lemma_le_u64_at, read_arr32, read_arr64, read_bytes,
    read_u32, read_u64, write_bytes, write_u32, write_u64,
};
use crate::receipt_status_codes::{
    spec_byte_code, spec_code_byte, spec_is_includable, spec_is_retryable,
    lemma_status_code_roundtrip, ReceiptStatusCode,
};
use crate::{Deserializable, Serializable};

verus! {

/// Byte length of the fixed region of a [`Transaction`] encoding.
pub const TRANSACTION_BASESIZE: usize = 204;

/// Byte length of the fixed region of an [`Event`] encoding.
pub const EVENT_BASESIZE: usize = 8;

/// Byte length of the fixed region of a [`Receipt`] encoding.
pub const RECEIPT_BASESIZE: usize = 17;

/// Byte length of the fixed region of a
/// [`TransactionDataContractDeployment`] encoding.
pub const TRANSACTION_DATA_CONTRACT_DEPLOYMENT_BASESIZE: usize = 8;

/// Byte offset of the status-code field in a [`Receipt`] encoding.
pub const RECEIPT_STATUSCODE_OFFSET: usize = 0;

/// Transactions are authenticated, non-repudiable messages produced by
/// external accounts to authorize blockchain state transitions, either
/// through token transfer or smart contract execution. Authenticity of the
/// `hash` and `signature` fields is verified by an external collaborator,
/// never by this codec.
#[derive(Debug, Clone, PartialEq, Eq)]
pub struct Transaction {
    pub from_address: crypto::PublicAddress,
    pub to_address: crypto::PublicAddress,
    pub value: u64,
    pub tip: u64,
    pub gas_limit: u64,
    pub gas_price: u64,
    pub data: Vec<u8>,
    pub n_txs_on_chain_from_address: u64,
    pub hash: crypto::Sha256Hash,
    pub signature: crypto::Signature,
}

/// The payload carried in a [`Transaction`]'s `data` field when it deploys a
/// contract.
#[derive(Debug, Clone, PartialEq, Eq)]
pub struct TransactionDataContractDeployment {
    pub contract_code: Vec<u8>,
    pub contract_init_arguments: Vec<u8>,
}

/// Events are messages produced by smart contract executions, persisted on
/// the blockchain in the order in which they are emitted.
#[derive(Debug, Clone, PartialEq, Eq)]
pub struct Event {
    pub topic: Vec<u8>,
    pub value: Vec<u8>,
}

/// The result of executing one transaction: an outcome class, the gas it
/// consumed, its return value, and the events it emitted, in order.
#[derive(Debug, Clone, PartialEq, Eq)]
pub struct Receipt {
    pub status_code: ReceiptStatusCode,
    pub gas_consumed: u64,
    pub return_value: Vec<u8>,
    pub events: Vec<Event>,
}

/// Mathematical model of a [`Transaction`].
#[verifier::ext_equal]
pub struct SpecTransaction {
    pub from_address: Seq<u8>,
    pub to_address: Seq<u8>,
    pub value: u64,
    pub tip: u64,
    pub gas_limit: u64,
    pub gas_price: u64,
    pub data: Seq<u8>,
    pub n_txs_on_chain_from_address: u64,
    pub hash: Seq<u8>,
    pub signature: Seq<u8>,
}

/// Mathematical model of a [`TransactionDataContractDeployment`].
#[verifier::ext_equal]
pub struct SpecTransactionDataContractDeployment {
    pub contract_code: Seq<u8>,
    pub contract_init_arguments: Seq<u8>,
}

/// Mathematical model of an [`Event`].
#[verifier::ext_equal]
pub struct SpecEvent {
    pub topic: Seq<u8>,
    pub value: Seq<u8>,
}

/// Mathematical model of a [`Receipt`].
#[verifier::ext_equal]
pub struct SpecReceipt {
    pub status_code: ReceiptStatusCode,
    pub gas_consumed: u64,
    pub return_value: Seq<u8>,
    pub events: Seq<SpecEvent>,
}

impl DeepView for Transaction {
    type V = SpecTransaction;

    open spec fn deep_view(&self) -> SpecTransaction {
        SpecTransaction {
            from_address: self.from_address@,
            to_address: self.to_address@,
            value: self.value,
            tip: self.tip,
            gas_limit: self.gas_limit,
            gas_price: self.gas_price,
            data: self.data@,
            n_txs_on_chain_from_address: self.n_txs_on_chain_from_address,
            hash: self.hash@,
            signature: self.signature@,
        }
    }
}

impl DeepView for TransactionDataContractDeployment {
    type V = SpecTransactionDataContractDeployment;

    open spec fn deep_view(&self) -> SpecTransactionDataContractDeployment {
        SpecTransactionDataContractDeployment {
            contract_code: self.contract_code@,
            contract_init_arguments: self.contract_init_arguments@,
        }
    }
}

impl DeepView for Event {
    type V = SpecEvent;

    open spec fn deep_view(&self) -> SpecEvent {
        SpecEvent { topic: self.topic@, value: self.value@ }
    }
}

impl DeepView for Receipt {
    type V = SpecReceipt;

    open spec fn deep_view(&self) -> SpecReceipt {
        SpecReceipt {
            status_code: self.status_code,
            gas_consumed: self.gas_consumed,
            return_value: self.return_value@,
            events: self.events.deep_view(),
        }
    }
}

impl Serializable for Transaction {
    open spec fn serializable(v: SpecTransaction) -> bool {
        &&& v.from_address.len() == 32
        &&& v.to_address.len() == 32
        &&& v.hash.len() == 32
        &&& v.signature.len() == 64
        &&& v.data.len() <= u32::MAX
    }

    open spec fn spec_serialize(v: SpecTransaction) -> Seq<u8> {
        v.from_address + v.to_address + spec_u64_to_le_bytes(v.value) + spec_u64_to_le_bytes(v.tip)
            + spec_u64_to_le_bytes(v.gas_limit) + spec_u64_to_le_bytes(v.gas_price)
            + spec_u64_to_le_bytes(v.n_txs_on_chain_from_address) + v.hash + v.signature
            + spec_u32_to_le_bytes(v.data.len() as u32) + v.data
    }

    fn serialize(msg: &Transaction) -> (r: Vec<u8>) {
        let mut r: Vec<u8> = Vec::new();
        write_bytes(&mut r, msg.from_address.as_slice());
        write_bytes(&mut r, msg.to_address.as_slice());
        write_u64(&mut r, msg.value);
        write_u64(&mut r, msg.tip);
        write_u64(&mut r, msg.gas_limit);
        write_u64(&mut r, msg.gas_price);
        write_u64(&mut r, msg.n_txs_on_chain_from_address);
        write_bytes(&mut r, msg.hash.as_slice());
        write_bytes(&mut r, msg.signature.as_slice());
        write_u32(&mut r, msg.data.len() as u32);
        write_bytes(&mut r, msg.data.as_slice());
        proof {
            assert(r@ =~= Self::spec_serialize(msg.deep_view()));
        }
        r
    }
}

impl Deserializable<Transaction> for Transaction {
    proof fn lemma_roundtrip(v: SpecTransaction) {
        lemma_transaction_roundtrip(v);
    }

    open spec fn spec_deserialize(buf: Seq<u8>) -> Result<SpecTransaction, ErrorKind> {
        if buf.len() < 204 {
            Err(ErrorKind::IncorrectLength)
        } else {
            let data_size = le_u32_at(buf, 200) as int;
            if buf.len() < 204 + data_size {
                Err(ErrorKind::IncorrectLength)
            } else {
                Ok(
                    SpecTransaction {
                        from_address: buf.subrange(0, 32),
                        to_address: buf.subrange(32, 64),
                        value: le_u64_at(buf, 64),
                        tip: le_u64_at(buf, 72),
                        gas_limit: le_u64_at(buf, 80),
                        gas_price: le_u64_at(buf, 88),
                        n_txs_on_chain_from_address: le_u64_at(buf, 96),
                        hash: buf.subrange(104, 136),
                        signature: buf.subrange(136, 200),
                        data: buf.subrange(204, 204 + data_size),
                    },
                )
            }
        }
    }

    fn deserialize(buf: &[u8]) -> (r: Result<Transaction, Error>) {
        if buf.len() < 204 {
            return Err(Error::new(ErrorKind::IncorrectLength));
        }
        let data_size = read_u32(buf, 200) as usize;
        if buf.len() - 204 < data_size {
            return Err(Error::new(ErrorKind::IncorrectLength));
        }
        let ret = Transaction {
            from_address: read_arr32(buf, 0),
            to_address: read_arr32(buf, 32),
            value: read_u64(buf, 64),
            tip: read_u64(buf, 72),
            gas_limit: read_u64(buf, 80),
            gas_price: read_u64(buf, 88),
            n_txs_on_chain_from_address: read_u64(buf, 96),
            hash: read_arr32(buf, 104),
            signature: read_arr64(buf, 136),
            data: read_bytes(buf, 204, data_size),
        };
        proof {
            let m = Self::spec_deserialize(buf@)->Ok_0;
            assert(ret.deep_view() =~= m);
        }
        Ok(ret)
    }
}

impl Transaction {
    /// The exact byte length of this transaction's encoding: the fixed region
    /// plus the data payload.
    #[inline]
    pub fn size_of(msg: &Transaction) -> (r: usize)
        requires
            msg.data@.len() + 204 <= usize::MAX,
        ensures
            r == 204 + msg.data@.len(),
            Transaction::serializable(msg.deep_view()) ==> r == Transaction::spec_serialize(
                msg.deep_view(),
            ).len(),
    {
        proof {
            if Transaction::serializable(msg.deep_view()) {
                lemma_transaction_encoding_len(msg.deep_view());
            }
        }
        msg.data.len() + TRANSACTION_BASESIZE
    }
}

impl Serializable for TransactionDataContractDeployment {
    open spec fn serializable(v: SpecTransactionDataContractDeployment) -> bool {
        &&& v.contract_code.len() <= u32::MAX
        &&& v.contract_init_arguments.len() <= u32::MAX
    }

    open spec fn spec_serialize(v: SpecTransactionDataContractDeployment) -> Seq<u8> {
        spec_u32_to_le_bytes(v.contract_code.len() as u32) + spec_u32_to_le_bytes(
            v.contract_init_arguments.len() as u32,
        ) + v.contract_code + v.contract_init_arguments
    }

    fn serialize(msg: &TransactionDataContractDeployment) -> (r: Vec<u8>) {
        let mut r: Vec<u8> = Vec::new();
        write_u32(&mut r, msg.contract_code.len() as u32);
        write_u32(&mut r, msg.contract_init_arguments.len() as u32);
        write_bytes(&mut r, msg.contract_code.as_slice());
        write_bytes(&mut r, msg.contract_init_arguments.as_slice());
        proof {
            assert(r@ =~= Self::spec_serialize(msg.deep_view()));
        }
        r
    }
}

impl Deserializable<TransactionDataContractDeployment> for TransactionDataContractDeployment {
    proof fn lemma_roundtrip(v: SpecTransactionDataContractDeployment) {
        lemma_transaction_data_contract_deployment_roundtrip(v);
    }

    open spec fn spec_deserialize(buf: Seq<u8>) -> Result<
        SpecTransactionDataContractDeployment,
        ErrorKind,
    > {
        if buf.len() < 8 {
            Err(ErrorKind::IncorrectLength)
        } else {
            let code_size = le_u32_at(buf, 0) as int;
            let args_size = le_u32_at(buf, 4) as int;
            if buf.len() < 8 + code_size + args_size {
                Err(ErrorKind::IncorrectLength)
            } else {
                Ok(
                    SpecTransactionDataContractDeployment {
                        contract_code: buf.subrange(8, 8 + code_size),
                        contract_init_arguments: buf.subrange(
                            8 + code_size,
                            8 + code_size + args_size,
                        ),
                    },
                )
            }
        }
    }

    fn deserialize(buf: &[u8]) -> (r: Result<TransactionDataContractDeployment, Error>) {
        if buf.len() < 8 {
            return Err(Error::new(ErrorKind::IncorrectLength));
        }
        let code_size = read_u32(buf, 0) as usize;
        let args_size = read_u32(buf, 4) as usize;
        if code_size as u64 + args_size as u64 > (buf.len() - 8) as u64 {
            return Err(Error::new(ErrorKind::IncorrectLength));
        }
        let ret = TransactionDataContractDeployment {
            contract_code: read_bytes(buf, 8, code_size),
            contract_init_arguments: read_bytes(buf, 8 + code_size, args_size),
        };
        proof {
            let m = Self::spec_deserialize(buf@)->Ok_0;
            assert(ret.deep_view() =~= m);
        }
        Ok(ret)
    }
}

impl Serializable for Event {
    open spec fn serializable(v: SpecEvent) -> bool {
        &&& v.topic.len() <= u32::MAX
        &&& v.value.len() <= u32::MAX
    }

    open spec fn spec_serialize(v: SpecEvent) -> Seq<u8> {
        spec_u32_to_le_bytes(v.topic.len() as u32) + spec_u32_to_le_bytes(v.value.len() as u32)
            + v.topic + v.value
    }

    fn serialize(msg: &Event) -> (r: Vec<u8>) {
        let mut r: Vec<u8> = Vec::new();
        write_u32(&mut r, msg.topic.len() as u32);
        write_u32(&mut r, msg.value.len() as u32);
        write_bytes(&mut r, msg.topic.as_slice());
        write_bytes(&mut r, msg.value.as_slice());
        proof {
            assert(r@ =~= Self::spec_serialize(msg.deep_view()));
        }
        r
    }
}

impl Deserializable<Event> for Event {
    proof fn lemma_roundtrip(v: SpecEvent) {
        lemma_event_roundtrip(v);
    }

    open spec fn spec_deserialize(buf: Seq<u8>) -> Result<SpecEvent, ErrorKind> {
        if buf.len() < 8 {
            Err(ErrorKind::IncorrectLength)
        } else {
            let topic_size = le_u32_at(buf, 0) as int;
            let value_size = le_u32_at(buf, 4) as int;
            if buf.len() < 8 + topic_size + value_size {
                Err(ErrorKind::IncorrectLength)
            } else {
                Ok(
                    SpecEvent {
                        topic: buf.subrange(8, 8 + topic_size),
                        value: buf.subrange(8 + topic_size, 8 + topic_size + value_size),
                    },
                )
            }
        }
    }

    fn deserialize(buf: &[u8]) -> (r: Result<Event, Error>) {
        if buf.len() < 8 {
            return Err(Error::new(ErrorKind::IncorrectLength));
        }
        let topic_size = read_u32(buf, 0) as usize;
        let value_size = read_u32(buf, 4) as usize;
        if topic_size as u64 + value_size as u64 > (buf.len() - 8) as u64 {
            return Err(Error::new(ErrorKind::IncorrectLength));
        }
        let ret = Event {
            topic: read_bytes(buf, 8, topic_size),
            value: read_bytes(buf, 8 + topic_size, value_size),
        };
        proof {
            let m = Self::spec_deserialize(buf@)->Ok_0;
            assert(ret.deep_view() =~= m);
        }
        Ok(ret)
    }
}

impl Event {
    /// The exact byte length of this event's encoding: the fixed region plus
    /// both payloads.
    #[inline]
    pub fn size_of(msg: &Event) -> (r: usize)
        requires
            msg.topic@.len() + msg.value@.len() + 8 <= usize::MAX,
        ensures
            r == 8 + msg.topic@.len() + msg.value@.len(),
            Event::serializable(msg.deep_view()) ==> r == Event::spec_serialize(
                msg.deep_view(),
            ).len(),
    {
        proof {
            if Event::serializable(msg.deep_view()) {
                lemma_event_encoding_len(msg.deep_view());
            }
        }
        msg.topic.len() + msg.value.len() + EVENT_BASESIZE
    }
}

/// The length of a transaction's encoding is its fixed region plus its data.
pub proof fn lemma_transaction_encoding_len(v: SpecTransaction)
    requires
        Transaction::serializable(v),
    ensures
        Transaction::spec_serialize(v).len() == 204 + v.data.len(),
{
    vstd::bytes::lemma_auto_spec_u64_to_from_le_bytes();
    vstd::bytes::lemma_auto_spec_u32_to_from_le_bytes();
    assert(spec_u64_to_le_bytes(v.value).len() == 8);
    assert(spec_u64_to_le_bytes(v.tip).len() == 8);
    assert(spec_u64_to_le_bytes(v.gas_limit).len() == 8);
    assert(spec_u64_to_le_bytes(v.gas_price).len() == 8);
    assert(spec_u64_to_le_bytes(v.n_txs_on_chain_from_address).len() == 8);
    assert(spec_u32_to_le_bytes(v.data.len() as u32).len() == 4);
}

/// The length of an event's encoding is its fixed region plus both payloads.
pub proof fn lemma_event_encoding_len(v: SpecEvent)
    requires
        Event::serializable(v),
    ensures
        Event::spec_serialize(v).len() == 8 + v.topic.len() + v.value.len(),
{
    vstd::bytes::lemma_auto_spec_u32_to_from_le_bytes();
    assert(spec_u32_to_le_bytes(v.topic.len() as u32).len() == 4);
    assert(spec_u32_to_le_bytes(v.value.len() as u32).len() == 4);
}

/// Round trip: decoding the encoding of any well-formed value returns exactly
/// that value.
pub proof fn lemma_transaction_roundtrip(v: SpecTransaction)
    requires
        Transaction::serializable(v),
    ensures
        Transaction::spec_deserialize(Transaction::spec_serialize(v)) == Ok::<
            SpecTransaction,
            ErrorKind,
        >(v),
{
    let s = Transaction::spec_serialize(v);
    vstd::bytes::lemma_auto_spec_u64_to_from_le_bytes();
    vstd::bytes::lemma_auto_spec_u32_to_from_le_bytes();
    assert(spec_u64_to_le_bytes(v.value).len() == 8);
    assert(spec_u64_to_le_bytes(v.tip).len() == 8);
    assert(spec_u64_to_le_bytes(v.gas_limit).len() == 8);
    assert(spec_u64_to_le_bytes(v.gas_price).len() == 8);
    assert(spec_u64_to_le_bytes(v.n_txs_on_chain_from_address).len() == 8);
    assert(spec_u32_to_le_bytes(v.data.len() as u32).len() == 4);
    assert(s.subrange(200, 204) =~= spec_u32_to_le_bytes(v.data.len() as u32));
    lemma_le_u32_at(s, 200, v.data.len() as u32);
    assert(s.subrange(0, 32) =~= v.from_address);
    assert(s.subrange(32, 64) =~= v.to_address);
    assert(s.subrange(64, 72) =~= spec_u64_to_le_bytes(v.value));
    lemma_le_u64_at(s, 64, v.value);
    assert(s.subrange(72, 80) =~= spec_u64_to_le_bytes(v.tip));
    lemma_le_u64_at(s, 72, v.tip);
    assert(s.subrange(80, 88) =~= spec_u64_to_le_bytes(v.gas_limit));
    lemma_le_u64_at(s, 80, v.gas_limit);
    assert(s.subrange(88, 96) =~= spec_u64_to_le_bytes(v.gas_price));
    lemma_le_u64_at(s, 88, v.gas_price);
    assert(s.subrange(96, 104) =~= spec_u64_to_le_bytes(v.n_txs_on_chain_from_address));
    lemma_le_u64_at(s, 96, v.n_txs_on_chain_from_address);
    assert(s.subrange(104, 136) =~= v.hash);
    assert(s.subrange(136, 200) =~= v.signature);
    assert(s.subrange(204, 204 + v.data.len() as int) =~= v.data);
    assert(Transaction::spec_deserialize(s)->Ok_0 =~= v);
}

/// Truncation sensitivity: every strict prefix of an encoding, the empty
/// buffer included, decodes to `IncorrectLength`.
pub proof fn lemma_transaction_truncation(v: SpecTransaction, n: int)
    requires
        Transaction::serializable(v),
        0 <= n < Transaction::spec_serialize(v).len(),
    ensures
        Transaction::spec_deserialize(Transaction::spec_serialize(v).take(n)) == Err::<
            SpecTransaction,
            ErrorKind,
        >(ErrorKind::IncorrectLength),
{
    let s = Transaction::spec_serialize(v);
    vstd::bytes::lemma_auto_spec_u64_to_from_le_bytes();
    vstd::bytes::lemma_auto_spec_u32_to_from_le_bytes();
    assert(spec_u64_to_le_bytes(v.value).len() == 8);
    assert(spec_u64_to_le_bytes(v.tip).len() == 8);
    assert(spec_u64_to_le_bytes(v.gas_limit).len() == 8);
    assert(spec_u64_to_le_bytes(v.gas_price).len() == 8);
    assert(spec_u64_to_le_bytes(v.n_txs_on_chain_from_address).len() == 8);
    assert(spec_u32_to_le_bytes(v.data.len() as u32).len() == 4);
    let p = s.take(n);
    if n >= 204 {
        assert(p.subrange(200, 204) =~= spec_u32_to_le_bytes(v.data.len() as u32));
        lemma_le_u32_at(p, 200, v.data.len() as u32);
    }
}

/// Round trip: decoding the encoding of any well-formed value returns exactly
/// that value.
pub proof fn lemma_transaction_data_contract_deployment_roundtrip(
    v: SpecTransactionDataContractDeployment,
)
    requires
        TransactionDataContractDeployment::serializable(v),
    ensures
        TransactionDataContractDeployment::spec_deserialize(
            TransactionDataContractDeployment::spec_serialize(v),
        ) == Ok::<SpecTransactionDataContractDeployment, ErrorKind>(v),
{
    let s = TransactionDataContractDeployment::spec_serialize(v);
    let cs = v.contract_code.len() as int;
    let ar = v.contract_init_arguments.len() as int;
    vstd::bytes::lemma_auto_spec_u32_to_from_le_bytes();
    assert(spec_u32_to_le_bytes(v.contract_code.len() as u32).len() == 4);
    assert(spec_u32_to_le_bytes(v.contract_init_arguments.len() as u32).len() == 4);
    assert(s.subrange(0, 4) =~= spec_u32_to_le_bytes(v.contract_code.len() as u32));
    lemma_le_u32_at(s, 0, v.contract_code.len() as u32);
    assert(s.subrange(4, 8) =~= spec_u32_to_le_bytes(v.contract_init_arguments.len() as u32));
    lemma_le_u32_at(s, 4, v.contract_init_arguments.len() as u32);
    assert(s.subrange(8, 8 + cs) =~= v.contract_code);
    assert(s.subrange(8 + cs, 8 + cs + ar) =~= v.contract_init_arguments);
    assert(TransactionDataContractDeployment::spec_deserialize(s)->Ok_0 =~= v);
}

/// Truncation sensitivity: every strict prefix of an encoding, the empty
/// buffer included, decodes to `IncorrectLength`.
pub proof fn lemma_transaction_data_contract_deployment_truncation(
    v: SpecTransactionDataContractDeployment,
    n: int,
)
    requires
        TransactionDataContractDeployment::serializable(v),
        0 <= n < TransactionDataContractDeployment::spec_serialize(v).len(),
    ensures
        TransactionDataContractDeployment::spec_deserialize(
            TransactionDataContractDeployment::spec_serialize(v).take(n),
        ) == Err::<SpecTransactionDataContractDeployment, ErrorKind>(ErrorKind::IncorrectLength),
{
    let s = TransactionDataContractDeployment::spec_serialize(v);
    vstd::bytes::lemma_auto_spec_u32_to_from_le_bytes();
    assert(spec_u32_to_le_bytes(v.contract_code.len() as u32).len() == 4);
    assert(spec_u32_to_le_bytes(v.contract_init_arguments.len() as u32).len() == 4);
    let p = s.take(n);
    if n >= 8 {
        assert(p.subrange(0, 4) =~= spec_u32_to_le_bytes(v.contract_code.len() as u32));
        lemma_le_u32_at(p, 0, v.contract_code.len() as u32);
        assert(p.subrange(4, 8) =~= spec_u32_to_le_bytes(v.contract_init_arguments.len() as u32));
        lemma_le_u32_at(p, 4, v.contract_init_arguments.len() as u32);
    }
}

/// Round trip: decoding the encoding of any well-formed value returns exactly
/// that value.
pub proof fn lemma_event_roundtrip(v: SpecEvent)
    requires
        Event::serializable(v),
    ensures
        Event::spec_deserialize(Event::spec_serialize(v)) == Ok::<SpecEvent, ErrorKind>(v),
{
    let s = Event::spec_serialize(v);
    let ts = v.topic.len() as int;
    let vs = v.value.len() as int;
    vstd::bytes::lemma_auto_spec_u32_to_from_le_bytes();
    assert(spec_u32_to_le_bytes(v.topic.len() as u32).len() == 4);
    assert(spec_u32_to_le_bytes(v.value.len() as u32).len() == 4);
    assert(s.subrange(0, 4) =~= spec_u32_to_le_bytes(v.topic.len() as u32));
    lemma_le_u32_at(s, 0, v.topic.len() as u32);
    assert(s.subrange(4, 8) =~= spec_u32_to_le_bytes(v.value.len() as u32));
    lemma_le_u32_at(s, 4, v.value.len() as u32);
    assert(s.subrange(8, 8 + ts) =~= v.topic);
    assert(s.subrange(8 + ts, 8 + ts + vs) =~= v.value);
    assert(Event::spec_deserialize(s)->Ok_0 =~= v);
}

/// Truncation sensitivity: every strict prefix of an encoding, the empty
/// buffer included, decodes to `IncorrectLength`.
pub proof fn lemma_event_truncation(v: SpecEvent, n: int)
    requires
        Event::serializable(v),
        0 <= n < Event::spec_serialize(v).len(),
    ensures
        Event::spec_deserialize(Event::spec_serialize(v).take(n)) == Err::<SpecEvent, ErrorKind>(
            ErrorKind::IncorrectLength,
        ),
{
    let s = Event::spec_serialize(v);
    vstd::bytes::lemma_auto_spec_u32_to_from_le_bytes();
    assert(spec_u32_to_le_bytes(v.topic.len() as u32).len() == 4);
    assert(spec_u32_to_le_bytes(v.value.len() as u32).len() == 4);
    let p = s.take(n);
    if n >= 8 {
        assert(p.subrange(0, 4) =~= spec_u32_to_le_bytes(v.topic.len() as u32));
        lemma_le_u32_at(p, 0, v.topic.len() as u32);
        assert(p.subrange(4, 8) =~= spec_u32_to_le_bytes(v.value.len() as u32));
        lemma_le_u32_at(p, 4, v.value.len() as u32);
    }
}

/// The concatenation of the encodings of a sequence of events: the
/// self-describing item convention, with no external count or size table.
pub open spec fn spec_events_bytes(es: Seq<SpecEvent>) -> Seq<u8>
    decreases es.len(),
{
    if es.len() == 0 {
        Seq::empty()
    } else {
        Event::spec_serialize(es.first()) + spec_events_bytes(es.drop_first())
    }
}

/// Event-region bytes distribute over concatenation of event sequences.
pub proof fn lemma_events_bytes_concat(a: Seq<SpecEvent>, b: Seq<SpecEvent>)
    ensures
        spec_events_bytes(a + b) == spec_events_bytes(a) + spec_events_bytes(b),
    decreases a.len(),
{
    if a.len() == 0 {
        assert(a + b =~= b);
        assert(spec_events_bytes(a) + spec_events_bytes(b) =~= spec_events_bytes(b));
    } else {
        assert((a + b).first() == a.first());
        assert((a + b).drop_first() =~= a.drop_first() + b);
        lemma_events_bytes_concat(a.drop_first(), b);
        assert(spec_events_bytes(a + b) =~= spec_events_bytes(a) + spec_events_bytes(b));
    }
}

/// The event-region bytes of a single event are exactly its encoding.
pub proof fn lemma_events_bytes_singleton(e: SpecEvent)
    ensures
        spec_events_bytes(seq![e]) == Event::spec_serialize(e),
{
    assert(seq![e].drop_first() =~= Seq::<SpecEvent>::empty());
    assert(spec_events_bytes(Seq::<SpecEvent>::empty()) == Seq::<u8>::empty());
    assert(spec_events_bytes(seq![e]) =~= Event::spec_serialize(e));
}

/// The events decoded from a self-describing region: items are consumed one
/// at a time, each sized by its own fixed header, until the region is
/// exhausted; any shortfall is `IncorrectLength`.
pub open spec fn spec_parse_events(region: Seq<u8>) -> Result<Seq<SpecEvent>, ErrorKind>
    decreases region.len(),
{
    if region.len() == 0 {
        Ok(Seq::empty())
    } else if region.len() < 8 {
        Err(ErrorKind::IncorrectLength)
    } else {
        let item_size = 8 + le_u32_at(region, 0) as int + le_u32_at(region, 4) as int;
        if region.len() < item_size {
            Err(ErrorKind::IncorrectLength)
        } else {
            match Event::spec_deserialize(region.take(item_size)) {
                Ok(e) => match spec_parse_events(region.skip(item_size)) {
                    Ok(rest) => Ok(seq![e] + rest),
                    Err(k) => Err(k),
                },
                Err(k) => Err(k),
            }
        }
    }
}

/// Parsing a self-describing events region inverts writing one.
pub proof fn lemma_parse_events_roundtrip(es: Seq<SpecEvent>)
    requires
        forall|i: int| 0 <= i < es.len() ==> Event::serializable(#[trigger] es[i]),
    ensures
        spec_parse_events(spec_events_bytes(es)) == Ok::<Seq<SpecEvent>, ErrorKind>(es),
    decreases es.len(),
{
    if es.len() == 0 {
        assert(spec_parse_events(spec_events_bytes(es)) == Ok::<Seq<SpecEvent>, ErrorKind>(
            Seq::<SpecEvent>::empty(),
        ));
        assert(Seq::<SpecEvent>::empty() =~= es);
    } else {
        let e0 = es.first();
        let rest = es.drop_first();
        let b0 = Event::spec_serialize(e0);
        let rb = spec_events_bytes(rest);
        let region = spec_events_bytes(es);
        assert(es[0] == e0);
        assert(region == b0 + rb);
        vstd::bytes::lemma_auto_spec_u32_to_from_le_bytes();
        assert(spec_u32_to_le_bytes(e0.topic.len() as u32).len() == 4);
        assert(spec_u32_to_le_bytes(e0.value.len() as u32).len() == 4);
        lemma_event_encoding_len(e0);
        assert(region.subrange(0, 4) =~= spec_u32_to_le_bytes(e0.topic.len() as u32));
        lemma_le_u32_at(region, 0, e0.topic.len() as u32);
        assert(region.subrange(4, 8) =~= spec_u32_to_le_bytes(e0.value.len() as u32));
        lemma_le_u32_at(region, 4, e0.value.len() as u32);
        let item_size = 8 + e0.topic.len() as int + e0.value.len() as int;
        assert(item_size == b0.len());
        assert(region.take(item_size) =~= b0);
        lemma_event_roundtrip(e0);
        assert(region.skip(item_size) =~= rb);
        assert(forall|i: int| 0 <= i < rest.len() ==> Event::serializable(#[trigger] rest[i]));
        lemma_parse_events_roundtrip(rest);
        assert(seq![e0] + rest =~= es);
    }
}

impl Serializable for Receipt {
    open spec fn serializable(v: SpecReceipt) -> bool {
        &&& v.return_value.len() <= u32::MAX
        &&& spec_events_bytes(v.events).len() <= u32::MAX
        &&& forall|i: int| 0 <= i < v.events.len() ==> Event::serializable(#[trigger] v.events[i])
    }

    open spec fn spec_serialize(v: SpecReceipt) -> Seq<u8> {
        seq![spec_code_byte(v.status_code)] + spec_u64_to_le_bytes(v.gas_consumed)
            + spec_u32_to_le_bytes(v.return_value.len() as u32) + spec_u32_to_le_bytes(
            spec_events_bytes(v.events).len() as u32,
        ) + v.return_value + spec_events_bytes(v.events)
    }

    fn serialize(msg: &Receipt) -> (r: Vec<u8>) {
        let ghost evdv = msg.deep_view().events;
        // First pass: the byte size of the events region, so that the size
        // field can be written before the region itself.
        let mut ev_total: u64 = 0;
        let mut i: usize = 0;
        while i < msg.events.len()
            invariant
                Receipt::serializable(msg.deep_view()),
                evdv == msg.deep_view().events,
                evdv.len() == msg.events@.len(),
                i <= msg.events@.len(),
                ev_total == spec_events_bytes(evdv.take(i as int)).len(),
                ev_total <= u32::MAX,
            decreases msg.events@.len() - i,
        {
            let e = &msg.events[i];
            proof {
                assert(evdv[i as int] == msg.events@[i as int].deep_view());
                lemma_event_encoding_len(evdv[i as int]);
                lemma_events_bytes_concat(evdv.take(i as int), seq![evdv[i as int]]);
                assert(evdv.take(i as int) + seq![evdv[i as int]] =~= evdv.take(i + 1));
                lemma_events_bytes_singleton(evdv[i as int]);
                lemma_events_bytes_concat(evdv.take(i + 1), evdv.skip(i + 1));
                assert(evdv.take(i + 1) + evdv.skip(i + 1) =~= evdv);
            }
            let item_size: u64 = 8 + e.topic.len() as u64 + e.value.len() as u64;
            ev_total = ev_total + item_size;
            i = i + 1;
        }
        proof {
            assert(evdv.take(msg.events@.len() as int) =~= evdv);
        }
        let mut r: Vec<u8> = Vec::new();
        let status_byte: u8 = msg.status_code.into();
        r.push(status_byte);
        write_u64(&mut r, msg.gas_consumed);
        write_u32(&mut r, msg.return_value.len() as u32);
        write_u32(&mut r, ev_total as u32);
        write_bytes(&mut r, msg.return_value.as_slice());
        let ghost prefix = r@;
        let mut i: usize = 0;
        while i < msg.events.len()
            invariant
                Receipt::serializable(msg.deep_view()),
                evdv == msg.deep_view().events,
                evdv.len() == msg.events@.len(),
                i <= msg.events@.len(),
                r@ == prefix + spec_events_bytes(evdv.take(i as int)),
            decreases msg.events@.len() - i,
        {
            proof {
                assert(evdv[i as int] == msg.events@[i as int].deep_view());
            }
            let eb = Event::serialize(&msg.events[i]);
            write_bytes(&mut r, eb.as_slice());
            proof {
                lemma_events_bytes_concat(evdv.take(i as int), seq![evdv[i as int]]);
                assert(evdv.take(i as int) + seq![evdv[i as int]] =~= evdv.take(i + 1));
                lemma_events_bytes_singleton(evdv[i as int]);
                assert(r@ =~= prefix + spec_events_bytes(evdv.take(i + 1)));
            }
            i = i + 1;
        }
        proof {
            assert(evdv.take(msg.events@.len() as int) =~= evdv);
            assert(r@ =~= Self::spec_serialize(msg.deep_view()));
        }
        r
    }
}

impl Deserializable<Receipt> for Receipt {
    proof fn lemma_roundtrip(v: SpecReceipt) {
        lemma_receipt_roundtrip(v);
    }

    open spec fn spec_deserialize(buf: Seq<u8>) -> Result<SpecReceipt, ErrorKind> {
        if buf.len() < 17 {
            Err(ErrorKind::IncorrectLength)
        } else {
            match spec_byte_code(buf[0]) {
                None => Err(ErrorKind::ReceiptStatusCodeOutOfRange),
                Some(code) => {
                    let rv_size = le_u32_at(buf, 9) as int;
                    let ev_size = le_u32_at(buf, 13) as int;
                    if buf.len() < 17 + rv_size + ev_size {
                        Err(ErrorKind::IncorrectLength)
                    } else {
                        match spec_parse_events(buf.subrange(17 + rv_size, 17 + rv_size + ev_size)) {
                            Ok(es) => Ok(
                                SpecReceipt {
                                    status_code: code,
                                    gas_consumed: le_u64_at(buf, 1),
                                    return_value: buf.subrange(17, 17 + rv_size),
                                    events: es,
                                },
                            ),
                            Err(k) => Err(k),
                        }
                    }
                },
            }
        }
    }

    fn deserialize(buf: &[u8]) -> (r: Result<Receipt, Error>) {
        if buf.len() < 17 {
            return Err(Error::new(ErrorKind::IncorrectLength));
        }
        let status_code = match ReceiptStatusCode::try_from(buf[0]) {
            Ok(c) => c,
            Err(e) => {
                return Err(e);
            },
        };
        let gas_consumed = read_u64(buf, 1);
        let rv_size = read_u32(buf, 9) as usize;
        let ev_size = read_u32(buf, 13) as usize;
        if rv_size as u64 + ev_size as u64 > (buf.len() - 17) as u64 {
            return Err(Error::new(ErrorKind::IncorrectLength));
        }
        let return_value = read_bytes(buf, 17, rv_size);
        let region = vstd::slice::slice_subrange(buf, 17 + rv_size, 17 + rv_size + ev_size);
        let ghost gregion = region@;
        proof {
            assert(gregion =~= buf@.subrange(17 + rv_size as int, 17 + rv_size + ev_size));
        }
        let mut events: Vec<Event> = Vec::new();
        let mut pos: usize = 0;
        proof {
            assert(gregion.skip(0) =~= gregion);
            if spec_parse_events(gregion) is Ok {
                let rest = spec_parse_events(gregion)->Ok_0;
                assert(events.deep_view() + rest =~= rest);
            }
        }
        while pos < region.len()
            invariant
                gregion == region@,
                pos <= region@.len(),
                region@.len() <= usize::MAX,
                spec_parse_events(gregion) matches Err(k) ==> Self::spec_deserialize(buf@)
                    == Err::<SpecReceipt, ErrorKind>(k),
                match spec_parse_events(gregion.skip(pos as int)) {
                    Ok(rest) => spec_parse_events(gregion) == Ok::<Seq<SpecEvent>, ErrorKind>(
                        events.deep_view() + rest,
                    ),
                    Err(k) => spec_parse_events(gregion) == Err::<Seq<SpecEvent>, ErrorKind>(k),
                },
            decreases region@.len() - pos,
        {
            let remaining = region.len() - pos;
            proof {
                assert(gregion.skip(pos as int).len() == remaining);
            }
            if remaining < 8 {
                proof {
                    assert(spec_parse_events(gregion.skip(pos as int)) == Err::<
                        Seq<SpecEvent>,
                        ErrorKind,
                    >(ErrorKind::IncorrectLength));
                }
                return Err(Error::new(ErrorKind::IncorrectLength));
            }
            let topic_size = read_u32(region, pos);
            let value_size = read_u32(region, pos + 4);
            proof {
                assert(gregion.skip(pos as int).subrange(0, 4) =~= gregion.subrange(
                    pos as int,
                    pos + 4,
                ));
                assert(gregion.skip(pos as int).subrange(4, 8) =~= gregion.subrange(
                    pos + 4,
                    pos + 8,
                ));
            }
            let item_size64: u64 = 8 + topic_size as u64 + value_size as u64;
            if item_size64 > remaining as u64 {
                proof {
                    assert(spec_parse_events(gregion.skip(pos as int)) == Err::<
                        Seq<SpecEvent>,
                        ErrorKind,
                    >(ErrorKind::IncorrectLength));
                }
                return Err(Error::new(ErrorKind::IncorrectLength));
            }
            let item_size = item_size64 as usize;
            let item = vstd::slice::slice_subrange(region, pos, pos + item_size);
            proof {
                assert(item@ =~= gregion.skip(pos as int).take(item_size as int));
            }
            let e = match Event::deserialize(item) {
                Ok(e) => e,
                Err(err) => {
                    return Err(err);
                },
            };
            let ghost old_events = events.deep_view();
            events.push(e);
            pos = pos + item_size;
            proof {
                assert(events.deep_view() =~= old_events + seq![e.deep_view()]);
                assert(gregion.skip(pos - item_size).skip(item_size as int) =~= gregion.skip(
                    pos as int,
                ));
                assert(old_events + (seq![e.deep_view()] + spec_parse_events(
                    gregion.skip(pos as int),
                )->Ok_0) =~= (old_events + seq![e.deep_view()]) + spec_parse_events(
                    gregion.skip(pos as int),
                )->Ok_0);
            }
        }
        proof {
            assert(gregion.skip(pos as int) =~= Seq::<u8>::empty());
            assert(events.deep_view() + Seq::<SpecEvent>::empty() =~= events.deep_view());
        }
        let ret = Receipt { status_code, gas_consumed, return_value, events };
        proof {
            let m = Self::spec_deserialize(buf@)->Ok_0;
            assert(ret.deep_view() =~= m);
        }
        Ok(ret)
    }
}

impl Receipt {
    /// True exactly when the receipt carries the success status code.
    pub fn is_success(&self) -> (r: bool)
        ensures
            r == (self.status_code == ReceiptStatusCode::Success),
    {
        self.status_code.is_success()
    }

    /// True exactly when the receipt carries a status code on which the
    /// transaction is includable in a block.
    pub fn is_includable(&self) -> (r: bool)
        ensures
            r == spec_is_includable(self.status_code),
    {
        self.status_code.is_includable()
    }

    /// True exactly when the receipt carries a status code on which the same
    /// transaction may be retried.
    pub fn is_retryable(&self) -> (r: bool)
        ensures
            r == spec_is_retryable(self.status_code),
    {
        self.status_code.is_retryable()
    }
}

/// The length of a receipt's encoding is its fixed region plus the return
/// value plus the events region.
pub proof fn lemma_receipt_encoding_len(v: SpecReceipt)
    requires
        Receipt::serializable(v),
    ensures
        Receipt::spec_serialize(v).len() == 17 + v.return_value.len() + spec_events_bytes(
            v.events,
        ).len(),
{
    vstd::bytes::lemma_auto_spec_u64_to_from_le_bytes();
    vstd::bytes::lemma_auto_spec_u32_to_from_le_bytes();
    assert(spec_u64_to_le_bytes(v.gas_consumed).len() == 8);
    assert(spec_u32_to_le_bytes(v.return_value.len() as u32).len() == 4);
    assert(spec_u32_to_le_bytes(spec_events_bytes(v.events).len() as u32).len() == 4);
}

/// Round trip: decoding the encoding of any well-formed value returns exactly
/// that value.
pub proof fn lemma_receipt_roundtrip(v: SpecReceipt)
    requires
        Receipt::serializable(v),
    ensures
        Receipt::spec_deserialize(Receipt::spec_serialize(v)) == Ok::<SpecReceipt, ErrorKind>(v),
{
    let s = Receipt::spec_serialize(v);
    let rv = v.return_value.len() as int;
    let eb = spec_events_bytes(v.events);
    vstd::bytes::lemma_auto_spec_u64_to_from_le_bytes();
    vstd::bytes::lemma_auto_spec_u32_to_from_le_bytes();
    assert(spec_u64_to_le_bytes(v.gas_consumed).len() == 8);
    assert(spec_u32_to_le_bytes(v.return_value.len() as u32).len() == 4);
    assert(spec_u32_to_le_bytes(eb.len() as u32).len() == 4);
    assert(s[0] == spec_code_byte(v.status_code));
    lemma_status_code_roundtrip(v.status_code);
    assert(s.subrange(9, 13) =~= spec_u32_to_le_bytes(v.return_value.len() as u32));
    lemma_le_u32_at(s, 9, v.return_value.len() as u32);
    assert(s.subrange(13, 17) =~= spec_u32_to_le_bytes(eb.len() as u32));
    lemma_le_u32_at(s, 13, eb.len() as u32);
    assert(s.subrange(1, 9) =~= spec_u64_to_le_bytes(v.gas_consumed));
    lemma_le_u64_at(s, 1, v.gas_consumed);
    assert(s.subrange(17, 17 + rv) =~= v.return_value);
    assert(s.subrange(17 + rv, 17 + rv + eb.len() as int) =~= eb);
    lemma_parse_events_roundtrip(v.events);
    assert(Receipt::spec_deserialize(s)->Ok_0 =~= v);
}

/// Truncation sensitivity: every strict prefix of an encoding, the empty
/// buffer included, decodes to `IncorrectLength` or, where the cut removes
/// part of the fixed region, never to a decoded value. For a receipt the
/// status byte survives any cut past the fixed region, so the error is
/// always `IncorrectLength`.
pub proof fn lemma_receipt_truncation(v: SpecReceipt, n: int)
    requires
        Receipt::serializable(v),
        0 <= n < Receipt::spec_serialize(v).len(),
    ensures
        Receipt::spec_deserialize(Receipt::spec_serialize(v).take(n)) == Err::<
            SpecReceipt,
            ErrorKind,
        >(ErrorKind::IncorrectLength),
{
    let s = Receipt::spec_serialize(v);
    let eb = spec_events_bytes(v.events);
    vstd::bytes::lemma_auto_spec_u64_to_from_le_bytes();
    vstd::bytes::lemma_auto_spec_u32_to_from_le_bytes();
    assert(spec_u64_to_le_bytes(v.gas_consumed).len() == 8);
    assert(spec_u32_to_le_bytes(v.return_value.len() as u32).len() == 4);
    assert(spec_u32_to_le_bytes(eb.len() as u32).len() == 4);
    let p = s.take(n);
    if n >= 17 {
        assert(p[0] == spec_code_byte(v.status_code));
        lemma_status_code_roundtrip(v.status_code);
        assert(p.subrange(9, 13) =~= spec_u32_to_le_bytes(v.return_value.len() as u32));
        lemma_le_u32_at(p, 9, v.return_value.len() as u32);
        assert(p.subrange(13, 17) =~= spec_u32_to_le_bytes(eb.len() as u32));
        lemma_le_u32_at(p, 13, eb.len() as u32);
    }
}

} // verus!
