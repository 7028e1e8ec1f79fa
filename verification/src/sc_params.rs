//! Protocol types used to pass execution-context data into smart-contract
//! linear memory: [`ParamsFromTransaction`], [`ParamsFromBlockchain`], and
//! [`CallData`].

use vstd::prelude::*;
use vstd::bytes::{spec_u32_to_le_bytes, spec_u64_to_le_bytes};
use vstd::utf8::{decode_utf8, encode_utf8, valid_utf8};
use vstd::string::StrSliceExecFns;
use crate::crypto;
use crate::error::{Error, ErrorKind};
use crate::encodings::{
    le_u32_at, le_u64_at, lemma_le_u32_at, lemma_le_u64_at, read_arr32, read_bytes, read_u32,
    read_u64, write_bytes, write_u32, write_u64,
};
use crate::{Deserializable, Serializable};

verus! {

/// Byte length of the fixed region of a [`ParamsFromTransaction`] encoding.
pub const PARAMS_FROM_TRANSACTION_BASESIZE: usize = 108;

/// Byte length of a [`ParamsFromBlockchain`] encoding, which is fully fixed.
pub const PARAMS_FROM_BLOCKCHAIN_BASESIZE: usize = 76;

/// Byte length of the fixed region of a [`CallData`] encoding.
pub const CALLDATA_BASESIZE: usize = 8;

/// Transaction-derived execution context handed to a contract invocation.
#[derive(Debug, Clone)]
pub struct ParamsFromTransaction {
    pub from_address: crypto::PublicAddress,
    pub to_address: crypto::PublicAddress,
    pub data: Vec<u8>,
    pub value: u64,
    pub transaction_hash: crypto::Sha256Hash,
}

/// Blockchain-derived execution context handed to a contract invocation.
#[derive(Debug, Clone)]
pub struct ParamsFromBlockchain {
    pub this_block_number: u64,
    pub prev_block_hash: crypto::Sha256Hash,
    /// Unix timestamp.
    pub timestamp: u32,
    pub random_bytes: crypto::Sha256Hash,
}

/// A contract entry-point address: a method name, validated as text during
/// decode, and an opaque argument blob. An empty method name is the valid
/// convention for a default entry point.
pub struct CallData {
    /// Method name of the contract entry point to call.
    pub method_name: String,
    /// Arguments to the entry-point method.
    pub arguments: Vec<u8>,
}

/// Mathematical model of a [`ParamsFromTransaction`].
#[verifier::ext_equal]
pub struct SpecParamsFromTransaction {
    pub from_address: Seq<u8>,
    pub to_address: Seq<u8>,
    pub data: Seq<u8>,
    pub value: u64,
    pub transaction_hash: Seq<u8>,
}

/// Mathematical model of a [`ParamsFromBlockchain`].
#[verifier::ext_equal]
pub struct SpecParamsFromBlockchain {
    pub this_block_number: u64,
    pub prev_block_hash: Seq<u8>,
    pub timestamp: u32,
    pub random_bytes: Seq<u8>,
}

/// Mathematical model of a [`CallData`].
#[verifier::ext_equal]
pub struct SpecCallData {
    pub method_name: Seq<char>,
    pub arguments: Seq<u8>,
}

impl DeepView for ParamsFromTransaction {
    type V = SpecParamsFromTransaction;

    open spec fn deep_view(&self) -> SpecParamsFromTransaction {
        SpecParamsFromTransaction {
            from_address: self.from_address@,
            to_address: self.to_address@,
            data: self.data@,
            value: self.value,
            transaction_hash: self.transaction_hash@,
        }
    }
}

impl DeepView for ParamsFromBlockchain {
    type V = SpecParamsFromBlockchain;

    open spec fn deep_view(&self) -> SpecParamsFromBlockchain {
        SpecParamsFromBlockchain {
            this_block_number: self.this_block_number,
            prev_block_hash: self.prev_block_hash@,
            timestamp: self.timestamp,
            random_bytes: self.random_bytes@,
        }
    }
}

impl DeepView for CallData {
    type V = SpecCallData;

    open spec fn deep_view(&self) -> SpecCallData {
        SpecCallData { method_name: self.method_name@, arguments: self.arguments@ }
    }
}

impl Serializable for ParamsFromTransaction {
    open spec fn serializable(v: SpecParamsFromTransaction) -> bool {
        &&& v.from_address.len() == 32
        &&& v.to_address.len() == 32
        &&& v.transaction_hash.len() == 32
        &&& v.data.len() <= u32::MAX
    }

    open spec fn spec_serialize(v: SpecParamsFromTransaction) -> Seq<u8> {
        v.from_address + v.to_address + spec_u64_to_le_bytes(v.value) + v.transaction_hash
            + spec_u32_to_le_bytes(v.data.len() as u32) + v.data
    }

    fn serialize(msg: &ParamsFromTransaction) -> (r: Vec<u8>) {
        let mut r: Vec<u8> = Vec::new();
        write_bytes(&mut r, msg.from_address.as_slice());
        write_bytes(&mut r, msg.to_address.as_slice());
        write_u64(&mut r, msg.value);
        write_bytes(&mut r, msg.transaction_hash.as_slice());
        write_u32(&mut r, msg.data.len() as u32);
        write_bytes(&mut r, msg.data.as_slice());
        proof {
            assert(r@ =~= Self::spec_serialize(msg.deep_view()));
        }
        r
    }
}

impl Deserializable<ParamsFromTransaction> for ParamsFromTransaction {
    proof fn lemma_roundtrip(v: SpecParamsFromTransaction) {
        lemma_params_from_transaction_roundtrip(v);
    }

    open spec fn spec_deserialize(buf: Seq<u8>) -> Result<SpecParamsFromTransaction, ErrorKind> {
        if buf.len() < 108 {
            Err(ErrorKind::IncorrectLength)
        } else {
            let data_size = le_u32_at(buf, 104) as int;
            if buf.len() < 108 + data_size {
                Err(ErrorKind::IncorrectLength)
            } else {
                Ok(
                    SpecParamsFromTransaction {
                        from_address: buf.subrange(0, 32),
                        to_address: buf.subrange(32, 64),
                        value: le_u64_at(buf, 64),
                        transaction_hash: buf.subrange(72, 104),
                        data: buf.subrange(108, 108 + data_size),
                    },
                )
            }
        }
    }

    fn deserialize(buf: &[u8]) -> (r: Result<ParamsFromTransaction, Error>) {
        if buf.len() < 108 {
            return Err(Error::new(ErrorKind::IncorrectLength));
        }
        let data_size = read_u32(buf, 104) as usize;
        if buf.len() - 108 < data_size {
            return Err(Error::new(ErrorKind::IncorrectLength));
        }
        let ret = ParamsFromTransaction {
            from_address: read_arr32(buf, 0),
            to_address: read_arr32(buf, 32),
            value: read_u64(buf, 64),
            transaction_hash: read_arr32(buf, 72),
            data: read_bytes(buf, 108, data_size),
        };
        proof {
            let m = Self::spec_deserialize(buf@)->Ok_0;
            assert(ret.deep_view() =~= m);
        }
        Ok(ret)
    }
}

impl Serializable for ParamsFromBlockchain {
    open spec fn serializable(v: SpecParamsFromBlockchain) -> bool {
        &&& v.prev_block_hash.len() == 32
        &&& v.random_bytes.len() == 32
    }

    open spec fn spec_serialize(v: SpecParamsFromBlockchain) -> Seq<u8> {
        spec_u64_to_le_bytes(v.this_block_number) + v.prev_block_hash + spec_u32_to_le_bytes(
            v.timestamp,
        ) + v.random_bytes
    }

    fn serialize(msg: &ParamsFromBlockchain) -> (r: Vec<u8>) {
        let mut r: Vec<u8> = Vec::new();
        write_u64(&mut r, msg.this_block_number);
        write_bytes(&mut r, msg.prev_block_hash.as_slice());
        write_u32(&mut r, msg.timestamp);
        write_bytes(&mut r, msg.random_bytes.as_slice());
        proof {
            assert(r@ =~= Self::spec_serialize(msg.deep_view()));
        }
        r
    }
}

impl Deserializable<ParamsFromBlockchain> for ParamsFromBlockchain {
    proof fn lemma_roundtrip(v: SpecParamsFromBlockchain) {
        lemma_params_from_blockchain_roundtrip(v);
    }

    open spec fn spec_deserialize(buf: Seq<u8>) -> Result<SpecParamsFromBlockchain, ErrorKind> {
        if buf.len() < 76 {
            Err(ErrorKind::IncorrectLength)
        } else {
            Ok(
                SpecParamsFromBlockchain {
                    this_block_number: le_u64_at(buf, 0),
                    prev_block_hash: buf.subrange(8, 40),
                    timestamp: le_u32_at(buf, 40),
                    random_bytes: buf.subrange(44, 76),
                },
            )
        }
    }

    fn deserialize(buf: &[u8]) -> (r: Result<ParamsFromBlockchain, Error>) {
        if buf.len() < 76 {
            return Err(Error::new(ErrorKind::IncorrectLength));
        }
        let ret = ParamsFromBlockchain {
            this_block_number: read_u64(buf, 0),
            prev_block_hash: read_arr32(buf, 8),
            timestamp: read_u32(buf, 40),
            random_bytes: read_arr32(buf, 44),
        };
        proof {
            let m = Self::spec_deserialize(buf@)->Ok_0;
            assert(ret.deep_view() =~= m);
        }
        Ok(ret)
    }
}

/// Relies on `String::from_utf8` of std: it succeeds exactly on input bytes
/// that are valid UTF-8 and then returns the string those bytes encode.
#[verifier::external_body]
fn string_from_utf8(bytes: Vec<u8>) -> (r: Option<String>)
    ensures
        r matches Some(s) ==> valid_utf8(bytes@) && s@ == decode_utf8(bytes@),
        r is None ==> !valid_utf8(bytes@),
{
    match String::from_utf8(bytes) {
        Ok(s) => Some(s),
        Err(_) => None,
    }
}

impl Serializable for CallData {
    open spec fn serializable(v: SpecCallData) -> bool {
        &&& encode_utf8(v.method_name).len() <= u32::MAX
        &&& v.arguments.len() <= u32::MAX
    }

    open spec fn spec_serialize(v: SpecCallData) -> Seq<u8> {
        spec_u32_to_le_bytes(encode_utf8(v.method_name).len() as u32) + spec_u32_to_le_bytes(
            v.arguments.len() as u32,
        ) + encode_utf8(v.method_name) + v.arguments
    }

    fn serialize(msg: &CallData) -> (r: Vec<u8>) {
        let method_bytes = msg.method_name.as_str().as_bytes_vec();
        let mut r: Vec<u8> = Vec::new();
        write_u32(&mut r, method_bytes.len() as u32);
        write_u32(&mut r, msg.arguments.len() as u32);
        write_bytes(&mut r, method_bytes.as_slice());
        write_bytes(&mut r, msg.arguments.as_slice());
        proof {
            assert(r@ =~= Self::spec_serialize(msg.deep_view()));
        }
        r
    }
}

impl Deserializable<CallData> for CallData {
    proof fn lemma_roundtrip(v: SpecCallData) {
        lemma_calldata_roundtrip(v);
    }

    open spec fn spec_deserialize(buf: Seq<u8>) -> Result<SpecCallData, ErrorKind> {
        if buf.len() < 8 {
            Err(ErrorKind::IncorrectLength)
        } else {
            let method_size = le_u32_at(buf, 0) as int;
            let args_size = le_u32_at(buf, 4) as int;
            if buf.len() < 8 + method_size + args_size {
                Err(ErrorKind::IncorrectLength)
            } else {
                let method_bytes = buf.subrange(8, 8 + method_size);
                if !valid_utf8(method_bytes) {
                    Err(ErrorKind::StringParseError)
                } else {
                    Ok(
                        SpecCallData {
                            method_name: decode_utf8(method_bytes),
                            arguments: buf.subrange(8 + method_size, 8 + method_size + args_size),
                        },
                    )
                }
            }
        }
    }

    fn deserialize(buf: &[u8]) -> (r: Result<CallData, Error>) {
        if buf.len() < 8 {
            return Err(Error::new(ErrorKind::IncorrectLength));
        }
        let method_size = read_u32(buf, 0) as usize;
        let args_size = read_u32(buf, 4) as usize;
        if method_size as u64 + args_size as u64 > (buf.len() - 8) as u64 {
            return Err(Error::new(ErrorKind::IncorrectLength));
        }
        let method_bytes = read_bytes(buf, 8, method_size);
        let method_name = match string_from_utf8(method_bytes) {
            Some(s) => s,
            None => {
                return Err(Error::new(ErrorKind::StringParseError));
            },
        };
        let arguments = read_bytes(buf, 8 + method_size, args_size);
        let ret = CallData { method_name, arguments };
        proof {
            let m = Self::spec_deserialize(buf@)->Ok_0;
            assert(ret.deep_view() =~= m);
        }
        Ok(ret)
    }
}

/// Round trip: decoding the encoding of any well-formed value returns exactly
/// that value.
pub proof fn lemma_params_from_transaction_roundtrip(v: SpecParamsFromTransaction)
    requires
        ParamsFromTransaction::serializable(v),
    ensures
        ParamsFromTransaction::spec_deserialize(ParamsFromTransaction::spec_serialize(v)) == Ok::<
            SpecParamsFromTransaction,
            ErrorKind,
        >(v),
{
    let s = ParamsFromTransaction::spec_serialize(v);
    assert(spec_u64_to_le_bytes(v.value).len() == 8 && spec_u32_to_le_bytes(
        v.data.len() as u32,
    ).len() == 4) by {
        vstd::bytes::lemma_auto_spec_u64_to_from_le_bytes();
        vstd::bytes::lemma_auto_spec_u32_to_from_le_bytes();
    }
    assert(s.subrange(104, 108) =~= spec_u32_to_le_bytes(v.data.len() as u32));
    lemma_le_u32_at(s, 104, v.data.len() as u32);
    assert(s.subrange(64, 72) =~= spec_u64_to_le_bytes(v.value));
    lemma_le_u64_at(s, 64, v.value);
    assert(s.subrange(0, 32) =~= v.from_address);
    assert(s.subrange(32, 64) =~= v.to_address);
    assert(s.subrange(72, 104) =~= v.transaction_hash);
    assert(s.subrange(108, 108 + v.data.len() as int) =~= v.data);
    assert(ParamsFromTransaction::spec_deserialize(s)->Ok_0 =~= v);
}

/// Round trip: decoding the encoding of any well-formed value returns exactly
/// that value.
pub proof fn lemma_params_from_blockchain_roundtrip(v: SpecParamsFromBlockchain)
    requires
        ParamsFromBlockchain::serializable(v),
    ensures
        ParamsFromBlockchain::spec_deserialize(ParamsFromBlockchain::spec_serialize(v)) == Ok::<
            SpecParamsFromBlockchain,
            ErrorKind,
        >(v),
{
    let s = ParamsFromBlockchain::spec_serialize(v);
    assert(spec_u64_to_le_bytes(v.this_block_number).len() == 8 && spec_u32_to_le_bytes(
        v.timestamp,
    ).len() == 4) by {
        vstd::bytes::lemma_auto_spec_u64_to_from_le_bytes();
        vstd::bytes::lemma_auto_spec_u32_to_from_le_bytes();
    }
    assert(s.subrange(0, 8) =~= spec_u64_to_le_bytes(v.this_block_number));
    lemma_le_u64_at(s, 0, v.this_block_number);
    assert(s.subrange(40, 44) =~= spec_u32_to_le_bytes(v.timestamp));
    lemma_le_u32_at(s, 40, v.timestamp);
    assert(s.subrange(8, 40) =~= v.prev_block_hash);
    assert(s.subrange(44, 76) =~= v.random_bytes);
    assert(ParamsFromBlockchain::spec_deserialize(s)->Ok_0 =~= v);
}

/// Round trip: decoding the encoding of any well-formed value returns exactly
/// that value.
pub proof fn lemma_calldata_roundtrip(v: SpecCallData)
    requires
        CallData::serializable(v),
    ensures
        CallData::spec_deserialize(CallData::spec_serialize(v)) == Ok::<SpecCallData, ErrorKind>(v),
{
    let mb = encode_utf8(v.method_name);
    let s = CallData::spec_serialize(v);
    assert(spec_u32_to_le_bytes(mb.len() as u32).len() == 4 && spec_u32_to_le_bytes(
        v.arguments.len() as u32,
    ).len() == 4) by {
        vstd::bytes::lemma_auto_spec_u32_to_from_le_bytes();
    }
    assert(s.subrange(0, 4) =~= spec_u32_to_le_bytes(mb.len() as u32));
    lemma_le_u32_at(s, 0, mb.len() as u32);
    assert(s.subrange(4, 8) =~= spec_u32_to_le_bytes(v.arguments.len() as u32));
    lemma_le_u32_at(s, 4, v.arguments.len() as u32);
    assert(s.subrange(8, 8 + mb.len() as int) =~= mb);
    assert(s.subrange(8 + mb.len() as int, 8 + mb.len() + v.arguments.len() as int) =~= v.arguments);
    vstd::utf8::encode_utf8_valid_utf8(v.method_name);
    vstd::utf8::encode_utf8_decode_utf8(v.method_name);
    assert(CallData::spec_deserialize(s)->Ok_0 =~= v);
}

/// Truncation sensitivity: every strict prefix of an encoding, the empty
/// buffer included, decodes to `IncorrectLength`.
pub proof fn lemma_params_from_transaction_truncation(v: SpecParamsFromTransaction, n: int)
    requires
        ParamsFromTransaction::serializable(v),
        0 <= n < ParamsFromTransaction::spec_serialize(v).len(),
    ensures
        ParamsFromTransaction::spec_deserialize(ParamsFromTransaction::spec_serialize(v).take(n))
            == Err::<SpecParamsFromTransaction, ErrorKind>(ErrorKind::IncorrectLength),
{
    let s = ParamsFromTransaction::spec_serialize(v);
    assert(spec_u64_to_le_bytes(v.value).len() == 8 && spec_u32_to_le_bytes(
        v.data.len() as u32,
    ).len() == 4) by {
        vstd::bytes::lemma_auto_spec_u64_to_from_le_bytes();
        vstd::bytes::lemma_auto_spec_u32_to_from_le_bytes();
    }
    let p = s.take(n);
    if n >= 108 {
        assert(p.subrange(104, 108) =~= spec_u32_to_le_bytes(v.data.len() as u32));
        lemma_le_u32_at(p, 104, v.data.len() as u32);
    }
}

/// Truncation sensitivity: every strict prefix of an encoding, the empty
/// buffer included, decodes to `IncorrectLength`.
pub proof fn lemma_params_from_blockchain_truncation(v: SpecParamsFromBlockchain, n: int)
    requires
        ParamsFromBlockchain::serializable(v),
        0 <= n < ParamsFromBlockchain::spec_serialize(v).len(),
    ensures
        ParamsFromBlockchain::spec_deserialize(ParamsFromBlockchain::spec_serialize(v).take(n))
            == Err::<SpecParamsFromBlockchain, ErrorKind>(ErrorKind::IncorrectLength),
{
    assert(spec_u64_to_le_bytes(v.this_block_number).len() == 8 && spec_u32_to_le_bytes(
        v.timestamp,
    ).len() == 4) by {
        vstd::bytes::lemma_auto_spec_u64_to_from_le_bytes();
        vstd::bytes::lemma_auto_spec_u32_to_from_le_bytes();
    }
}

/// Truncation sensitivity: every strict prefix of an encoding, the empty
/// buffer included, decodes to `IncorrectLength`.
pub proof fn lemma_calldata_truncation(v: SpecCallData, n: int)
    requires
        CallData::serializable(v),
        0 <= n < CallData::spec_serialize(v).len(),
    ensures
        CallData::spec_deserialize(CallData::spec_serialize(v).take(n)) == Err::<
            SpecCallData,
            ErrorKind,
        >(ErrorKind::IncorrectLength),
{
    let mb = encode_utf8(v.method_name);
    let s = CallData::spec_serialize(v);
    assert(spec_u32_to_le_bytes(mb.len() as u32).len() == 4 && spec_u32_to_le_bytes(
        v.arguments.len() as u32,
    ).len() == 4) by {
        vstd::bytes::lemma_auto_spec_u32_to_from_le_bytes();
    }
    let p = s.take(n);
    if n >= 8 {
        assert(p.subrange(0, 4) =~= spec_u32_to_le_bytes(mb.len() as u32));
        lemma_le_u32_at(p, 0, mb.len() as u32);
        assert(p.subrange(4, 8) =~= spec_u32_to_le_bytes(v.arguments.len() as u32));
        lemma_le_u32_at(p, 4, v.arguments.len() as u32);
    }
}

} // verus!
