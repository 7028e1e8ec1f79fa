//! Block-related protocol types: block headers and blocks. A block's
//! transaction and receipt lists are written as two independent
//! self-describing regions behind a pair of 32-bit region lengths, so the
//! final byte sequence is a function of the lists' contents and order alone.

use vstd::prelude::*;
use vstd::bytes::{spec_u32_to_le_bytes, spec_u64_to_le_bytes};
use vstd::*;
use crate::crypto;
use crate::error::{Error, ErrorKind};
use crate::encodings::{
    le_u32_at, le_u64_at, lemma_le_u32_at, lemma_le_u64_at, read_arr32, read_arr64, read_u32,
    read_u64, write_bytes, write_u32, write_u64,
};
use crate::transaction::{
    lemma_receipt_encoding_len, lemma_receipt_roundtrip, lemma_transaction_encoding_len,
    lemma_transaction_roundtrip, Event, Receipt, SpecReceipt, SpecTransaction, Transaction,
};
use crate::{Deserializable, Serializable};

verus! {

/// Byte length of a [`BlockHeader`] encoding, which is fully fixed.
pub const BLOCKHEADER_BASESIZE: usize = 276;

/// Byte length of the two region-length fields that follow a block header.
pub const BLOCK_SIZES_BASESIZE: usize = 8;

/// Meta information of a block, including externally computed commitments
/// over its contents. Fully fixed-size; the hash fields are carried, never
/// recomputed, by this codec.
#[derive(Debug, Clone, PartialEq, Eq)]
pub struct BlockHeader {
    pub blockchain_id: u64,
    pub block_version_number: u64,
    /// Unix timestamp.
    pub timestamp: u32,
    pub prev_block_hash: crypto::Sha256Hash,
    pub this_block_hash: crypto::Sha256Hash,
    pub txs_hash: crypto::Sha256Hash,
    pub state_hash: crypto::Sha256Hash,
    pub receipts_hash: crypto::Sha256Hash,
    pub proposer_public_key: crypto::PublicAddress,
    pub signature: crypto::Signature,
}

/// A block: header, ordered transactions, and ordered receipts. The codec
/// does not enforce that the two lists have equal length; that is left to an
/// external layer.
#[derive(Debug, Clone, PartialEq, Eq)]
pub struct Block {
    pub header: BlockHeader,
    pub transactions: Vec<Transaction>,
    pub receipts: Vec<Receipt>,
}

/// Mathematical model of a [`BlockHeader`].
#[verifier::ext_equal]
pub struct SpecBlockHeader {
    pub blockchain_id: u64,
    pub block_version_number: u64,
    pub timestamp: u32,
    pub prev_block_hash: Seq<u8>,
    pub this_block_hash: Seq<u8>,
    pub txs_hash: Seq<u8>,
    pub state_hash: Seq<u8>,
    pub receipts_hash: Seq<u8>,
    pub proposer_public_key: Seq<u8>,
    pub signature: Seq<u8>,
}

/// Mathematical model of a [`Block`].
#[verifier::ext_equal]
pub struct SpecBlock {
    pub header: SpecBlockHeader,
    pub transactions: Seq<SpecTransaction>,
    pub receipts: Seq<SpecReceipt>,
}

impl DeepView for BlockHeader {
    type V = SpecBlockHeader;

    open spec fn deep_view(&self) -> SpecBlockHeader {
        SpecBlockHeader {
            blockchain_id: self.blockchain_id,
            block_version_number: self.block_version_number,
            timestamp: self.timestamp,
            prev_block_hash: self.prev_block_hash@,
            this_block_hash: self.this_block_hash@,
            txs_hash: self.txs_hash@,
            state_hash: self.state_hash@,
            receipts_hash: self.receipts_hash@,
            proposer_public_key: self.proposer_public_key@,
            signature: self.signature@,
        }
    }
}

impl DeepView for Block {
    type V = SpecBlock;

    open spec fn deep_view(&self) -> SpecBlock {
        SpecBlock {
            header: self.header.deep_view(),
            transactions: self.transactions.deep_view(),
            receipts: self.receipts.deep_view(),
        }
    }
}

impl Serializable for BlockHeader {
    open spec fn serializable(v: SpecBlockHeader) -> bool {
        &&& v.prev_block_hash.len() == 32
        &&& v.this_block_hash.len() == 32
        &&& v.txs_hash.len() == 32
        &&& v.state_hash.len() == 32
        &&& v.receipts_hash.len() == 32
        &&& v.proposer_public_key.len() == 32
        &&& v.signature.len() == 64
    }

    open spec fn spec_serialize(v: SpecBlockHeader) -> Seq<u8> {
        spec_u64_to_le_bytes(v.blockchain_id) + spec_u64_to_le_bytes(v.block_version_number)
            + spec_u32_to_le_bytes(v.timestamp) + v.prev_block_hash + v.this_block_hash
            + v.state_hash + v.txs_hash + v.receipts_hash + v.proposer_public_key + v.signature
    }

    fn serialize(msg: &BlockHeader) -> (r: Vec<u8>) {
        let mut r: Vec<u8> = Vec::new();
        write_u64(&mut r, msg.blockchain_id);
        write_u64(&mut r, msg.block_version_number);
        write_u32(&mut r, msg.timestamp);
        write_bytes(&mut r, msg.prev_block_hash.as_slice());
        write_bytes(&mut r, msg.this_block_hash.as_slice());
        write_bytes(&mut r, msg.state_hash.as_slice());
        write_bytes(&mut r, msg.txs_hash.as_slice());
        write_bytes(&mut r, msg.receipts_hash.as_slice());
        write_bytes(&mut r, msg.proposer_public_key.as_slice());
        write_bytes(&mut r, msg.signature.as_slice());
        proof {
            assert(r@ =~= Self::spec_serialize(msg.deep_view()));
        }
        r
    }
}

impl Deserializable<BlockHeader> for BlockHeader {
    proof fn lemma_roundtrip(v: SpecBlockHeader) {
        lemma_blockheader_roundtrip(v);
    }

    open spec fn spec_deserialize(buf: Seq<u8>) -> Result<SpecBlockHeader, ErrorKind> {
        if buf.len() < 276 {
            Err(ErrorKind::IncorrectLength)
        } else {
            Ok(
                SpecBlockHeader {
                    blockchain_id: le_u64_at(buf, 0),
                    block_version_number: le_u64_at(buf, 8),
                    timestamp: le_u32_at(buf, 16),
                    prev_block_hash: buf.subrange(20, 52),
                    this_block_hash: buf.subrange(52, 84),
                    state_hash: buf.subrange(84, 116),
                    txs_hash: buf.subrange(116, 148),
                    receipts_hash: buf.subrange(148, 180),
                    proposer_public_key: buf.subrange(180, 212),
                    signature: buf.subrange(212, 276),
                },
            )
        }
    }

    fn deserialize(buf: &[u8]) -> (r: Result<BlockHeader, Error>) {
        if buf.len() < 276 {
            return Err(Error::new(ErrorKind::IncorrectLength));
        }
        let ret = BlockHeader {
            blockchain_id: read_u64(buf, 0),
            block_version_number: read_u64(buf, 8),
            timestamp: read_u32(buf, 16),
            prev_block_hash: read_arr32(buf, 20),
            this_block_hash: read_arr32(buf, 52),
            state_hash: read_arr32(buf, 84),
            txs_hash: read_arr32(buf, 116),
            receipts_hash: read_arr32(buf, 148),
            proposer_public_key: read_arr32(buf, 180),
            signature: read_arr64(buf, 212),
        };
        proof {
            let m = Self::spec_deserialize(buf@)->Ok_0;
            assert(ret.deep_view() =~= m);
        }
        Ok(ret)
    }
}

/// The concatenation of the encodings of a sequence of transactions: the
/// self-describing item convention of a block's transaction region.
pub open spec fn spec_txs_bytes(ts: Seq<SpecTransaction>) -> Seq<u8>
    decreases ts.len(),
{
    if ts.len() == 0 {
        Seq::empty()
    } else {
        Transaction::spec_serialize(ts.first()) + spec_txs_bytes(ts.drop_first())
    }
}

/// Transaction-region bytes distribute over concatenation.
pub proof fn lemma_txs_bytes_concat(a: Seq<SpecTransaction>, b: Seq<SpecTransaction>)
    ensures
        spec_txs_bytes(a + b) == spec_txs_bytes(a) + spec_txs_bytes(b),
    decreases a.len(),
{
    if a.len() == 0 {
        assert(a + b =~= b);
        assert(spec_txs_bytes(a) + spec_txs_bytes(b) =~= spec_txs_bytes(b));
    } else {
        assert((a + b).first() == a.first());
        assert((a + b).drop_first() =~= a.drop_first() + b);
        lemma_txs_bytes_concat(a.drop_first(), b);
        assert(spec_txs_bytes(a + b) =~= spec_txs_bytes(a) + spec_txs_bytes(b));
    }
}

/// The transaction-region bytes of a single transaction are its encoding.
pub proof fn lemma_txs_bytes_singleton(t: SpecTransaction)
    ensures
        spec_txs_bytes(seq![t]) == Transaction::spec_serialize(t),
{
    assert(seq![t].drop_first() =~= Seq::<SpecTransaction>::empty());
    assert(spec_txs_bytes(Seq::<SpecTransaction>::empty()) == Seq::<u8>::empty());
    assert(spec_txs_bytes(seq![t]) =~= Transaction::spec_serialize(t));
}

/// The transactions decoded from a self-describing region: each item is
/// sized by its own data-size field, consumed, and the scan repeats until
/// the region is exhausted; any shortfall is `IncorrectLength`.
pub open spec fn spec_parse_txs(region: Seq<u8>) -> Result<Seq<SpecTransaction>, ErrorKind>
    decreases region.len(),
{
    if region.len() == 0 {
        Ok(Seq::empty())
    } else if region.len() < 204 {
        Err(ErrorKind::IncorrectLength)
    } else {
        let item_size = 204 + le_u32_at(region, 200) as int;
        if region.len() < item_size {
            Err(ErrorKind::IncorrectLength)
        } else {
            match Transaction::spec_deserialize(region.take(item_size)) {
                Ok(t) => match spec_parse_txs(region.skip(item_size)) {
                    Ok(rest) => Ok(seq![t] + rest),
                    Err(k) => Err(k),
                },
                Err(k) => Err(k),
            }
        }
    }
}

/// The concatenation of the encodings of a sequence of receipts: the
/// self-describing item convention of a block's receipt region.
pub open spec fn spec_rcps_bytes(rs: Seq<SpecReceipt>) -> Seq<u8>
    decreases rs.len(),
{
    if rs.len() == 0 {
        Seq::empty()
    } else {
        Receipt::spec_serialize(rs.first()) + spec_rcps_bytes(rs.drop_first())
    }
}

/// Receipt-region bytes distribute over concatenation.
pub proof fn lemma_rcps_bytes_concat(a: Seq<SpecReceipt>, b: Seq<SpecReceipt>)
    ensures
        spec_rcps_bytes(a + b) == spec_rcps_bytes(a) + spec_rcps_bytes(b),
    decreases a.len(),
{
    if a.len() == 0 {
        assert(a + b =~= b);
        assert(spec_rcps_bytes(a) + spec_rcps_bytes(b) =~= spec_rcps_bytes(b));
    } else {
        assert((a + b).first() == a.first());
        assert((a + b).drop_first() =~= a.drop_first() + b);
        lemma_rcps_bytes_concat(a.drop_first(), b);
        assert(spec_rcps_bytes(a + b) =~= spec_rcps_bytes(a) + spec_rcps_bytes(b));
    }
}

/// The receipt-region bytes of a single receipt are its encoding.
pub proof fn lemma_rcps_bytes_singleton(r: SpecReceipt)
    ensures
        spec_rcps_bytes(seq![r]) == Receipt::spec_serialize(r),
{
    assert(seq![r].drop_first() =~= Seq::<SpecReceipt>::empty());
    assert(spec_rcps_bytes(Seq::<SpecReceipt>::empty()) == Seq::<u8>::empty());
    assert(spec_rcps_bytes(seq![r]) =~= Receipt::spec_serialize(r));
}

/// The receipts decoded from a self-describing region: each item is sized by
/// its own return-value-size and events-size fields, consumed, and the scan
/// repeats until the region is exhausted; any shortfall is
/// `IncorrectLength`.
pub open spec fn spec_parse_rcps(region: Seq<u8>) -> Result<Seq<SpecReceipt>, ErrorKind>
    decreases region.len(),
{
    if region.len() == 0 {
        Ok(Seq::empty())
    } else if region.len() < 17 {
        Err(ErrorKind::IncorrectLength)
    } else {
        let item_size = 17 + le_u32_at(region, 9) as int + le_u32_at(region, 13) as int;
        if region.len() < item_size {
            Err(ErrorKind::IncorrectLength)
        } else {
            match Receipt::spec_deserialize(region.take(item_size)) {
                Ok(r) => match spec_parse_rcps(region.skip(item_size)) {
                    Ok(rest) => Ok(seq![r] + rest),
                    Err(k) => Err(k),
                },
                Err(k) => Err(k),
            }
        }
    }
}


/// Writes the self-describing transaction region for an owned list: one unit
/// of the block pipeline's work, with its own private output buffer.
fn serialize_tx_region(transactions: Vec<Transaction>) -> (r: Vec<u8>)
    requires
        forall|i: int|
            0 <= i < transactions.deep_view().len() ==> Transaction::serializable(
                #[trigger] transactions.deep_view()[i],
            ),
    ensures
        r@ == spec_txs_bytes(transactions.deep_view()),
{
    let ghost txdv = transactions.deep_view();
    let mut buf: Vec<u8> = Vec::new();
    let mut i: usize = 0;
    while i < transactions.len()
        invariant
            txdv == transactions.deep_view(),
            txdv.len() == transactions@.len(),
            forall|j: int| 0 <= j < txdv.len() ==> Transaction::serializable(#[trigger] txdv[j]),
            i <= transactions@.len(),
            buf@ == spec_txs_bytes(txdv.take(i as int)),
        decreases transactions@.len() - i,
    {
        proof {
            assert(txdv[i as int] == transactions@[i as int].deep_view());
        }
        let tb = Transaction::serialize(&transactions[i]);
        write_bytes(&mut buf, tb.as_slice());
        proof {
            lemma_txs_bytes_concat(txdv.take(i as int), seq![txdv[i as int]]);
            assert(txdv.take(i as int) + seq![txdv[i as int]] =~= txdv.take(i + 1));
            lemma_txs_bytes_singleton(txdv[i as int]);
            assert(buf@ =~= spec_txs_bytes(txdv.take(i + 1)));
        }
        i = i + 1;
    }
    proof {
        assert(txdv.take(transactions@.len() as int) =~= txdv);
    }
    buf
}

/// Writes the self-describing receipt region for an owned list: the other
/// unit of the block pipeline's work, with its own private output buffer.
fn serialize_rcp_region(receipts: Vec<Receipt>) -> (r: Vec<u8>)
    requires
        forall|i: int|
            0 <= i < receipts.deep_view().len() ==> Receipt::serializable(
                #[trigger] receipts.deep_view()[i],
            ),
    ensures
        r@ == spec_rcps_bytes(receipts.deep_view()),
{
    let ghost rcdv = receipts.deep_view();
    let mut buf: Vec<u8> = Vec::new();
    let mut i: usize = 0;
    while i < receipts.len()
        invariant
            rcdv == receipts.deep_view(),
            rcdv.len() == receipts@.len(),
            forall|j: int| 0 <= j < rcdv.len() ==> Receipt::serializable(#[trigger] rcdv[j]),
            i <= receipts@.len(),
            buf@ == spec_rcps_bytes(rcdv.take(i as int)),
        decreases receipts@.len() - i,
    {
        proof {
            assert(rcdv[i as int] == receipts@[i as int].deep_view());
        }
        let rb = Receipt::serialize(&receipts[i]);
        write_bytes(&mut buf, rb.as_slice());
        proof {
            lemma_rcps_bytes_concat(rcdv.take(i as int), seq![rcdv[i as int]]);
            assert(rcdv.take(i as int) + seq![rcdv[i as int]] =~= rcdv.take(i + 1));
            lemma_rcps_bytes_singleton(rcdv[i as int]);
            assert(buf@ =~= spec_rcps_bytes(rcdv.take(i + 1)));
        }
        i = i + 1;
    }
    proof {
        assert(rcdv.take(receipts@.len() as int) =~= rcdv);
    }
    buf
}

/// An owned copy of a transaction list with the same logical value, handed
/// to a concurrent unit of work in place of shared borrows.
fn clone_transactions(v: &Vec<Transaction>) -> (r: Vec<Transaction>)
    ensures
        r.deep_view() == v.deep_view(),
{
    let mut r: Vec<Transaction> = Vec::new();
    let mut i: usize = 0;
    while i < v.len()
        invariant
            i <= v@.len(),
            r.deep_view() == v.deep_view().take(i as int),
        decreases v@.len() - i,
    {
        let t = &v[i];
        let c = Transaction {
            from_address: t.from_address,
            to_address: t.to_address,
            value: t.value,
            tip: t.tip,
            gas_limit: t.gas_limit,
            gas_price: t.gas_price,
            data: vstd::slice::slice_to_vec(t.data.as_slice()),
            n_txs_on_chain_from_address: t.n_txs_on_chain_from_address,
            hash: t.hash,
            signature: t.signature,
        };
        let ghost old_r = r.deep_view();
        proof {
            assert(c.deep_view() =~= v.deep_view()[i as int]);
        }
        r.push(c);
        proof {
            assert(r.deep_view() =~= old_r + seq![c.deep_view()]);
            assert(old_r + seq![c.deep_view()] =~= v.deep_view().take(i + 1));
        }
        i = i + 1;
    }
    proof {
        assert(v.deep_view().take(v@.len() as int) =~= v.deep_view());
    }
    r
}

/// An owned copy of an event list with the same logical value.
fn clone_events(v: &Vec<Event>) -> (r: Vec<Event>)
    ensures
        r.deep_view() == v.deep_view(),
{
    let mut r: Vec<Event> = Vec::new();
    let mut i: usize = 0;
    while i < v.len()
        invariant
            i <= v@.len(),
            r.deep_view() == v.deep_view().take(i as int),
        decreases v@.len() - i,
    {
        let e = &v[i];
        let c = Event {
            topic: vstd::slice::slice_to_vec(e.topic.as_slice()),
            value: vstd::slice::slice_to_vec(e.value.as_slice()),
        };
        let ghost old_r = r.deep_view();
        proof {
            assert(c.deep_view() =~= v.deep_view()[i as int]);
        }
        r.push(c);
        proof {
            assert(r.deep_view() =~= old_r + seq![c.deep_view()]);
            assert(old_r + seq![c.deep_view()] =~= v.deep_view().take(i + 1));
        }
        i = i + 1;
    }
    proof {
        assert(v.deep_view().take(v@.len() as int) =~= v.deep_view());
    }
    r
}

/// An owned copy of a receipt list with the same logical value, handed to a
/// concurrent unit of work in place of shared borrows.
fn clone_receipts(v: &Vec<Receipt>) -> (r: Vec<Receipt>)
    ensures
        r.deep_view() == v.deep_view(),
{
    let mut r: Vec<Receipt> = Vec::new();
    let mut i: usize = 0;
    while i < v.len()
        invariant
            i <= v@.len(),
            r.deep_view() == v.deep_view().take(i as int),
        decreases v@.len() - i,
    {
        let rc = &v[i];
        let c = Receipt {
            status_code: rc.status_code,
            gas_consumed: rc.gas_consumed,
            return_value: vstd::slice::slice_to_vec(rc.return_value.as_slice()),
            events: clone_events(&rc.events),
        };
        let ghost old_r = r.deep_view();
        proof {
            assert(c.deep_view() =~= v.deep_view()[i as int]);
        }
        r.push(c);
        proof {
            assert(r.deep_view() =~= old_r + seq![c.deep_view()]);
            assert(old_r + seq![c.deep_view()] =~= v.deep_view().take(i + 1));
        }
        i = i + 1;
    }
    proof {
        assert(v.deep_view().take(v@.len() as int) =~= v.deep_view());
    }
    r
}

impl Serializable for Block {
    open spec fn serializable(v: SpecBlock) -> bool {
        &&& BlockHeader::serializable(v.header)
        &&& spec_txs_bytes(v.transactions).len() <= u32::MAX
        &&& spec_rcps_bytes(v.receipts).len() <= u32::MAX
        &&& forall|i: int|
            0 <= i < v.transactions.len() ==> Transaction::serializable(
                #[trigger] v.transactions[i],
            )
        &&& forall|i: int|
            0 <= i < v.receipts.len() ==> Receipt::serializable(#[trigger] v.receipts[i])
    }

    open spec fn spec_serialize(v: SpecBlock) -> Seq<u8> {
        BlockHeader::spec_serialize(v.header) + spec_u32_to_le_bytes(
            spec_txs_bytes(v.transactions).len() as u32,
        ) + spec_u32_to_le_bytes(spec_rcps_bytes(v.receipts).len() as u32) + spec_txs_bytes(
            v.transactions,
        ) + spec_rcps_bytes(v.receipts)
    }

    fn serialize(msg: &Block) -> (r: Vec<u8>) {
        let ghost txdv = msg.deep_view().transactions;
        let ghost rcdv = msg.deep_view().receipts;
        let header_bytes = BlockHeader::serialize(&msg.header);
        // Fork two independent units of work, one per list. Each owns a copy
        // of its input and writes a private buffer, so the assembled bytes
        // are a function of the lists alone, never of scheduling.
        let txs_for_worker = clone_transactions(&msg.transactions);
        let rcs_for_worker = clone_receipts(&msg.receipts);
        let tx_handle = thread::spawn(move || -> (buf: Vec<u8>)
            ensures
                buf@ == spec_txs_bytes(txdv),
            {
                serialize_tx_region(txs_for_worker)
            });
        let rc_handle = thread::spawn(move || -> (buf: Vec<u8>)
            ensures
                buf@ == spec_rcps_bytes(rcdv),
            {
                serialize_rcp_region(rcs_for_worker)
            });
        // Join both units; if one could not be joined, do its work in place.
        let tx_buf = match tx_handle.join() {
            Ok(buf) => buf,
            Err(_) => serialize_tx_region(clone_transactions(&msg.transactions)),
        };
        let rc_buf = match rc_handle.join() {
            Ok(buf) => buf,
            Err(_) => serialize_rcp_region(clone_receipts(&msg.receipts)),
        };
        let mut r: Vec<u8> = Vec::new();
        write_bytes(&mut r, header_bytes.as_slice());
        write_u32(&mut r, tx_buf.len() as u32);
        write_u32(&mut r, rc_buf.len() as u32);
        write_bytes(&mut r, tx_buf.as_slice());
        write_bytes(&mut r, rc_buf.as_slice());
        proof {
            assert(r@ =~= Self::spec_serialize(msg.deep_view()));
        }
        r
    }
}


/// Scans one self-describing transaction region, owned by this unit of
/// work, into an ordered list; fails fast with `IncorrectLength` the moment
/// a declared item size exceeds the bytes remaining.
fn deserialize_tx_region(region: Vec<u8>) -> (r: Result<Vec<Transaction>, Error>)
    ensures
        match r {
            Ok(v) => spec_parse_txs(region@) == Ok::<Seq<SpecTransaction>, ErrorKind>(
                v.deep_view(),
            ),
            Err(e) => spec_parse_txs(region@) == Err::<Seq<SpecTransaction>, ErrorKind>(e@),
        },
{
    let rs = region.as_slice();
    let ghost gtx = rs@;
    let mut transactions: Vec<Transaction> = Vec::new();
    let mut pos: usize = 0;
    proof {
        assert(gtx.skip(0) =~= gtx);
        if spec_parse_txs(gtx) is Ok {
            let rest = spec_parse_txs(gtx)->Ok_0;
            assert(transactions.deep_view() + rest =~= rest);
        }
    }
    proof {
        assert(gtx.len() == rs.len());
    }
    while pos < rs.len()
        invariant
            gtx == rs@,
            gtx == region@,
            pos <= gtx.len(),
            gtx.len() <= usize::MAX,
            match spec_parse_txs(gtx.skip(pos as int)) {
                Ok(rest) => spec_parse_txs(gtx) == Ok::<Seq<SpecTransaction>, ErrorKind>(
                    transactions.deep_view() + rest,
                ),
                Err(k) => spec_parse_txs(gtx) == Err::<Seq<SpecTransaction>, ErrorKind>(k),
            },
        decreases gtx.len() - pos,
    {
        let remaining = rs.len() - pos;
        proof {
            assert(gtx.skip(pos as int).len() == remaining);
        }
        if remaining < 204 {
            return Err(Error::new(ErrorKind::IncorrectLength));
        }
        let data_size = read_u32(rs, pos + 200);
        proof {
            assert(gtx.skip(pos as int).subrange(200, 204) =~= gtx.subrange(pos + 200, pos + 204));
        }
        let item_size64: u64 = 204 + data_size as u64;
        if item_size64 > remaining as u64 {
            return Err(Error::new(ErrorKind::IncorrectLength));
        }
        let item_size = item_size64 as usize;
        let item = vstd::slice::slice_subrange(rs, pos, pos + item_size);
        proof {
            assert(item@ =~= gtx.skip(pos as int).take(item_size as int));
        }
        let t = match Transaction::deserialize(item) {
            Ok(t) => t,
            Err(err) => {
                return Err(err);
            },
        };
        let ghost old_txs = transactions.deep_view();
        transactions.push(t);
        pos = pos + item_size;
        proof {
            assert(transactions.deep_view() =~= old_txs + seq![t.deep_view()]);
            assert(gtx.skip(pos - item_size).skip(item_size as int) =~= gtx.skip(pos as int));
            assert(old_txs + (seq![t.deep_view()] + spec_parse_txs(gtx.skip(pos as int))->Ok_0)
                =~= (old_txs + seq![t.deep_view()]) + spec_parse_txs(gtx.skip(pos as int))->Ok_0);
        }
    }
    proof {
        assert(gtx.skip(pos as int) =~= Seq::<u8>::empty());
        assert(transactions.deep_view() + Seq::<SpecTransaction>::empty()
            =~= transactions.deep_view());
    }
    Ok(transactions)
}

/// Scans one self-describing receipt region, owned by this unit of work,
/// into an ordered list; fails fast with `IncorrectLength` the moment a
/// declared item size exceeds the bytes remaining.
fn deserialize_rcp_region(region: Vec<u8>) -> (r: Result<Vec<Receipt>, Error>)
    ensures
        match r {
            Ok(v) => spec_parse_rcps(region@) == Ok::<Seq<SpecReceipt>, ErrorKind>(v.deep_view()),
            Err(e) => spec_parse_rcps(region@) == Err::<Seq<SpecReceipt>, ErrorKind>(e@),
        },
{
    let rs = region.as_slice();
    let ghost grc = rs@;
    let mut receipts: Vec<Receipt> = Vec::new();
    let mut pos: usize = 0;
    proof {
        assert(grc.skip(0) =~= grc);
        if spec_parse_rcps(grc) is Ok {
            let rest = spec_parse_rcps(grc)->Ok_0;
            assert(receipts.deep_view() + rest =~= rest);
        }
    }
    proof {
        assert(grc.len() == rs.len());
    }
    while pos < rs.len()
        invariant
            grc == rs@,
            grc == region@,
            pos <= grc.len(),
            grc.len() <= usize::MAX,
            match spec_parse_rcps(grc.skip(pos as int)) {
                Ok(rest) => spec_parse_rcps(grc) == Ok::<Seq<SpecReceipt>, ErrorKind>(
                    receipts.deep_view() + rest,
                ),
                Err(k) => spec_parse_rcps(grc) == Err::<Seq<SpecReceipt>, ErrorKind>(k),
            },
        decreases grc.len() - pos,
    {
        let remaining = rs.len() - pos;
        proof {
            assert(grc.skip(pos as int).len() == remaining);
        }
        if remaining < 17 {
            return Err(Error::new(ErrorKind::IncorrectLength));
        }
        let rv_size = read_u32(rs, pos + 9);
        let ev_size = read_u32(rs, pos + 13);
        proof {
            assert(grc.skip(pos as int).subrange(9, 13) =~= grc.subrange(pos + 9, pos + 13));
            assert(grc.skip(pos as int).subrange(13, 17) =~= grc.subrange(pos + 13, pos + 17));
        }
        let item_size64: u64 = 17 + rv_size as u64 + ev_size as u64;
        if item_size64 > remaining as u64 {
            return Err(Error::new(ErrorKind::IncorrectLength));
        }
        let item_size = item_size64 as usize;
        let item = vstd::slice::slice_subrange(rs, pos, pos + item_size);
        proof {
            assert(item@ =~= grc.skip(pos as int).take(item_size as int));
        }
        let rc = match Receipt::deserialize(item) {
            Ok(rc) => rc,
            Err(err) => {
                return Err(err);
            },
        };
        let ghost old_rcs = receipts.deep_view();
        receipts.push(rc);
        pos = pos + item_size;
        proof {
            assert(receipts.deep_view() =~= old_rcs + seq![rc.deep_view()]);
            assert(grc.skip(pos - item_size).skip(item_size as int) =~= grc.skip(pos as int));
            assert(old_rcs + (seq![rc.deep_view()] + spec_parse_rcps(grc.skip(pos as int))->Ok_0)
                =~= (old_rcs + seq![rc.deep_view()]) + spec_parse_rcps(grc.skip(pos as int))->Ok_0);
        }
    }
    proof {
        assert(grc.skip(pos as int) =~= Seq::<u8>::empty());
        assert(receipts.deep_view() + Seq::<SpecReceipt>::empty() =~= receipts.deep_view());
    }
    Ok(receipts)
}

impl Deserializable<Block> for Block {
    proof fn lemma_roundtrip(v: SpecBlock) {
        lemma_block_roundtrip(v);
    }

    open spec fn spec_deserialize(buf: Seq<u8>) -> Result<SpecBlock, ErrorKind> {
        match BlockHeader::spec_deserialize(buf) {
            Err(k) => Err(k),
            Ok(h) => {
                if buf.len() < 284 {
                    Err(ErrorKind::IncorrectLength)
                } else {
                    let tx_size = le_u32_at(buf, 276) as int;
                    let rc_size = le_u32_at(buf, 280) as int;
                    if buf.len() < 284 + tx_size + rc_size {
                        Err(ErrorKind::IncorrectLength)
                    } else {
                        // When both regions are malformed, the
                        // transaction-region error is the one surfaced.
                        match spec_parse_txs(buf.subrange(284, 284 + tx_size)) {
                            Err(k) => Err(k),
                            Ok(ts) => match spec_parse_rcps(
                                buf.subrange(284 + tx_size, 284 + tx_size + rc_size),
                            ) {
                                Err(k) => Err(k),
                                Ok(rs) => Ok(
                                    SpecBlock { header: h, transactions: ts, receipts: rs },
                                ),
                            },
                        }
                    }
                }
            },
        }
    }

    fn deserialize(buf: &[u8]) -> (r: Result<Block, Error>) {
        let header = match BlockHeader::deserialize(buf) {
            Ok(h) => h,
            Err(e) => {
                return Err(e);
            },
        };
        if buf.len() < 284 {
            return Err(Error::new(ErrorKind::IncorrectLength));
        }
        let tx_size = read_u32(buf, 276) as usize;
        let rc_size = read_u32(buf, 280) as usize;
        if tx_size as u64 + rc_size as u64 > (buf.len() - 284) as u64 {
            return Err(Error::new(ErrorKind::IncorrectLength));
        }
        let tx_region = vstd::slice::slice_subrange(buf, 284, 284 + tx_size);
        let rc_region = vstd::slice::slice_subrange(buf, 284 + tx_size, 284 + tx_size + rc_size);
        let ghost gtx = tx_region@;
        let ghost grc = rc_region@;
        proof {
            assert(gtx =~= buf@.subrange(284, 284 + tx_size as int));
            assert(grc =~= buf@.subrange(284 + tx_size as int, 284 + tx_size + rc_size));
        }
        // Fork two independent units of work, each scanning its own copy of
        // its region; join both before assembly.
        let raw_tx = vstd::slice::slice_to_vec(tx_region);
        let raw_rc = vstd::slice::slice_to_vec(rc_region);
        let tx_handle = thread::spawn(move || -> (res: Result<Vec<Transaction>, Error>)
            ensures
                (match res {
                    Ok(v) => spec_parse_txs(gtx) == Ok::<Seq<SpecTransaction>, ErrorKind>(
                        v.deep_view(),
                    ),
                    Err(e) => spec_parse_txs(gtx) == Err::<Seq<SpecTransaction>, ErrorKind>(e@),
                }),
            {
                deserialize_tx_region(raw_tx)
            });
        let rc_handle = thread::spawn(move || -> (res: Result<Vec<Receipt>, Error>)
            ensures
                (match res {
                    Ok(v) => spec_parse_rcps(grc) == Ok::<Seq<SpecReceipt>, ErrorKind>(
                        v.deep_view(),
                    ),
                    Err(e) => spec_parse_rcps(grc) == Err::<Seq<SpecReceipt>, ErrorKind>(e@),
                }),
            {
                deserialize_rcp_region(raw_rc)
            });
        // Join both scans; if one could not be joined, do its work in place.
        let tx_res = match tx_handle.join() {
            Ok(res) => res,
            Err(_) => deserialize_tx_region(vstd::slice::slice_to_vec(tx_region)),
        };
        let rc_res = match rc_handle.join() {
            Ok(res) => res,
            Err(_) => deserialize_rcp_region(vstd::slice::slice_to_vec(rc_region)),
        };
        // When both regions are malformed, the transaction-region error is
        // the one surfaced.
        let transactions = match tx_res {
            Ok(ts) => ts,
            Err(e) => {
                return Err(e);
            },
        };
        let receipts = match rc_res {
            Ok(rcps) => rcps,
            Err(e) => {
                return Err(e);
            },
        };
        let ret = Block { header, transactions, receipts };
        proof {
            let m = Self::spec_deserialize(buf@)->Ok_0;
            assert(ret.deep_view() =~= m);
        }
        Ok(ret)
    }
}

/// The length of a block header's encoding is its full fixed region.
pub proof fn lemma_blockheader_encoding_len(v: SpecBlockHeader)
    requires
        BlockHeader::serializable(v),
    ensures
        BlockHeader::spec_serialize(v).len() == 276,
{
    vstd::bytes::lemma_auto_spec_u64_to_from_le_bytes();
    vstd::bytes::lemma_auto_spec_u32_to_from_le_bytes();
    assert(spec_u64_to_le_bytes(v.blockchain_id).len() == 8);
    assert(spec_u64_to_le_bytes(v.block_version_number).len() == 8);
    assert(spec_u32_to_le_bytes(v.timestamp).len() == 4);
}

/// Round trip: decoding the encoding of any well-formed value returns exactly
/// that value.
pub proof fn lemma_blockheader_roundtrip(v: SpecBlockHeader)
    requires
        BlockHeader::serializable(v),
    ensures
        BlockHeader::spec_deserialize(BlockHeader::spec_serialize(v)) == Ok::<
            SpecBlockHeader,
            ErrorKind,
        >(v),
{
    let s = BlockHeader::spec_serialize(v);
    vstd::bytes::lemma_auto_spec_u64_to_from_le_bytes();
    vstd::bytes::lemma_auto_spec_u32_to_from_le_bytes();
    assert(spec_u64_to_le_bytes(v.blockchain_id).len() == 8);
    assert(spec_u64_to_le_bytes(v.block_version_number).len() == 8);
    assert(spec_u32_to_le_bytes(v.timestamp).len() == 4);
    assert(s.subrange(0, 8) =~= spec_u64_to_le_bytes(v.blockchain_id));
    lemma_le_u64_at(s, 0, v.blockchain_id);
    assert(s.subrange(8, 16) =~= spec_u64_to_le_bytes(v.block_version_number));
    lemma_le_u64_at(s, 8, v.block_version_number);
    assert(s.subrange(16, 20) =~= spec_u32_to_le_bytes(v.timestamp));
    lemma_le_u32_at(s, 16, v.timestamp);
    assert(s.subrange(20, 52) =~= v.prev_block_hash);
    assert(s.subrange(52, 84) =~= v.this_block_hash);
    assert(s.subrange(84, 116) =~= v.state_hash);
    assert(s.subrange(116, 148) =~= v.txs_hash);
    assert(s.subrange(148, 180) =~= v.receipts_hash);
    assert(s.subrange(180, 212) =~= v.proposer_public_key);
    assert(s.subrange(212, 276) =~= v.signature);
    assert(BlockHeader::spec_deserialize(s)->Ok_0 =~= v);
}

/// Truncation sensitivity: every strict prefix of an encoding, the empty
/// buffer included, decodes to `IncorrectLength`.
pub proof fn lemma_blockheader_truncation(v: SpecBlockHeader, n: int)
    requires
        BlockHeader::serializable(v),
        0 <= n < BlockHeader::spec_serialize(v).len(),
    ensures
        BlockHeader::spec_deserialize(BlockHeader::spec_serialize(v).take(n)) == Err::<
            SpecBlockHeader,
            ErrorKind,
        >(ErrorKind::IncorrectLength),
{
    lemma_blockheader_encoding_len(v);
}

/// A block header decodes from the first 276 bytes alone: two buffers with
/// equal fixed regions decode to the same header.
pub proof fn lemma_blockheader_deserialize_prefix(s1: Seq<u8>, s2: Seq<u8>)
    requires
        s1.len() >= 276,
        s2.len() >= 276,
        s1.subrange(0, 276) == s2.subrange(0, 276),
    ensures
        BlockHeader::spec_deserialize(s1) == BlockHeader::spec_deserialize(s2),
{
    let p1 = s1.subrange(0, 276);
    assert(s1.subrange(0, 8) =~= p1.subrange(0, 8));
    assert(s2.subrange(0, 8) =~= p1.subrange(0, 8));
    assert(s1.subrange(8, 16) =~= p1.subrange(8, 16));
    assert(s2.subrange(8, 16) =~= p1.subrange(8, 16));
    assert(s1.subrange(16, 20) =~= p1.subrange(16, 20));
    assert(s2.subrange(16, 20) =~= p1.subrange(16, 20));
    assert(s1.subrange(20, 52) =~= p1.subrange(20, 52));
    assert(s2.subrange(20, 52) =~= p1.subrange(20, 52));
    assert(s1.subrange(52, 84) =~= p1.subrange(52, 84));
    assert(s2.subrange(52, 84) =~= p1.subrange(52, 84));
    assert(s1.subrange(84, 116) =~= p1.subrange(84, 116));
    assert(s2.subrange(84, 116) =~= p1.subrange(84, 116));
    assert(s1.subrange(116, 148) =~= p1.subrange(116, 148));
    assert(s2.subrange(116, 148) =~= p1.subrange(116, 148));
    assert(s1.subrange(148, 180) =~= p1.subrange(148, 180));
    assert(s2.subrange(148, 180) =~= p1.subrange(148, 180));
    assert(s1.subrange(180, 212) =~= p1.subrange(180, 212));
    assert(s2.subrange(180, 212) =~= p1.subrange(180, 212));
    assert(s1.subrange(212, 276) =~= p1.subrange(212, 276));
    assert(s2.subrange(212, 276) =~= p1.subrange(212, 276));
    assert(BlockHeader::spec_deserialize(s1)->Ok_0 =~= BlockHeader::spec_deserialize(s2)->Ok_0);
}

/// Parsing a self-describing transaction region inverts writing one.
pub proof fn lemma_parse_txs_roundtrip(ts: Seq<SpecTransaction>)
    requires
        forall|i: int| 0 <= i < ts.len() ==> Transaction::serializable(#[trigger] ts[i]),
    ensures
        spec_parse_txs(spec_txs_bytes(ts)) == Ok::<Seq<SpecTransaction>, ErrorKind>(ts),
    decreases ts.len(),
{
    if ts.len() == 0 {
        assert(Seq::<SpecTransaction>::empty() =~= ts);
    } else {
        let t0 = ts.first();
        let rest = ts.drop_first();
        let b0 = Transaction::spec_serialize(t0);
        let rb = spec_txs_bytes(rest);
        let region = spec_txs_bytes(ts);
        assert(ts[0] == t0);
        assert(region == b0 + rb);
        vstd::bytes::lemma_auto_spec_u64_to_from_le_bytes();
        vstd::bytes::lemma_auto_spec_u32_to_from_le_bytes();
        assert(spec_u64_to_le_bytes(t0.value).len() == 8);
        assert(spec_u64_to_le_bytes(t0.tip).len() == 8);
        assert(spec_u64_to_le_bytes(t0.gas_limit).len() == 8);
        assert(spec_u64_to_le_bytes(t0.gas_price).len() == 8);
        assert(spec_u64_to_le_bytes(t0.n_txs_on_chain_from_address).len() == 8);
        assert(spec_u32_to_le_bytes(t0.data.len() as u32).len() == 4);
        lemma_transaction_encoding_len(t0);
        assert(region.subrange(200, 204) =~= spec_u32_to_le_bytes(t0.data.len() as u32));
        lemma_le_u32_at(region, 200, t0.data.len() as u32);
        let item_size = 204 + t0.data.len() as int;
        assert(item_size == b0.len());
        assert(region.take(item_size) =~= b0);
        lemma_transaction_roundtrip(t0);
        assert(region.skip(item_size) =~= rb);
        assert(forall|i: int|
            0 <= i < rest.len() ==> Transaction::serializable(#[trigger] rest[i]));
        lemma_parse_txs_roundtrip(rest);
        assert(seq![t0] + rest =~= ts);
    }
}

/// Parsing a self-describing receipt region inverts writing one.
pub proof fn lemma_parse_rcps_roundtrip(rs: Seq<SpecReceipt>)
    requires
        forall|i: int| 0 <= i < rs.len() ==> Receipt::serializable(#[trigger] rs[i]),
    ensures
        spec_parse_rcps(spec_rcps_bytes(rs)) == Ok::<Seq<SpecReceipt>, ErrorKind>(rs),
    decreases rs.len(),
{
    if rs.len() == 0 {
        assert(Seq::<SpecReceipt>::empty() =~= rs);
    } else {
        let r0 = rs.first();
        let rest = rs.drop_first();
        let b0 = Receipt::spec_serialize(r0);
        let rb = spec_rcps_bytes(rest);
        let region = spec_rcps_bytes(rs);
        assert(rs[0] == r0);
        assert(region == b0 + rb);
        let eb = crate::transaction::spec_events_bytes(r0.events);
        vstd::bytes::lemma_auto_spec_u64_to_from_le_bytes();
        vstd::bytes::lemma_auto_spec_u32_to_from_le_bytes();
        assert(spec_u64_to_le_bytes(r0.gas_consumed).len() == 8);
        assert(spec_u32_to_le_bytes(r0.return_value.len() as u32).len() == 4);
        assert(spec_u32_to_le_bytes(eb.len() as u32).len() == 4);
        lemma_receipt_encoding_len(r0);
        assert(region.subrange(9, 13) =~= spec_u32_to_le_bytes(r0.return_value.len() as u32));
        lemma_le_u32_at(region, 9, r0.return_value.len() as u32);
        assert(region.subrange(13, 17) =~= spec_u32_to_le_bytes(eb.len() as u32));
        lemma_le_u32_at(region, 13, eb.len() as u32);
        let item_size = 17 + r0.return_value.len() as int + eb.len() as int;
        assert(item_size == b0.len());
        assert(region.take(item_size) =~= b0);
        lemma_receipt_roundtrip(r0);
        assert(region.skip(item_size) =~= rb);
        assert(forall|i: int| 0 <= i < rest.len() ==> Receipt::serializable(#[trigger] rest[i]));
        lemma_parse_rcps_roundtrip(rest);
        assert(seq![r0] + rest =~= rs);
    }
}

/// Round trip: decoding the encoding of any well-formed block returns
/// exactly that block, empty lists included.
pub proof fn lemma_block_roundtrip(v: SpecBlock)
    requires
        Block::serializable(v),
    ensures
        Block::spec_deserialize(Block::spec_serialize(v)) == Ok::<SpecBlock, ErrorKind>(v),
{
    let s = Block::spec_serialize(v);
    let hb = BlockHeader::spec_serialize(v.header);
    let tb = spec_txs_bytes(v.transactions);
    let rb = spec_rcps_bytes(v.receipts);
    lemma_blockheader_encoding_len(v.header);
    vstd::bytes::lemma_auto_spec_u32_to_from_le_bytes();
    assert(spec_u32_to_le_bytes(tb.len() as u32).len() == 4);
    assert(spec_u32_to_le_bytes(rb.len() as u32).len() == 4);
    assert(s.subrange(0, 276) =~= hb);
    lemma_blockheader_roundtrip(v.header);
    assert(hb.subrange(0, 276) =~= hb);
    lemma_blockheader_deserialize_prefix(s, hb);
    assert(s.subrange(276, 280) =~= spec_u32_to_le_bytes(tb.len() as u32));
    lemma_le_u32_at(s, 276, tb.len() as u32);
    assert(s.subrange(280, 284) =~= spec_u32_to_le_bytes(rb.len() as u32));
    lemma_le_u32_at(s, 280, rb.len() as u32);
    assert(s.subrange(284, 284 + tb.len() as int) =~= tb);
    assert(s.subrange(284 + tb.len() as int, 284 + tb.len() + rb.len() as int) =~= rb);
    lemma_parse_txs_roundtrip(v.transactions);
    lemma_parse_rcps_roundtrip(v.receipts);
    assert(Block::spec_deserialize(s)->Ok_0 =~= v);
}

/// Truncation sensitivity: every strict prefix of a block's encoding, the
/// empty buffer included, decodes to `IncorrectLength`.
pub proof fn lemma_block_truncation(v: SpecBlock, n: int)
    requires
        Block::serializable(v),
        0 <= n < Block::spec_serialize(v).len(),
    ensures
        Block::spec_deserialize(Block::spec_serialize(v).take(n)) == Err::<SpecBlock, ErrorKind>(
            ErrorKind::IncorrectLength,
        ),
{
    let s = Block::spec_serialize(v);
    let hb = BlockHeader::spec_serialize(v.header);
    let tb = spec_txs_bytes(v.transactions);
    let rb = spec_rcps_bytes(v.receipts);
    lemma_blockheader_encoding_len(v.header);
    vstd::bytes::lemma_auto_spec_u32_to_from_le_bytes();
    assert(spec_u32_to_le_bytes(tb.len() as u32).len() == 4);
    assert(spec_u32_to_le_bytes(rb.len() as u32).len() == 4);
    let p = s.take(n);
    if n >= 284 {
        assert(p.subrange(276, 280) =~= spec_u32_to_le_bytes(tb.len() as u32));
        lemma_le_u32_at(p, 276, tb.len() as u32);
        assert(p.subrange(280, 284) =~= spec_u32_to_le_bytes(rb.len() as u32));
        lemma_le_u32_at(p, 280, rb.len() as u32);
    }
}

/// Determinism: a block's encoding is a function of its logical value alone.
/// Every run of `serialize`, however its lists were built, meets the single
/// contract `r@ == spec_serialize(v)`, so any two byte sequences that both
/// satisfy it for the same logical value are identical.
pub proof fn lemma_block_serialize_deterministic(v: SpecBlock, r1: Seq<u8>, r2: Seq<u8>)
    requires
        r1 == Block::spec_serialize(v),
        r2 == Block::spec_serialize(v),
    ensures
        r1 == r2,
{
}

} // verus!
