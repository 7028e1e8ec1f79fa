//! Structures carrying evidence for membership proofs: [`MerkleProof`] for
//! leaves under a Merkle root, and [`StateProofs`] for key-value pairs
//! against a trie root.

use vstd::prelude::*;
use vstd::bytes::spec_u32_to_le_bytes;
use crate::crypto;
use crate::error::{Error, ErrorKind};
use crate::encodings::{
    le_u32_at, lemma_le_u32_at, read_arr32, read_bytes, read_u32, write_bytes, write_u32,
};
use crate::{Deserializable, Serializable};

verus! {

/// Byte length of the fixed region of a [`MerkleProof`] encoding.
pub const MERKLEPROOF_BASESIZE: usize = 48;

/// Byte length of the fixed region of a [`StateProofs`] encoding.
pub const STATEPROOFS_BASESIZE: usize = 40;

/// Evidence that specific leaves belong to a Merkle tree identified by a
/// root hash, without the full leaf set. `leaf_indices` and `leaf_hashes`
/// have matching cardinality by convention; the codec carries both without
/// enforcing it.
#[derive(Debug, Clone, PartialEq, Eq)]
pub struct MerkleProof {
    pub root_hash: crypto::Sha256Hash,
    pub total_leaves_count: usize,
    pub leaf_indices: Vec<usize>,
    pub leaf_hashes: Vec<crypto::Sha256Hash>,
    pub proof: Vec<u8>,
}

/// A sequence of trie nodes traversed in pre-order, as opaque byte blobs.
pub type StateProof = Vec<Vec<u8>>;

/// A key and its optionally present value; an absent value is not an absent
/// key.
pub type StateProofItem = (Vec<u8>, Option<Vec<u8>>);

/// Evidence that specific key-value pairs are, or are not, present in a trie
/// identified by a root hash.
#[derive(Debug, Clone, PartialEq, Eq)]
pub struct StateProofs {
    pub root_hash: crypto::Sha256Hash,
    pub items: Vec<StateProofItem>,
    pub proof: StateProof,
}

/// Mathematical model of a [`MerkleProof`].
#[verifier::ext_equal]
pub struct SpecMerkleProof {
    pub root_hash: Seq<u8>,
    pub total_leaves_count: usize,
    pub leaf_indices: Seq<usize>,
    pub leaf_hashes: Seq<Seq<u8>>,
    pub proof: Seq<u8>,
}

/// Mathematical model of a [`StateProofs`].
#[verifier::ext_equal]
pub struct SpecStateProofs {
    pub root_hash: Seq<u8>,
    pub items: Seq<(Seq<u8>, Option<Seq<u8>>)>,
    pub proof: Seq<Seq<u8>>,
}

impl DeepView for MerkleProof {
    type V = SpecMerkleProof;

    open spec fn deep_view(&self) -> SpecMerkleProof {
        SpecMerkleProof {
            root_hash: self.root_hash@,
            total_leaves_count: self.total_leaves_count,
            leaf_indices: self.leaf_indices.deep_view(),
            leaf_hashes: self.leaf_hashes.deep_view(),
            proof: self.proof@,
        }
    }
}

impl DeepView for StateProofs {
    type V = SpecStateProofs;

    open spec fn deep_view(&self) -> SpecStateProofs {
        SpecStateProofs {
            root_hash: self.root_hash@,
            items: self.items.deep_view(),
            proof: self.proof.deep_view(),
        }
    }
}

/// The concatenation of the 32-bit encodings of a sequence of leaf indices.
pub open spec fn spec_indices_bytes(ixs: Seq<usize>) -> Seq<u8>
    decreases ixs.len(),
{
    if ixs.len() == 0 {
        Seq::empty()
    } else {
        spec_u32_to_le_bytes(ixs.first() as u32) + spec_indices_bytes(ixs.drop_first())
    }
}

/// The concatenation of a sequence of 32-byte leaf hashes.
pub open spec fn spec_hashes_bytes(hs: Seq<Seq<u8>>) -> Seq<u8>
    decreases hs.len(),
{
    if hs.len() == 0 {
        Seq::empty()
    } else {
        hs.first() + spec_hashes_bytes(hs.drop_first())
    }
}

/// The leaf indices decoded from a region of 32-bit entries; a region length
/// that is not a multiple of four is `IncorrectLength`.
pub open spec fn spec_parse_indices(region: Seq<u8>) -> Result<Seq<usize>, ErrorKind>
    decreases region.len(),
{
    if region.len() == 0 {
        Ok(Seq::empty())
    } else if region.len() < 4 {
        Err(ErrorKind::IncorrectLength)
    } else {
        match spec_parse_indices(region.skip(4)) {
            Ok(rest) => Ok(seq![le_u32_at(region, 0) as usize] + rest),
            Err(k) => Err(k),
        }
    }
}

/// The leaf hashes decoded from a region of 32-byte entries; a region length
/// that is not a multiple of 32 is `IncorrectLength`.
pub open spec fn spec_parse_hashes(region: Seq<u8>) -> Result<Seq<Seq<u8>>, ErrorKind>
    decreases region.len(),
{
    if region.len() == 0 {
        Ok(Seq::empty())
    } else if region.len() < 32 {
        Err(ErrorKind::IncorrectLength)
    } else {
        match spec_parse_hashes(region.skip(32)) {
            Ok(rest) => Ok(seq![region.take(32)] + rest),
            Err(k) => Err(k),
        }
    }
}

/// Index-region bytes distribute over concatenation, and hold four bytes per
/// index.
pub proof fn lemma_indices_bytes_concat(a: Seq<usize>, b: Seq<usize>)
    ensures
        spec_indices_bytes(a + b) == spec_indices_bytes(a) + spec_indices_bytes(b),
        spec_indices_bytes(a).len() == 4 * a.len(),
    decreases a.len(),
{
    vstd::bytes::lemma_auto_spec_u32_to_from_le_bytes();
    if a.len() == 0 {
        assert(a + b =~= b);
        assert(spec_indices_bytes(a) + spec_indices_bytes(b) =~= spec_indices_bytes(b));
    } else {
        assert(spec_u32_to_le_bytes(a.first() as u32).len() == 4);
        assert((a + b).first() == a.first());
        assert((a + b).drop_first() =~= a.drop_first() + b);
        lemma_indices_bytes_concat(a.drop_first(), b);
        assert(spec_indices_bytes(a + b) =~= spec_indices_bytes(a) + spec_indices_bytes(b));
    }
}

/// Hash-region bytes distribute over concatenation and, when every hash is
/// 32 bytes, hold 32 bytes per hash.
pub proof fn lemma_hashes_bytes_concat(a: Seq<Seq<u8>>, b: Seq<Seq<u8>>)
    requires
        forall|i: int| 0 <= i < a.len() ==> (#[trigger] a[i]).len() == 32,
    ensures
        spec_hashes_bytes(a + b) == spec_hashes_bytes(a) + spec_hashes_bytes(b),
        spec_hashes_bytes(a).len() == 32 * a.len(),
    decreases a.len(),
{
    if a.len() == 0 {
        assert(a + b =~= b);
        assert(spec_hashes_bytes(a) + spec_hashes_bytes(b) =~= spec_hashes_bytes(b));
    } else {
        assert((a + b).first() == a.first());
        assert((a + b).drop_first() =~= a.drop_first() + b);
        assert(forall|i: int|
            0 <= i < a.drop_first().len() ==> (#[trigger] a.drop_first()[i]).len() == 32);
        lemma_hashes_bytes_concat(a.drop_first(), b);
        assert(spec_hashes_bytes(a + b) =~= spec_hashes_bytes(a) + spec_hashes_bytes(b));
    }
}

/// The index-region bytes of a single index are its 32-bit encoding.
pub proof fn lemma_indices_bytes_singleton(x: usize)
    ensures
        spec_indices_bytes(seq![x]) == spec_u32_to_le_bytes(x as u32),
{
    assert(seq![x].drop_first() =~= Seq::<usize>::empty());
    assert(spec_indices_bytes(Seq::<usize>::empty()) == Seq::<u8>::empty());
    assert(spec_indices_bytes(seq![x]) =~= spec_u32_to_le_bytes(x as u32));
}

/// The hash-region bytes of a single hash are that hash.
pub proof fn lemma_hashes_bytes_singleton(h: Seq<u8>)
    ensures
        spec_hashes_bytes(seq![h]) == h,
{
    assert(seq![h].drop_first() =~= Seq::<Seq<u8>>::empty());
    assert(spec_hashes_bytes(Seq::<Seq<u8>>::empty()) == Seq::<u8>::empty());
    assert(spec_hashes_bytes(seq![h]) =~= h);
}

/// Parsing an index region inverts writing one, when every index fits 32
/// bits.
pub proof fn lemma_parse_indices_roundtrip(ixs: Seq<usize>)
    requires
        forall|i: int| 0 <= i < ixs.len() ==> #[trigger] ixs[i] <= u32::MAX,
    ensures
        spec_parse_indices(spec_indices_bytes(ixs)) == Ok::<Seq<usize>, ErrorKind>(ixs),
    decreases ixs.len(),
{
    vstd::bytes::lemma_auto_spec_u32_to_from_le_bytes();
    if ixs.len() == 0 {
        assert(Seq::<usize>::empty() =~= ixs);
    } else {
        let x0 = ixs.first();
        let rest = ixs.drop_first();
        let region = spec_indices_bytes(ixs);
        assert(ixs[0] == x0);
        assert(spec_u32_to_le_bytes(x0 as u32).len() == 4);
        assert(region.subrange(0, 4) =~= spec_u32_to_le_bytes(x0 as u32));
        lemma_le_u32_at(region, 0, x0 as u32);
        assert(region.skip(4) =~= spec_indices_bytes(rest));
        assert(forall|i: int| 0 <= i < rest.len() ==> #[trigger] rest[i] <= u32::MAX);
        lemma_parse_indices_roundtrip(rest);
        assert(seq![x0] + rest =~= ixs);
    }
}

/// Parsing a hash region inverts writing one, when every hash is 32 bytes.
pub proof fn lemma_parse_hashes_roundtrip(hs: Seq<Seq<u8>>)
    requires
        forall|i: int| 0 <= i < hs.len() ==> (#[trigger] hs[i]).len() == 32,
    ensures
        spec_parse_hashes(spec_hashes_bytes(hs)) == Ok::<Seq<Seq<u8>>, ErrorKind>(hs),
    decreases hs.len(),
{
    if hs.len() == 0 {
        assert(Seq::<Seq<u8>>::empty() =~= hs);
    } else {
        let h0 = hs.first();
        let rest = hs.drop_first();
        let region = spec_hashes_bytes(hs);
        assert(hs[0] == h0);
        assert(region.take(32) =~= h0);
        assert(region.skip(32) =~= spec_hashes_bytes(rest));
        assert(forall|i: int| 0 <= i < rest.len() ==> (#[trigger] rest[i]).len() == 32);
        lemma_parse_hashes_roundtrip(rest);
        assert(seq![h0] + rest =~= hs);
    }
}

impl Serializable for MerkleProof {
    open spec fn serializable(v: SpecMerkleProof) -> bool {
        &&& v.root_hash.len() == 32
        &&& v.total_leaves_count <= u32::MAX
        &&& 4 * v.leaf_indices.len() <= u32::MAX
        &&& 32 * v.leaf_hashes.len() <= u32::MAX
        &&& v.proof.len() <= u32::MAX
        &&& forall|i: int| 0 <= i < v.leaf_indices.len() ==> #[trigger] v.leaf_indices[i]
            <= u32::MAX
        &&& forall|i: int| 0 <= i < v.leaf_hashes.len() ==> (#[trigger] v.leaf_hashes[i]).len()
            == 32
    }

    open spec fn spec_serialize(v: SpecMerkleProof) -> Seq<u8> {
        v.root_hash + spec_u32_to_le_bytes(v.total_leaves_count as u32) + spec_u32_to_le_bytes(
            (4 * v.leaf_indices.len()) as u32,
        ) + spec_u32_to_le_bytes((32 * v.leaf_hashes.len()) as u32) + spec_u32_to_le_bytes(
            v.proof.len() as u32,
        ) + spec_indices_bytes(v.leaf_indices) + spec_hashes_bytes(v.leaf_hashes) + v.proof
    }

    fn serialize(msg: &MerkleProof) -> (r: Vec<u8>) {
        let ghost ixdv = msg.deep_view().leaf_indices;
        let ghost hsdv = msg.deep_view().leaf_hashes;
        let mut r: Vec<u8> = Vec::new();
        write_bytes(&mut r, msg.root_hash.as_slice());
        write_u32(&mut r, msg.total_leaves_count as u32);
        proof {
            assert(ixdv =~= msg.leaf_indices@);
        }
        write_u32(&mut r, (msg.leaf_indices.len() as u64 * 4) as u32);
        write_u32(&mut r, (msg.leaf_hashes.len() as u64 * 32) as u32);
        write_u32(&mut r, msg.proof.len() as u32);
        let ghost prefix = r@;
        let mut i: usize = 0;
        while i < msg.leaf_indices.len()
            invariant
                MerkleProof::serializable(msg.deep_view()),
                ixdv == msg.deep_view().leaf_indices,
                ixdv.len() == msg.leaf_indices@.len(),
                i <= msg.leaf_indices@.len(),
                r@ == prefix + spec_indices_bytes(ixdv.take(i as int)),
            decreases msg.leaf_indices@.len() - i,
        {
            proof {
                assert(ixdv[i as int] == msg.leaf_indices@[i as int]);
            }
            write_u32(&mut r, msg.leaf_indices[i] as u32);
            proof {
                lemma_indices_bytes_concat(ixdv.take(i as int), seq![ixdv[i as int]]);
                assert(ixdv.take(i as int) + seq![ixdv[i as int]] =~= ixdv.take(i + 1));
                lemma_indices_bytes_singleton(ixdv[i as int]);
                assert(r@ =~= prefix + spec_indices_bytes(ixdv.take(i + 1)));
            }
            i = i + 1;
        }
        proof {
            assert(ixdv.take(msg.leaf_indices@.len() as int) =~= ixdv);
        }
        let ghost prefix2 = r@;
        let mut i: usize = 0;
        while i < msg.leaf_hashes.len()
            invariant
                MerkleProof::serializable(msg.deep_view()),
                hsdv == msg.deep_view().leaf_hashes,
                hsdv.len() == msg.leaf_hashes@.len(),
                i <= msg.leaf_hashes@.len(),
                r@ == prefix2 + spec_hashes_bytes(hsdv.take(i as int)),
            decreases msg.leaf_hashes@.len() - i,
        {
            proof {
                assert(hsdv[i as int] =~= msg.leaf_hashes@[i as int]@);
            }
            write_bytes(&mut r, msg.leaf_hashes[i].as_slice());
            proof {
                assert(hsdv.take(i as int) + seq![hsdv[i as int]] =~= hsdv.take(i + 1));
                assert(forall|j: int|
                    0 <= j < hsdv.take(i as int).len() ==> (#[trigger] hsdv.take(i as int)[j]).len()
                        == 32);
                lemma_hashes_bytes_concat(hsdv.take(i as int), seq![hsdv[i as int]]);
                lemma_hashes_bytes_singleton(hsdv[i as int]);
                assert(r@ =~= prefix2 + spec_hashes_bytes(hsdv.take(i + 1)));
            }
            i = i + 1;
        }
        proof {
            assert(hsdv.take(msg.leaf_hashes@.len() as int) =~= hsdv);
        }
        write_bytes(&mut r, msg.proof.as_slice());
        proof {
            assert(r@ =~= Self::spec_serialize(msg.deep_view()));
        }
        r
    }
}

impl Deserializable<MerkleProof> for MerkleProof {
    open spec fn spec_deserialize(buf: Seq<u8>) -> Result<SpecMerkleProof, ErrorKind> {
        if buf.len() < 48 {
            Err(ErrorKind::IncorrectLength)
        } else {
            let indices_size = le_u32_at(buf, 36) as int;
            let hashes_size = le_u32_at(buf, 40) as int;
            let proof_size = le_u32_at(buf, 44) as int;
            if buf.len() < 48 + indices_size + hashes_size + proof_size {
                Err(ErrorKind::IncorrectLength)
            } else {
                match spec_parse_indices(buf.subrange(48, 48 + indices_size)) {
                    Err(k) => Err(k),
                    Ok(ixs) => match spec_parse_hashes(
                        buf.subrange(48 + indices_size, 48 + indices_size + hashes_size),
                    ) {
                        Err(k) => Err(k),
                        Ok(hs) => Ok(
                            SpecMerkleProof {
                                root_hash: buf.subrange(0, 32),
                                total_leaves_count: le_u32_at(buf, 32) as usize,
                                leaf_indices: ixs,
                                leaf_hashes: hs,
                                proof: buf.subrange(
                                    48 + indices_size + hashes_size,
                                    48 + indices_size + hashes_size + proof_size,
                                ),
                            },
                        ),
                    },
                }
            }
        }
    }

    proof fn lemma_roundtrip(v: SpecMerkleProof) {
        lemma_merkleproof_roundtrip(v);
    }

    fn deserialize(buf: &[u8]) -> (r: Result<MerkleProof, Error>) {
        if buf.len() < 48 {
            return Err(Error::new(ErrorKind::IncorrectLength));
        }
        let total_leaves_count = read_u32(buf, 32) as usize;
        let indices_size = read_u32(buf, 36) as usize;
        let hashes_size = read_u32(buf, 40) as usize;
        let proof_size = read_u32(buf, 44) as usize;
        if indices_size as u64 + hashes_size as u64 + proof_size as u64 > (buf.len() - 48) as u64 {
            return Err(Error::new(ErrorKind::IncorrectLength));
        }
        let root_hash = read_arr32(buf, 0);
        let ix_region = vstd::slice::slice_subrange(buf, 48, 48 + indices_size);
        let hs_region = vstd::slice::slice_subrange(
            buf,
            48 + indices_size,
            48 + indices_size + hashes_size,
        );
        let ghost gix = ix_region@;
        let ghost ghs = hs_region@;
        proof {
            assert(gix =~= buf@.subrange(48, 48 + indices_size as int));
            assert(ghs =~= buf@.subrange(
                48 + indices_size as int,
                48 + indices_size + hashes_size as int,
            ));
        }
        let mut leaf_indices: Vec<usize> = Vec::new();
        let mut pos: usize = 0;
        proof {
            assert(gix.skip(0) =~= gix);
            if spec_parse_indices(gix) is Ok {
                let rest = spec_parse_indices(gix)->Ok_0;
                assert(leaf_indices.deep_view() + rest =~= rest);
            }
        }
        while pos < ix_region.len()
            invariant
                gix == ix_region@,
                pos <= gix.len(),
                gix.len() <= usize::MAX,
                spec_parse_indices(gix) matches Err(k) ==> Self::spec_deserialize(buf@) == Err::<
                    SpecMerkleProof,
                    ErrorKind,
                >(k),
                match spec_parse_indices(gix.skip(pos as int)) {
                    Ok(rest) => spec_parse_indices(gix) == Ok::<Seq<usize>, ErrorKind>(
                        leaf_indices.deep_view() + rest,
                    ),
                    Err(k) => spec_parse_indices(gix) == Err::<Seq<usize>, ErrorKind>(k),
                },
            decreases gix.len() - pos,
        {
            let remaining = ix_region.len() - pos;
            proof {
                assert(gix.skip(pos as int).len() == remaining);
            }
            if remaining < 4 {
                proof {
                    assert(spec_parse_indices(gix) == Err::<Seq<usize>, ErrorKind>(
                        ErrorKind::IncorrectLength,
                    ));
                }
                return Err(Error::new(ErrorKind::IncorrectLength));
            }
            let ix = read_u32(ix_region, pos) as usize;
            let ghost old_ixs = leaf_indices.deep_view();
            leaf_indices.push(ix);
            pos = pos + 4;
            proof {
                assert(gix.skip(pos - 4).subrange(0, 4) =~= gix.subrange(pos - 4, pos as int));
                assert(leaf_indices.deep_view() =~= old_ixs + seq![ix]);
                assert(gix.skip(pos - 4).skip(4) =~= gix.skip(pos as int));
                if spec_parse_indices(gix.skip(pos as int)) is Ok {
                    let rest = spec_parse_indices(gix.skip(pos as int))->Ok_0;
                    assert(old_ixs + (seq![ix] + rest) =~= (old_ixs + seq![ix]) + rest);
                }
            }
        }
        proof {
            assert(gix.skip(pos as int) =~= Seq::<u8>::empty());
            assert(leaf_indices.deep_view() + Seq::<usize>::empty() =~= leaf_indices.deep_view());
        }
        let mut leaf_hashes: Vec<crypto::Sha256Hash> = Vec::new();
        let mut pos: usize = 0;
        proof {
            assert(ghs.skip(0) =~= ghs);
            if spec_parse_hashes(ghs) is Ok {
                let rest = spec_parse_hashes(ghs)->Ok_0;
                assert(leaf_hashes.deep_view() + rest =~= rest);
            }
        }
        while pos < hs_region.len()
            invariant
                ghs == hs_region@,
                pos <= ghs.len(),
                ghs.len() <= usize::MAX,
                spec_parse_hashes(ghs) matches Err(k) ==> Self::spec_deserialize(buf@) == Err::<
                    SpecMerkleProof,
                    ErrorKind,
                >(k),
                match spec_parse_hashes(ghs.skip(pos as int)) {
                    Ok(rest) => spec_parse_hashes(ghs) == Ok::<Seq<Seq<u8>>, ErrorKind>(
                        leaf_hashes.deep_view() + rest,
                    ),
                    Err(k) => spec_parse_hashes(ghs) == Err::<Seq<Seq<u8>>, ErrorKind>(k),
                },
            decreases ghs.len() - pos,
        {
            let remaining = hs_region.len() - pos;
            proof {
                assert(ghs.skip(pos as int).len() == remaining);
            }
            if remaining < 32 {
                proof {
                    assert(spec_parse_hashes(ghs) == Err::<Seq<Seq<u8>>, ErrorKind>(
                        ErrorKind::IncorrectLength,
                    ));
                }
                return Err(Error::new(ErrorKind::IncorrectLength));
            }
            let h = read_arr32(hs_region, pos);
            let ghost old_hs = leaf_hashes.deep_view();
            leaf_hashes.push(h);
            pos = pos + 32;
            proof {
                assert(h@ =~= ghs.skip(pos - 32).take(32));
                assert(h.deep_view() =~= h@);
                assert(leaf_hashes.deep_view() =~= old_hs + seq![h@]);
                assert(ghs.skip(pos - 32).skip(32) =~= ghs.skip(pos as int));
                if spec_parse_hashes(ghs.skip(pos as int)) is Ok {
                    let rest = spec_parse_hashes(ghs.skip(pos as int))->Ok_0;
                    assert(old_hs + (seq![h@] + rest) =~= (old_hs + seq![h@]) + rest);
                }
            }
        }
        proof {
            assert(ghs.skip(pos as int) =~= Seq::<u8>::empty());
            assert(leaf_hashes.deep_view() + Seq::<Seq<u8>>::empty() =~= leaf_hashes.deep_view());
        }
        let proof_bytes = read_bytes(buf, 48 + indices_size + hashes_size, proof_size);
        let ret = MerkleProof {
            root_hash,
            total_leaves_count,
            leaf_indices,
            leaf_hashes,
            proof: proof_bytes,
        };
        proof {
            let m = Self::spec_deserialize(buf@)->Ok_0;
            assert(ret.deep_view() =~= m);
        }
        Ok(ret)
    }
}

impl Serializable for StateProofs {
    open spec fn serializable(v: SpecStateProofs) -> bool {
        &&& v.root_hash.len() == 32
        &&& <Vec<StateProofItem> as Serializable>::serializable(v.items)
        &&& <Vec<StateProofItem> as Serializable>::spec_serialize(v.items).len() <= u32::MAX
        &&& <StateProof as Serializable>::serializable(v.proof)
        &&& <StateProof as Serializable>::spec_serialize(v.proof).len() <= u32::MAX
    }

    open spec fn spec_serialize(v: SpecStateProofs) -> Seq<u8> {
        v.root_hash + spec_u32_to_le_bytes(
            <Vec<StateProofItem> as Serializable>::spec_serialize(v.items).len() as u32,
        ) + spec_u32_to_le_bytes(
            <StateProof as Serializable>::spec_serialize(v.proof).len() as u32,
        ) + <Vec<StateProofItem> as Serializable>::spec_serialize(v.items)
            + <StateProof as Serializable>::spec_serialize(v.proof)
    }

    fn serialize(msg: &StateProofs) -> (r: Vec<u8>) {
        let items = <Vec<StateProofItem> as Serializable>::serialize(&msg.items);
        let proof_bytes = <StateProof as Serializable>::serialize(&msg.proof);
        let mut r: Vec<u8> = Vec::new();
        write_bytes(&mut r, msg.root_hash.as_slice());
        write_u32(&mut r, items.len() as u32);
        write_u32(&mut r, proof_bytes.len() as u32);
        write_bytes(&mut r, items.as_slice());
        write_bytes(&mut r, proof_bytes.as_slice());
        proof {
            assert(r@ =~= Self::spec_serialize(msg.deep_view()));
        }
        r
    }
}

impl Deserializable<StateProofs> for StateProofs {
    open spec fn spec_deserialize(buf: Seq<u8>) -> Result<SpecStateProofs, ErrorKind> {
        if buf.len() < 40 {
            Err(ErrorKind::IncorrectLength)
        } else {
            let items_size = le_u32_at(buf, 32) as int;
            let proof_size = le_u32_at(buf, 36) as int;
            if buf.len() < 40 + items_size + proof_size {
                Err(ErrorKind::IncorrectLength)
            } else {
                match <Vec<StateProofItem> as Deserializable<Vec<StateProofItem>>>::spec_deserialize(
                    buf.subrange(40, 40 + items_size),
                ) {
                    Err(k) => Err(k),
                    Ok(items) => match <StateProof as Deserializable<
                        StateProof,
                    >>::spec_deserialize(buf.subrange(40 + items_size, 40 + items_size + proof_size)) {
                        Err(k) => Err(k),
                        Ok(proof) => Ok(
                            SpecStateProofs { root_hash: buf.subrange(0, 32), items, proof },
                        ),
                    },
                }
            }
        }
    }

    proof fn lemma_roundtrip(v: SpecStateProofs) {
        lemma_stateproofs_roundtrip(v);
    }

    fn deserialize(buf: &[u8]) -> (r: Result<StateProofs, Error>) {
        if buf.len() < 40 {
            return Err(Error::new(ErrorKind::IncorrectLength));
        }
        let items_size = read_u32(buf, 32) as usize;
        let proof_size = read_u32(buf, 36) as usize;
        if items_size as u64 + proof_size as u64 > (buf.len() - 40) as u64 {
            return Err(Error::new(ErrorKind::IncorrectLength));
        }
        let root_hash = read_arr32(buf, 0);
        let items_region = vstd::slice::slice_subrange(buf, 40, 40 + items_size);
        let proof_region = vstd::slice::slice_subrange(
            buf,
            40 + items_size,
            40 + items_size + proof_size,
        );
        let items = match <Vec<StateProofItem> as Deserializable<Vec<StateProofItem>>>::deserialize(
            items_region,
        ) {
            Ok(items) => items,
            Err(e) => {
                return Err(e);
            },
        };
        let proof_list = match <StateProof as Deserializable<StateProof>>::deserialize(
            proof_region,
        ) {
            Ok(p) => p,
            Err(e) => {
                return Err(e);
            },
        };
        let ret = StateProofs { root_hash, items, proof: proof_list };
        proof {
            let m = Self::spec_deserialize(buf@)->Ok_0;
            assert(ret.deep_view() =~= m);
        }
        Ok(ret)
    }
}

/// The length of a Merkle proof's encoding is its fixed region plus the
/// three variable regions.
pub proof fn lemma_merkleproof_encoding_len(v: SpecMerkleProof)
    requires
        MerkleProof::serializable(v),
    ensures
        MerkleProof::spec_serialize(v).len() == 48 + 4 * v.leaf_indices.len() + 32
            * v.leaf_hashes.len() + v.proof.len(),
{
    vstd::bytes::lemma_auto_spec_u32_to_from_le_bytes();
    assert(spec_u32_to_le_bytes(v.total_leaves_count as u32).len() == 4);
    assert(spec_u32_to_le_bytes((4 * v.leaf_indices.len()) as u32).len() == 4);
    assert(spec_u32_to_le_bytes((32 * v.leaf_hashes.len()) as u32).len() == 4);
    assert(spec_u32_to_le_bytes(v.proof.len() as u32).len() == 4);
    lemma_indices_bytes_concat(v.leaf_indices, Seq::empty());
    lemma_hashes_bytes_concat(v.leaf_hashes, Seq::empty());
}

/// Round trip: decoding the encoding of any well-formed value returns exactly
/// that value.
pub proof fn lemma_merkleproof_roundtrip(v: SpecMerkleProof)
    requires
        MerkleProof::serializable(v),
    ensures
        MerkleProof::spec_deserialize(MerkleProof::spec_serialize(v)) == Ok::<
            SpecMerkleProof,
            ErrorKind,
        >(v),
{
    let s = MerkleProof::spec_serialize(v);
    let ib = spec_indices_bytes(v.leaf_indices);
    let hb = spec_hashes_bytes(v.leaf_hashes);
    vstd::bytes::lemma_auto_spec_u32_to_from_le_bytes();
    assert(spec_u32_to_le_bytes(v.total_leaves_count as u32).len() == 4);
    assert(spec_u32_to_le_bytes((4 * v.leaf_indices.len()) as u32).len() == 4);
    assert(spec_u32_to_le_bytes((32 * v.leaf_hashes.len()) as u32).len() == 4);
    assert(spec_u32_to_le_bytes(v.proof.len() as u32).len() == 4);
    lemma_indices_bytes_concat(v.leaf_indices, Seq::empty());
    lemma_hashes_bytes_concat(v.leaf_hashes, Seq::empty());
    assert(s.subrange(32, 36) =~= spec_u32_to_le_bytes(v.total_leaves_count as u32));
    lemma_le_u32_at(s, 32, v.total_leaves_count as u32);
    assert(s.subrange(36, 40) =~= spec_u32_to_le_bytes((4 * v.leaf_indices.len()) as u32));
    lemma_le_u32_at(s, 36, (4 * v.leaf_indices.len()) as u32);
    assert(s.subrange(40, 44) =~= spec_u32_to_le_bytes((32 * v.leaf_hashes.len()) as u32));
    lemma_le_u32_at(s, 40, (32 * v.leaf_hashes.len()) as u32);
    assert(s.subrange(44, 48) =~= spec_u32_to_le_bytes(v.proof.len() as u32));
    lemma_le_u32_at(s, 44, v.proof.len() as u32);
    assert(s.subrange(0, 32) =~= v.root_hash);
    let isz = ib.len() as int;
    let hsz = hb.len() as int;
    assert(s.subrange(48, 48 + isz) =~= ib);
    assert(s.subrange(48 + isz, 48 + isz + hsz) =~= hb);
    assert(s.subrange(48 + isz + hsz, 48 + isz + hsz + v.proof.len() as int) =~= v.proof);
    lemma_parse_indices_roundtrip(v.leaf_indices);
    lemma_parse_hashes_roundtrip(v.leaf_hashes);
    assert(MerkleProof::spec_deserialize(s)->Ok_0 =~= v);
}

/// Truncation sensitivity: every strict prefix of an encoding, the empty
/// buffer included, decodes to `IncorrectLength`.
pub proof fn lemma_merkleproof_truncation(v: SpecMerkleProof, n: int)
    requires
        MerkleProof::serializable(v),
        0 <= n < MerkleProof::spec_serialize(v).len(),
    ensures
        MerkleProof::spec_deserialize(MerkleProof::spec_serialize(v).take(n)) == Err::<
            SpecMerkleProof,
            ErrorKind,
        >(ErrorKind::IncorrectLength),
{
    let s = MerkleProof::spec_serialize(v);
    vstd::bytes::lemma_auto_spec_u32_to_from_le_bytes();
    assert(spec_u32_to_le_bytes(v.total_leaves_count as u32).len() == 4);
    assert(spec_u32_to_le_bytes((4 * v.leaf_indices.len()) as u32).len() == 4);
    assert(spec_u32_to_le_bytes((32 * v.leaf_hashes.len()) as u32).len() == 4);
    assert(spec_u32_to_le_bytes(v.proof.len() as u32).len() == 4);
    lemma_indices_bytes_concat(v.leaf_indices, Seq::empty());
    lemma_hashes_bytes_concat(v.leaf_hashes, Seq::empty());
    let p = s.take(n);
    if n >= 48 {
        assert(p.subrange(36, 40) =~= spec_u32_to_le_bytes((4 * v.leaf_indices.len()) as u32));
        lemma_le_u32_at(p, 36, (4 * v.leaf_indices.len()) as u32);
        assert(p.subrange(40, 44) =~= spec_u32_to_le_bytes((32 * v.leaf_hashes.len()) as u32));
        lemma_le_u32_at(p, 40, (32 * v.leaf_hashes.len()) as u32);
        assert(p.subrange(44, 48) =~= spec_u32_to_le_bytes(v.proof.len() as u32));
        lemma_le_u32_at(p, 44, v.proof.len() as u32);
    }
}

/// The length of a state-proofs encoding is its fixed region plus the two
/// nested sequence encodings.
pub proof fn lemma_stateproofs_encoding_len(v: SpecStateProofs)
    requires
        StateProofs::serializable(v),
    ensures
        StateProofs::spec_serialize(v).len() == 40 + <Vec<StateProofItem> as Serializable>::spec_serialize(
            v.items,
        ).len() + <StateProof as Serializable>::spec_serialize(v.proof).len(),
{
    let ibytes = <Vec<StateProofItem> as Serializable>::spec_serialize(v.items);
    let pbytes = <StateProof as Serializable>::spec_serialize(v.proof);
    vstd::bytes::lemma_auto_spec_u32_to_from_le_bytes();
    assert(spec_u32_to_le_bytes(ibytes.len() as u32).len() == 4);
    assert(spec_u32_to_le_bytes(pbytes.len() as u32).len() == 4);
}

/// Round trip: decoding the encoding of any well-formed value returns exactly
/// that value, preserving the present/absent distinction of every item's
/// value.
pub proof fn lemma_stateproofs_roundtrip(v: SpecStateProofs)
    requires
        StateProofs::serializable(v),
    ensures
        StateProofs::spec_deserialize(StateProofs::spec_serialize(v)) == Ok::<
            SpecStateProofs,
            ErrorKind,
        >(v),
{
    let s = StateProofs::spec_serialize(v);
    let ibytes = <Vec<StateProofItem> as Serializable>::spec_serialize(v.items);
    let pbytes = <StateProof as Serializable>::spec_serialize(v.proof);
    vstd::bytes::lemma_auto_spec_u32_to_from_le_bytes();
    assert(spec_u32_to_le_bytes(ibytes.len() as u32).len() == 4);
    assert(spec_u32_to_le_bytes(pbytes.len() as u32).len() == 4);
    assert(s.subrange(32, 36) =~= spec_u32_to_le_bytes(ibytes.len() as u32));
    lemma_le_u32_at(s, 32, ibytes.len() as u32);
    assert(s.subrange(36, 40) =~= spec_u32_to_le_bytes(pbytes.len() as u32));
    lemma_le_u32_at(s, 36, pbytes.len() as u32);
    assert(s.subrange(0, 32) =~= v.root_hash);
    assert(s.subrange(40, 40 + ibytes.len() as int) =~= ibytes);
    assert(s.subrange(40 + ibytes.len() as int, 40 + ibytes.len() + pbytes.len() as int)
        =~= pbytes);
    <Vec<StateProofItem> as Deserializable<Vec<StateProofItem>>>::lemma_roundtrip(v.items);
    <StateProof as Deserializable<StateProof>>::lemma_roundtrip(v.proof);
    assert(StateProofs::spec_deserialize(s)->Ok_0 =~= v);
}

/// Truncation sensitivity: every strict prefix of an encoding, the empty
/// buffer included, decodes to `IncorrectLength`.
pub proof fn lemma_stateproofs_truncation(v: SpecStateProofs, n: int)
    requires
        StateProofs::serializable(v),
        0 <= n < StateProofs::spec_serialize(v).len(),
    ensures
        StateProofs::spec_deserialize(StateProofs::spec_serialize(v).take(n)) == Err::<
            SpecStateProofs,
            ErrorKind,
        >(ErrorKind::IncorrectLength),
{
    let s = StateProofs::spec_serialize(v);
    let ibytes = <Vec<StateProofItem> as Serializable>::spec_serialize(v.items);
    let pbytes = <StateProof as Serializable>::spec_serialize(v.proof);
    vstd::bytes::lemma_auto_spec_u32_to_from_le_bytes();
    assert(spec_u32_to_le_bytes(ibytes.len() as u32).len() == 4);
    assert(spec_u32_to_le_bytes(pbytes.len() as u32).len() == 4);
    let p = s.take(n);
    if n >= 40 {
        assert(p.subrange(32, 36) =~= spec_u32_to_le_bytes(ibytes.len() as u32));
        lemma_le_u32_at(p, 32, ibytes.len() as u32);
        assert(p.subrange(36, 40) =~= spec_u32_to_le_bytes(pbytes.len() as u32));
        lemma_le_u32_at(p, 36, pbytes.len() as u32);
    }
}

} // verus!
