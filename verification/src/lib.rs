//! Binary wire encodings for a blockchain's core protocol entities.
//!
//! Every entity exposes `serialize`, which never fails on a well-formed value,
//! and `deserialize`, which returns an [`Error`] on every malformed input
//! instead of panicking. Both directions carry contracts over a mathematical
//! model of each entity, so that the byte layouts are bit-exact and decoding
//! inverts encoding.

/// error defines the error type shared by every decode path.
pub mod error;

/// encodings defines the primitive codec: fixed-width little-endian integers
/// and fixed-length byte runs at explicit offsets.
pub mod encodings;

/// crypto defines the opaque cryptographic byte-field types carried by the
/// codec.
pub mod crypto;

/// receipt_status_codes defines the one-byte outcome classification carried
/// in every receipt.
pub mod receipt_status_codes;

/// sc_params defines protocol types used to pass data into smart contract
/// linear memory.
pub mod sc_params;

/// transaction defines transaction-related protocol types: transactions,
/// events, receipts, and contract-deployment payloads.
pub mod transaction;

/// block defines block-related protocol types: block headers and blocks.
pub mod block;

/// blanket_impls defines the generic composition layer: integers, raw byte
/// vectors, optional values, tuples, and homogeneous sequences.
pub mod blanket_impls;

/// proofs defines structures carrying Merkle-tree and trie membership
/// evidence.
pub mod proofs;

/// base64url defines the binary-to-text encoding used for protocol values in
/// textual carriers.
pub mod base64url;

use vstd::prelude::*;

pub use error::{Error, ErrorKind};
pub use crypto::{PublicAddress, Sha256Hash, Signature};
pub use receipt_status_codes::ReceiptStatusCode;
pub use sc_params::{CallData, ParamsFromBlockchain, ParamsFromTransaction};
pub use transaction::{Event, Receipt, Transaction, TransactionDataContractDeployment};
pub use block::{Block, BlockHeader};
pub use proofs::{MerkleProof, StateProof, StateProofItem, StateProofs};
pub use base64url::Base64URL;

verus! {

/// Encoding to a byte vector. `spec_serialize` is the byte-exact layout over
/// the entity's mathematical model (its [`DeepView`]); `serializable` holds
/// exactly when every variable-length field fits its wire-format size field.
pub trait Serializable: DeepView + Sized {
    /// True when the value's variable-length parts fit the wire format.
    spec fn serializable(v: <Self as DeepView>::V) -> bool;

    /// The exact byte sequence `serialize` produces.
    spec fn spec_serialize(v: <Self as DeepView>::V) -> Seq<u8>;

    /// Encodes the value; the result is exactly `spec_serialize` of its model.
    fn serialize(msg: &Self) -> (r: Vec<u8>)
        requires
            Self::serializable(msg.deep_view()),
        ensures
            r@ == Self::spec_serialize(msg.deep_view()),
    ;
}

/// Decoding from a byte slice. `spec_deserialize` fixes, for every input, the
/// exact value decoded or the exact error kind returned, and every
/// implementation carries a proof that decoding inverts encoding.
pub trait Deserializable<T: Serializable>: Sized {
    /// The decoded model, or the error kind, for every input.
    spec fn spec_deserialize(buf: Seq<u8>) -> Result<<T as DeepView>::V, ErrorKind>;

    /// Round trip: decoding the encoding of any well-formed value of the
    /// subject type returns exactly that value.
    proof fn lemma_roundtrip(v: <T as DeepView>::V)
        requires
            T::serializable(v),
        ensures
            Self::spec_deserialize(T::spec_serialize(v)) == Ok::<<T as DeepView>::V, ErrorKind>(v),
    ;

    /// Decodes the buffer; never panics.
    fn deserialize(buf: &[u8]) -> (r: Result<T, Error>)
        ensures
            match r {
                Ok(v) => Self::spec_deserialize(buf@) == Ok::<<T as DeepView>::V, ErrorKind>(
                    v.deep_view(),
                ),
                Err(e) => Self::spec_deserialize(buf@) == Err::<<T as DeepView>::V, ErrorKind>(e@),
            },
    ;
}

} // verus!
