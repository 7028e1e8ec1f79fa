//! Cryptography-related protocol types: public addresses, signatures, and
//! hashes. The codec carries these opaque byte fields; it never computes or
//! verifies them.

use vstd::prelude::*;

verus! {

/// An opaque 32-byte account identifier.
pub type PublicAddress = [u8; 32];

/// An opaque 32-byte digest, produced externally.
pub type Sha256Hash = [u8; 32];

/// An opaque 64-byte signature, produced externally.
pub type Signature = [u8; 64];

} // verus!
