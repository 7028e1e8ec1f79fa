//! Base64URL: strings restricted to the 64 characters of the URL-safe
//! base64 alphabet, without padding — the binary-to-text encoding used for
//! protocol values that travel in textual carriers.

use vstd::prelude::*;

verus! {

/// A string produced by base64url-encoding a byte sequence; it never
/// contains padding.
pub struct Base64URL(String);

/// The base64url (URL-safe alphabet, no padding) text of a byte sequence.
/// The encoding is a function of the bytes alone; its definition lives in
/// the base64 crate.
pub uninterp spec fn base64url_of(bytes: Seq<u8>) -> Seq<char>;

/// The error type of the base64 crate's decoder.
#[verifier::external_type_specification]
#[verifier::external_body]
pub struct ExDecodeError(base64::DecodeError);

impl View for Base64URL {
    type V = Seq<char>;

    closed spec fn view(&self) -> Seq<char> {
        self.0@
    }
}

impl Base64URL {
    /// Encodes a slice of bytes as a Base64URL string.
    ///
    /// Relies on `base64::encode_config` with the URL-safe alphabet and no
    /// padding: its result is a function of the input bytes alone.
    #[verifier::external_body]
    pub fn encode(bytes: &[u8]) -> (r: Base64URL)
        ensures
            r@ == base64url_of(bytes@),
    {
        Base64URL(
            base64::encode_config(
                bytes,
                base64::Config::new(base64::CharacterSet::UrlSafe, false),
            ),
        )
    }

    /// Decodes a Base64URL string into the bytes it encodes, or a
    /// `base64::DecodeError` for a string that is not valid Base64URL.
    ///
    /// Relies on `base64::decode_config` with the URL-safe alphabet and no
    /// padding: it inverts `base64::encode_config`, so any string that is
    /// the encoding of some byte sequence decodes to exactly that sequence.
    #[verifier::external_body]
    pub fn decode(base64_url: &str) -> (r: Result<Vec<u8>, base64::DecodeError>)
        ensures
            r matches Ok(b) ==> forall|x: Seq<u8>|
                #[trigger] base64url_of(x) == base64_url@ ==> b@ == x,
            r matches Err(e) ==> forall|x: Seq<u8>| #[trigger] base64url_of(x) != base64_url@,
    {
        base64::decode_config(
            base64_url,
            base64::Config::new(base64::CharacterSet::UrlSafe, false),
        )
    }

    /// The encoded text itself.
    pub fn as_string(&self) -> (r: &String)
        ensures
            r@ == self@,
    {
        &self.0
    }
}

} // verus!
