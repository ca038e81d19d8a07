//! The text layer of a saved game: bytes to base64 text and back.

use vstd::prelude::*;

verus! {

#[verifier::external_type_specification]
#[verifier::external_body]
pub struct ExDecodeError(base64::DecodeError);

#[verifier::external_type_specification]
#[verifier::external_body]
pub struct ExErrorKind(bincode::ErrorKind);

/// A saved game could not be encoded or read back.
#[derive(Debug, Clone, Copy, PartialEq, Eq, Structural)]
pub struct SaveGameError;

impl From<base64::DecodeError> for SaveGameError {
    fn from(_e: base64::DecodeError) -> (r: Self)
        ensures
            r == SaveGameError,
    {
        SaveGameError
    }
}

impl vstd::std_specs::convert::FromSpecImpl<base64::DecodeError> for SaveGameError {
    open spec fn obeys_from_spec() -> bool {
        true
    }

    open spec fn from_spec(v: base64::DecodeError) -> Self {
        SaveGameError
    }
}

impl From<Box<bincode::ErrorKind>> for SaveGameError {
    fn from(_e: Box<bincode::ErrorKind>) -> (r: Self)
        ensures
            r == SaveGameError,
    {
        SaveGameError
    }
}

impl vstd::std_specs::convert::FromSpecImpl<Box<bincode::ErrorKind>> for SaveGameError {
    open spec fn obeys_from_spec() -> bool {
        true
    }

    open spec fn from_spec(v: Box<bincode::ErrorKind>) -> Self {
        SaveGameError
    }
}

/// The standard padded base64 text of `b`.
pub uninterp spec fn base64_text(b: Seq<u8>) -> Seq<char>;

/// What standard padded base64 decoding makes of the text `s`: the bytes it
/// stands for, or `None` where it is not valid base64.
pub uninterp spec fn base64_decoded(s: Seq<char>) -> Option<Seq<u8>>;

/// Relies on base64's `encode` (standard alphabet, padded): four characters
/// for each started group of three bytes, and text that base64's `decode`
/// with the same configuration reads back as the same bytes; it panics only
/// when that length overflows.
#[verifier::external_body]
fn base64_encode(bin: &[u8]) -> (r: String)
    requires
        4 * ((bin@.len() + 2) / 3) <= usize::MAX,
    ensures
        r@ == base64_text(bin@),
        r@.len() == 4 * ((bin@.len() + 2) / 3),
        base64_decoded(r@) == Some(bin@),
{
    base64::encode(bin)
}

/// Relies on base64's `decode` (standard alphabet, padded): the decoded
/// bytes, or the error that the text is not valid base64; the outcome
/// depends on the text alone.
#[verifier::external_body]
fn base64_decode(save: &str) -> (r: Result<Vec<u8>, base64::DecodeError>)
    ensures
        r is Ok <==> base64_decoded(save@) is Some,
        r matches Ok(b) ==> Some(b@) == base64_decoded(save@),
{
    base64::decode(save)
}

/// The text form of saved bytes.
pub fn encode(bin: &[u8]) -> (r: String)
    requires
        4 * ((bin@.len() + 2) / 3) <= usize::MAX,
    ensures
        r@ == base64_text(bin@),
        r@.len() == 4 * ((bin@.len() + 2) / 3),
        base64_decoded(r@) == Some(bin@),
{
    base64_encode(bin)
}

/// The saved bytes of a text form; text that is not base64 is a
/// `SaveGameError`. Decoding what `encode` made gives back its bytes.
pub fn decode(save: &str) -> (r: Result<Vec<u8>, SaveGameError>)
    ensures
        r is Ok <==> base64_decoded(save@) is Some,
        r matches Ok(b) ==> Some(b@) == base64_decoded(save@),
        r is Err ==> r == Err::<Vec<u8>, SaveGameError>(SaveGameError),
{
    match base64_decode(save) {
        Ok(bin) => Ok(bin),
        Err(e) => Err(SaveGameError::from(e)),
    }
}

} // verus!
