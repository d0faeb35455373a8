use vstd::prelude::*;

verus! {

/// Declares `data_encoding::DecodeError` so that the base64 error can be
/// carried inside [`Error`]; the library never looks inside a value of it.
#[verifier::external_type_specification]
#[verifier::external_body]
#[allow(dead_code)]
pub struct ExDecodeError(data_encoding::DecodeError);

/// A failure of token derivation. Every error is a typed, recoverable
/// value; the library's verified functions never panic.
#[derive(Debug)]
pub enum Error {
    /// Interpolation was handed sequences of different lengths.
    MismatchedArguments,
    /// Malformed markup, path data or frame, or an out-of-range index.
    Parse(String),
    /// An expected marker, attribute or pattern was absent.
    MissingKey(String),
    /// The verification key was not valid base64.
    Base64(data_encoding::DecodeError),
}

impl From<data_encoding::DecodeError> for Error {
    fn from(err: data_encoding::DecodeError) -> (r: Self) {
        Error::Base64(err)
    }
}

impl vstd::std_specs::convert::FromSpecImpl<data_encoding::DecodeError> for Error {
    open spec fn obeys_from_spec() -> bool {
        true
    }

    open spec fn from_spec(err: data_encoding::DecodeError) -> Self {
        Error::Base64(err)
    }
}

} // verus!
