use vstd::prelude::*;

verus! {

#[verifier::external_type_specification]
#[verifier::external_body]
pub struct ExIoError(std::io::Error);

/// Why a file could not be opened, or a frame not decoded.
#[derive(Debug)]
pub enum WaveError {
    /// The underlying storage could not be opened or read.
    IoError(std::io::Error),
    /// The header is well formed, but its encoding or bit depth cannot be decoded.
    Unsupported(String),
    /// The header is malformed, self-contradictory or cut short.
    ParseError(String),
}

/// The kind of a failure that comes from the bytes of a file, as the
/// contracts speak of it.
#[derive(Clone, Copy, Debug, PartialEq, Eq, Structural)]
pub enum Fault {
    Parse,
    Unsupported,
}

impl WaveError {
    /// This error is of kind `k`.
    pub open spec fn is_fault(&self, k: Fault) -> bool {
        match self {
            WaveError::ParseError(_) => k == Fault::Parse,
            WaveError::Unsupported(_) => k == Fault::Unsupported,
            WaveError::IoError(_) => false,
        }
    }

    /// A short description of the error: the message of a parse or
    /// unsupported-format error, the text of an I/O error.
    pub fn description(&self) -> (r: String)
        ensures
            match self {
                WaveError::ParseError(s) => r@ == s@,
                WaveError::Unsupported(s) => r@ == s@,
                WaveError::IoError(_) => true,
            },
    {
        match self {
            WaveError::ParseError(s) => s.clone(),
            WaveError::Unsupported(s) => s.clone(),
            WaveError::IoError(e) => e.to_string(),
        }
    }

    /// The error as a line of text: its kind, then its description.
    pub fn to_string(&self) -> (r: String)
        ensures
            match self {
                WaveError::ParseError(s) => r@ == "Parse Error: "@ + s@,
                WaveError::Unsupported(s) => r@ == "Unsupported Format Error: "@ + s@,
                WaveError::IoError(_) => true,
            },
    {
        let prefix = match self {
            WaveError::IoError(_) => String::from_str("IO Error: "),
            WaveError::ParseError(_) => String::from_str("Parse Error: "),
            WaveError::Unsupported(_) => String::from_str("Unsupported Format Error: "),
        };
        let text = self.description();
        prefix.concat(text.as_str())
    }
}

impl From<std::io::Error> for WaveError {
    fn from(e: std::io::Error) -> (r: WaveError) {
        WaveError::IoError(e)
    }
}

impl vstd::std_specs::convert::FromSpecImpl<std::io::Error> for WaveError {
    open spec fn obeys_from_spec() -> bool {
        true
    }

    open spec fn from_spec(e: std::io::Error) -> WaveError {
        WaveError::IoError(e)
    }
}

} // verus!
