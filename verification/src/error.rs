//! What can go wrong, by cause.

use vstd::prelude::*;
use vstd::string::StringExecFns;

verus! {

/// Why a read from the remote service gave no usable answer.
#[derive(Clone, Copy, Debug, PartialEq, Eq, Structural)]
pub enum FetchError {
    /// The request failed on the network or at the HTTP layer.
    Transport,
    /// An answer came, but not in the expected shape. The usual cause is a
    /// region that does not exist.
    Format,
}

impl FetchError {
    /// A line for the user that names the cause.
    pub fn hint(&self) -> (text: String)
        ensures
            *self == FetchError::Transport ==> text@ == "HTTP error"@,
            *self == FetchError::Format ==> text@
                == "XML parsing error -- most likely an invalid region"@,
    {
        match self {
            FetchError::Transport => String::from_str("HTTP error"),
            FetchError::Format => String::from_str(
                "XML parsing error -- most likely an invalid region",
            ),
        }
    }
}

/// Why a configuration is refused before any request is made.
#[derive(Clone, Copy, Debug, PartialEq, Eq, Structural)]
pub enum ConfigurationError {
    /// The caller gave no identifier.
    MissingIdentifier,
    /// The identifier holds a character that no header value may hold.
    MalformedIdentifier,
}

} // verus!
