use vstd::prelude::*;

verus! {

/// Why a request to the switcher was turned down.
#[derive(Debug, Clone, Copy, PartialEq, Eq)]
pub enum SwitchError {
    /// No entry of the search path names the directory of installed executables.
    BinDirNotFound,
    /// The package specifier is not of the form `NAME@VERSION`.
    InvalidSpecifier,
}

impl SwitchError {
    /// The message shown to the user for this error.
    pub fn message(&self) -> (r: String)
        ensures
            self is BinDirNotFound ==> r@
                == "Failed to find your .cargo/bin directory. Is Cargo configured in your PATH?"@,
            self is InvalidSpecifier ==> r@ == "Expected input in the form `NAME@VERSION`"@,
    {
        match self {
            SwitchError::BinDirNotFound => String::from_str(
                "Failed to find your .cargo/bin directory. Is Cargo configured in your PATH?",
            ),
            SwitchError::InvalidSpecifier => String::from_str(
                "Expected input in the form `NAME@VERSION`",
            ),
        }
    }
}

} // verus!
