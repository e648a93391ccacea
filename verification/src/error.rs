//! The ways in which a run can fail.

use vstd::prelude::*;
use vstd::string::StringExecFns;

verus! {

/// A fatal error. Each one ends the run at the place where it is found.
#[derive(Clone, Copy, Debug, PartialEq, Eq, Structural)]
pub enum Error {
    /// The input is not laid out as the binary format requires: a section
    /// is longer or shorter than its contents, or something cannot be
    /// decoded.
    StructuralDecode,
    /// The name section names the same index twice.
    DuplicateName,
    /// There is no debug name to work with: the input names no function at
    /// all, or leaves a declared function without a name.
    MissingNameData,
}

impl Error {
    /// A sentence for the user.
    pub fn message(&self) -> (text: String)
        ensures
            text@ == match *self {
                Error::StructuralDecode => "malformed input: a section does not decode as declared"@,
                Error::DuplicateName => "name already in lookup"@,
                Error::MissingNameData =>
                    "Can only parse wasm files with custom 'name' section. Make sure the wasm has debug names in the file."@,
            },
    {
        match self {
            Error::StructuralDecode => String::from_str(
                "malformed input: a section does not decode as declared",
            ),
            Error::DuplicateName => String::from_str("name already in lookup"),
            Error::MissingNameData => String::from_str(
                "Can only parse wasm files with custom 'name' section. Make sure the wasm has debug names in the file.",
            ),
        }
    }
}

} // verus!
