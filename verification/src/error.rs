//! The conditions that are reported to the caller.

use vstd::prelude::*;
use vstd::string::StringExecFns;

verus! {

/// Why a digest could not be computed or validated.
#[derive(Clone, Debug, PartialEq, Eq)]
pub enum DigestError {
    /// The root of the tree is not an existing directory.
    DirectoryNotFound { root: String },
    /// A file could not be opened or read to its end.
    UnreadableFile { path: String },
    /// The expected digest is not 64 hexadecimal digits.
    MalformedDigest,
}

impl DigestError {
    /// The message of a condition: what happened, and to which directory or
    /// file.
    pub open spec fn message(self) -> Seq<char> {
        match self {
            DigestError::DirectoryNotFound { root } => "directory not found: "@ + root@,
            DigestError::UnreadableFile { path } => "IO error reading file "@ + path@,
            DigestError::MalformedDigest => "malformed expected-digest length"@,
        }
    }

    /// The message of this condition, for the user.
    pub fn describe(&self) -> (text: String)
        ensures
            text@ == self.message(),
    {
        match self {
            DigestError::DirectoryNotFound { root } => {
                String::from_str("directory not found: ").concat(root.as_str())
            },
            DigestError::UnreadableFile { path } => {
                String::from_str("IO error reading file ").concat(path.as_str())
            },
            DigestError::MalformedDigest => String::from_str("malformed expected-digest length"),
        }
    }
}

} // verus!
