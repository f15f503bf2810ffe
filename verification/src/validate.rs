//! Validation: does a tree still have the digest that is expected of it?

use crate::aggregate::{compute_folder_digest, folder_digest, FolderDigest};
use crate::encoding::{hex_text, is_hex_char};
use crate::entry::{EntryView, FileEntry};
use crate::error::DigestError;
use vstd::prelude::*;
use vstd::string::StringSliceAdditionalSpecFns;

verus! {

/// Whether a text has the form of a digest: exactly 64 hexadecimal digits.
pub open spec fn is_digest_text(text: Seq<char>) -> bool {
    text.len() == 64 && forall|i: int| 0 <= i < text.len() ==> is_hex_char(#[trigger] text[i])
}

/// The result of a validation: both digests as text, and whether they are
/// the same.
#[derive(Clone, Debug, PartialEq, Eq)]
pub struct ValidationOutcome {
    pub expected: String,
    pub actual: String,
    pub matched: bool,
}

/// The mathematical value of a [`ValidationOutcome`].
pub struct OutcomeView {
    pub expected: Seq<char>,
    pub actual: Seq<char>,
    pub matched: bool,
}

impl View for ValidationOutcome {
    type V = OutcomeView;

    open spec fn view(&self) -> OutcomeView {
        OutcomeView { expected: self.expected@, actual: self.actual@, matched: self.matched }
    }
}

/// The outcome of comparing an expected digest text with a computed digest.
/// The comparison is exact: the computed text is lowercase, and an expected
/// text in capitals does not match it.
pub open spec fn outcome_of(expected: Seq<char>, actual: Seq<u8>) -> OutcomeView {
    OutcomeView {
        expected,
        actual: hex_text(actual),
        matched: expected == hex_text(actual),
    }
}

/// What validating a tree against an expected digest text gives.
pub open spec fn validation(
    expected: Seq<char>,
    entries: Seq<EntryView>,
    salt: Seq<u8>,
) -> Result<OutcomeView, DigestError> {
    if is_digest_text(expected) {
        Ok(outcome_of(expected, folder_digest(salt, entries)@))
    } else {
        Err(DigestError::MalformedDigest)
    }
}

/// Whether a byte is the ASCII code of a hexadecimal digit.
fn is_hex_byte(b: u8) -> (result: bool)
    ensures
        result == (b < 128 && is_hex_char(b as char)),
{
    (0x30 <= b && b <= 0x39) || (0x61 <= b && b <= 0x66) || (0x41 <= b && b <= 0x46)
}

/// Tests whether a text has the form of a digest.
pub fn check_digest_text(text: &str) -> (well_formed: bool)
    ensures
        well_formed == is_digest_text(text@),
{
    broadcast use vstd::string::is_ascii_spec_bytes;

    if !text.is_ascii() {
        proof {
            // Some character is not ASCII, so it is no hexadecimal digit.
            let i = choose|i: int|
                0 <= i < text@.len() && !('\0' <= #[trigger] text@[i] <= '\u{7f}');
            assert(!is_hex_char(text@[i]));
        }
        return false;
    }
    // An ASCII text has one byte for each character, with the same code.
    let bytes = text.as_bytes();
    if bytes.len() != 64 {
        return false;
    }
    let mut i: usize = 0;
    while i < 64
        invariant
            i <= 64,
            bytes@.len() == 64,
            text@.len() == 64,
            vstd::string::is_ascii(text),
            bytes@ == text.spec_bytes(),
            forall|j: int| 0 <= j < i ==> is_hex_char(#[trigger] text@[j]),
        decreases 64 - i,
    {
        if !is_hex_byte(bytes[i]) {
            return false;
        }
        i += 1;
    }
    true
}

/// A validation that has been started: the expected text is known to have
/// the form of a digest, and the tree has yet to be read.
pub struct PendingValidation {
    expected: String,
}

impl View for PendingValidation {
    type V = Seq<char>;

    /// The expected digest text.
    closed spec fn view(&self) -> Seq<char> {
        self.expected@
    }
}

impl PendingValidation {
    #[verifier::type_invariant]
    spec fn well_formed(self) -> bool {
        is_digest_text(self.expected@)
    }

    /// Starts a validation. A text that does not have the form of a digest
    /// is rejected here, before any file is looked at.
    pub fn begin(expected: &str) -> (result: Result<PendingValidation, DigestError>)
        ensures
            match result {
                Ok(pending) => is_digest_text(expected@) && pending@ == expected@,
                Err(error) => !is_digest_text(expected@) && error == DigestError::MalformedDigest,
            },
    {
        if check_digest_text(expected) {
            Ok(PendingValidation { expected: expected.to_owned() })
        } else {
            Err(DigestError::MalformedDigest)
        }
    }

    /// Completes the validation with the digest that the tree now has.
    pub fn conclude(self, actual: &FolderDigest) -> (outcome: ValidationOutcome)
        ensures
            is_digest_text(self@),
            outcome@ == outcome_of(self@, actual@),
    {
        proof {
            use_type_invariant(&self);
        }
        let actual_text = actual.to_hex();
        let matched = self.expected == actual_text;
        ValidationOutcome { expected: self.expected, actual: actual_text, matched }
    }
}

/// Validates a tree, given by its files and a salt, against an expected
/// digest text.
pub fn validate(expected: &str, entries: Vec<FileEntry>, salt: &[u8]) -> (result: Result<
    ValidationOutcome,
    DigestError,
>)
    ensures
        match result {
            Ok(outcome) => validation(expected@, entries.deep_view(), salt@) == Ok::<
                OutcomeView,
                DigestError,
            >(outcome@),
            Err(error) => validation(expected@, entries.deep_view(), salt@) == Err::<
                OutcomeView,
                DigestError,
            >(error),
        },
{
    match PendingValidation::begin(expected) {
        Ok(pending) => {
            let actual = compute_folder_digest(entries, salt);
            Ok(pending.conclude(&actual))
        },
        Err(error) => Err(error),
    }
}

} // verus!
