//! The folder digest: one SHA-256 digest over the salt and every file of a
//! tree.

use crate::encoding::{digest_text, hex_text};
use crate::entry::{canonical_order, lemma_canonical_order, EntryView, FileEntry};
use crate::sha256::{absorbed, sha256, sha256_finalize, sha256_new, sha256_update};
use crate::sorting::sort_entries;
use vstd::prelude::*;

verus! {

/// What one file contributes to the hashed message: its relative path, the
/// salt, and the digest of its content.
pub open spec fn entry_record(salt: Seq<u8>, entry: EntryView) -> Seq<u8> {
    entry.path + salt + entry.content_hash@
}

/// The records of a sequence of entries, in the order of the sequence.
pub open spec fn records(salt: Seq<u8>, entries: Seq<EntryView>) -> Seq<u8>
    decreases entries.len(),
{
    if entries.len() == 0 {
        Seq::empty()
    } else {
        records(salt, entries.drop_last()) + entry_record(salt, entries.last())
    }
}

/// The message that is hashed for a tree: the salt, then the record of each
/// file in canonical order.
pub open spec fn digest_message(salt: Seq<u8>, entries: Seq<EntryView>) -> Seq<u8> {
    salt + records(salt, canonical_order(entries))
}

/// The digest of a tree under a salt.
pub open spec fn folder_digest(salt: Seq<u8>, entries: Seq<EntryView>) -> [u8; 32] {
    sha256(digest_message(salt, entries))
}

/// The digest of a whole tree, 32 bytes.
#[derive(Clone, Copy, Debug, PartialEq, Eq)]
pub struct FolderDigest {
    pub bytes: [u8; 32],
}

impl View for FolderDigest {
    type V = Seq<u8>;

    open spec fn view(&self) -> Seq<u8> {
        self.bytes@
    }
}

impl FolderDigest {
    /// The digest as 64 lowercase hexadecimal digits.
    pub fn to_hex(&self) -> (text: String)
        ensures
            text@ == hex_text(self@),
    {
        digest_text(&self.bytes)
    }
}

/// Computes the digest of a tree from its files, in whatever order they are
/// given, and a salt.
pub fn compute_folder_digest(entries: Vec<FileEntry>, salt: &[u8]) -> (digest: FolderDigest)
    ensures
        digest.bytes == folder_digest(salt@, entries.deep_view()),
        entries.len() == 0 ==> digest.bytes == sha256(salt@),
{
    proof {
        if entries.len() == 0 {
            lemma_canonical_order(entries.deep_view());
        }
    }
    let sorted = sort_entries(entries);
    let mut hasher = sha256_new();
    sha256_update(&mut hasher, salt);
    let mut i: usize = 0;
    while i < sorted.len()
        invariant
            i <= sorted.len(),
            absorbed(hasher) == salt@ + records(salt@, sorted.deep_view().take(i as int)),
        decreases sorted.len() - i,
    {
        let entry = &sorted[i];
        sha256_update(&mut hasher, entry.path.as_slice());
        sha256_update(&mut hasher, salt);
        sha256_update(&mut hasher, entry.content_hash.as_slice());
        proof {
            let next = sorted.deep_view().take(i + 1);
            assert(next.drop_last() =~= sorted.deep_view().take(i as int));
        }
        i += 1;
    }
    assert(sorted.deep_view().take(i as int) =~= sorted.deep_view());
    FolderDigest { bytes: sha256_finalize(hasher) }
}

/// Computes the digest of a tree and returns it as 64 lowercase hexadecimal
/// digits.
pub fn calculate_folder_hash_with_salt(entries: Vec<FileEntry>, salt: &[u8]) -> (text: String)
    ensures
        text@ == hex_text(folder_digest(salt@, entries.deep_view())@),
{
    compute_folder_digest(entries, salt).to_hex()
}

} // verus!
