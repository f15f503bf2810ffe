//! File entries and the canonical order in which they are folded into a
//! folder digest.

use crate::content::hash_content;
use crate::order::{
    byte_order, bytes_le, compare_bytes, compare_paths, lemma_byte_order_total,
    lemma_path_order_total, path_le, path_order, Precedence,
};
use crate::sha256::sha256;
use vstd::prelude::*;
use vstd::relations::*;

verus! {

/// One regular file of a tree: its path relative to the root, as the bytes
/// that are hashed, and the SHA-256 digest of its content. The components of
/// the path are separated by `/`.
#[derive(Clone, Debug, PartialEq, Eq)]
pub struct FileEntry {
    pub path: Vec<u8>,
    pub content_hash: [u8; 32],
}

/// The mathematical value of a [`FileEntry`].
pub struct EntryView {
    pub path: Seq<u8>,
    pub content_hash: [u8; 32],
}

impl View for FileEntry {
    type V = EntryView;

    open spec fn view(&self) -> EntryView {
        EntryView { path: self.path@, content_hash: self.content_hash }
    }
}

impl DeepView for FileEntry {
    type V = EntryView;

    open spec fn deep_view(&self) -> EntryView {
        self@
    }
}

impl FileEntry {
    /// An entry for the file at `path` whose content has the digest
    /// `content_hash`.
    pub fn new(path: &[u8], content_hash: [u8; 32]) -> (entry: FileEntry)
        ensures
            entry@ == (EntryView { path: path@, content_hash }),
    {
        FileEntry { path: vstd::slice::slice_to_vec(path), content_hash }
    }

    /// An entry for the file at `path` with the given content.
    pub fn with_content(path: &[u8], content: &[u8]) -> (entry: FileEntry)
        ensures
            entry@ == (EntryView { path: path@, content_hash: sha256(content@) }),
    {
        FileEntry::new(path, hash_content(content))
    }
}

/// The canonical order of entries: the order of their relative paths.
/// Entries that share a path, which no real tree yields, are ordered by
/// content hash, so that the order of any collection of entries is fully
/// determined.
pub open spec fn entry_le(a: EntryView, b: EntryView) -> bool {
    if a.path == b.path {
        bytes_le(a.content_hash@, b.content_hash@)
    } else {
        path_le(a.path, b.path)
    }
}

/// [`entry_le`] as a relation.
pub open spec fn entry_order() -> spec_fn(EntryView, EntryView) -> bool {
    |a: EntryView, b: EntryView| entry_le(a, b)
}

/// The entries of a tree in canonical order.
pub open spec fn canonical_order(entries: Seq<EntryView>) -> Seq<EntryView> {
    entries.sort_by(entry_order())
}

/// The canonical order is a total order on entries.
pub proof fn lemma_entry_order_total()
    ensures
        total_ordering(entry_order()),
{
    lemma_path_order_total();
    lemma_byte_order_total();
    let r = entry_order();
    let by_path = path_order();
    let by_hash = byte_order();
    assert forall|x: EntryView| #[trigger] r(x, x) by {
        assert(by_hash(x.content_hash@, x.content_hash@));
    }
    assert forall|x: EntryView, y: EntryView| #[trigger] r(x, y) && #[trigger] r(y, x) implies x
        == y by {
        if x.path == y.path {
            assert(by_hash(x.content_hash@, y.content_hash@));
            assert(by_hash(y.content_hash@, x.content_hash@));
            assert(x.content_hash =~= y.content_hash);
        } else {
            assert(by_path(x.path, y.path) && by_path(y.path, x.path));
        }
    }
    assert forall|x: EntryView, y: EntryView, z: EntryView| #[trigger]
        r(x, y) && #[trigger] r(y, z) implies r(x, z) by {
        if x.path == y.path && y.path == z.path {
            assert(by_hash(x.content_hash@, y.content_hash@));
            assert(by_hash(y.content_hash@, z.content_hash@));
        } else if x.path != y.path && y.path != z.path {
            assert(by_path(x.path, y.path) && by_path(y.path, z.path));
            assert(by_path(z.path, x.path) ==> by_path(z.path, y.path));
        }
    }
    assert forall|x: EntryView, y: EntryView| #[trigger] r(x, y) || #[trigger] r(y, x) by {
        assert(by_path(x.path, y.path) || by_path(y.path, x.path));
        assert(by_hash(x.content_hash@, y.content_hash@) || by_hash(
            y.content_hash@,
            x.content_hash@,
        ));
    }
}

/// In the canonical order the paths never go back: an entry's path comes no
/// later than the path of any entry after it.
pub proof fn lemma_entry_le_orders_paths(a: EntryView, b: EntryView)
    requires
        entry_le(a, b),
    ensures
        path_le(a.path, b.path),
{
    lemma_path_order_total();
    assert(path_order()(a.path, a.path));
}

/// What the canonical order is: the one arrangement of the same entries, each
/// as often as before, in which every entry comes no later than those after
/// it.
pub proof fn lemma_canonical_order(entries: Seq<EntryView>)
    ensures
        sorted_by(canonical_order(entries), entry_order()),
        canonical_order(entries).to_multiset() == entries.to_multiset(),
        canonical_order(entries).len() == entries.len(),
        forall|other: Seq<EntryView>|
            sorted_by(other, entry_order()) && other.to_multiset() == entries.to_multiset()
                ==> other == canonical_order(entries),
{
    broadcast use vstd::seq_lib::to_multiset_len;

    lemma_entry_order_total();
    entries.lemma_sort_by_ensures(entry_order());
    assert(canonical_order(entries).to_multiset().len() == entries.to_multiset().len());
    assert forall|other: Seq<EntryView>|
        sorted_by(other, entry_order()) && other.to_multiset()
            == entries.to_multiset() implies other == canonical_order(entries) by {
        vstd::seq_lib::lemma_sorted_unique(other, canonical_order(entries), entry_order());
    }
}

/// Whether `a` comes no later than `b` in the canonical order.
pub fn entry_precedes(a: &FileEntry, b: &FileEntry) -> (result: bool)
    ensures
        result == entry_le(a@, b@),
{
    match compare_paths(a.path.as_slice(), b.path.as_slice()) {
        Precedence::Before => true,
        Precedence::After => false,
        Precedence::Same => {
            proof {
                lemma_byte_order_total();
                assert(byte_order()(a.content_hash@, a.content_hash@));
            }
            match compare_bytes(a.content_hash.as_slice(), b.content_hash.as_slice()) {
                Precedence::After => false,
                _ => true,
            }
        },
    }
}

} // verus!
