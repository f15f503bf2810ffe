//! What holds of the folder digest, whatever the tree and the salt.
//!
//! A digest can be told apart from another only as far as SHA-256 tells
//! their messages apart. The laws that say that a change shows in the digest
//! therefore say: the digest changes, or SHA-256 gives two different
//! messages the same digest.

use crate::aggregate::{digest_message, entry_record, folder_digest, records};
use crate::encoding::{hex_text, lemma_hex_text_injective, lemma_hex_text_shape};
use crate::entry::{
    canonical_order, entry_order, lemma_canonical_order, lemma_entry_le_orders_paths, EntryView,
};
use crate::error::DigestError;
use crate::order::{lemma_path_order_total, path_order};
use crate::sha256::sha256;
use crate::validate::{validation, OutcomeView};
use vstd::prelude::*;

verus! {

/// Two different messages that SHA-256 gives the same digest.
pub open spec fn sha256_collision(a: Seq<u8>, b: Seq<u8>) -> bool {
    a != b && sha256(a) == sha256(b)
}

/// The two sequences have as many entries, and at each position paths of
/// the same length: their records lie at the same places of the message.
pub open spec fn same_layout(a: Seq<EntryView>, b: Seq<EntryView>) -> bool {
    a.len() == b.len() && forall|k: int|
        0 <= k < a.len() ==> (#[trigger] a[k]).path.len() == b[k].path.len()
}

/// The paths of a sequence of entries, in its order.
pub open spec fn paths(entries: Seq<EntryView>) -> Seq<Seq<u8>> {
    entries.map_values(|entry: EntryView| entry.path)
}

/// The entry at position `i` with another path.
pub open spec fn renamed(entries: Seq<EntryView>, i: int, path: Seq<u8>) -> Seq<EntryView> {
    entries.update(i, EntryView { path, content_hash: entries[i].content_hash })
}

/// The entry at position `i` with another content.
pub open spec fn rewritten(entries: Seq<EntryView>, i: int, content: Seq<u8>) -> Seq<EntryView> {
    entries.update(i, EntryView { path: entries[i].path, content_hash: sha256(content) })
}

// Records

proof fn lemma_records_decode(salt: Seq<u8>, a: Seq<EntryView>, b: Seq<EntryView>)
    requires
        same_layout(a, b),
        records(salt, a) == records(salt, b),
    ensures
        a == b,
    decreases a.len(),
{
    if a.len() > 0 {
        let whole = records(salt, a);
        let head_a = records(salt, a.drop_last());
        let head_b = records(salt, b.drop_last());
        let tail_a = entry_record(salt, a.last());
        let tail_b = entry_record(salt, b.last());
        assert(head_a =~= whole.take(head_a.len() as int));
        assert(head_b =~= whole.take(head_b.len() as int));
        assert(tail_a =~= whole.skip(head_a.len() as int));
        assert(tail_b =~= whole.skip(head_b.len() as int));
        assert(same_layout(a.drop_last(), b.drop_last()));
        lemma_records_decode(salt, a.drop_last(), b.drop_last());
        let n = a.last().path.len() as int;
        assert(a.last().path =~= tail_a.take(n));
        assert(b.last().path =~= tail_b.take(n));
        assert(a.last().content_hash@ =~= tail_a.skip(n + salt.len()));
        assert(b.last().content_hash@ =~= tail_b.skip(n + salt.len()));
        assert(a.last().content_hash =~= b.last().content_hash);
        assert(a =~= a.drop_last().push(a.last()));
        assert(b =~= b.drop_last().push(b.last()));
    }
}

proof fn lemma_records_len_by_salt(short: Seq<u8>, long: Seq<u8>, entries: Seq<EntryView>)
    requires
        short.len() <= long.len(),
    ensures
        records(short, entries).len() <= records(long, entries).len(),
    decreases entries.len(),
{
    if entries.len() > 0 {
        lemma_records_len_by_salt(short, long, entries.drop_last());
    }
}

proof fn lemma_records_len_remove(salt: Seq<u8>, entries: Seq<EntryView>, k: int)
    requires
        0 <= k < entries.len(),
    ensures
        records(salt, entries).len() == records(salt, entries.remove(k)).len() + entry_record(
            salt,
            entries[k],
        ).len(),
    decreases entries.len(),
{
    if k == entries.len() - 1 {
        assert(entries.remove(k) =~= entries.drop_last());
    } else {
        lemma_records_len_remove(salt, entries.drop_last(), k);
        assert(entries.remove(k).drop_last() =~= entries.drop_last().remove(k));
    }
}

// Rearrangements

proof fn lemma_peel(a: Seq<EntryView>, b: Seq<EntryView>) -> (k: int)
    requires
        a.len() > 0,
        a.to_multiset() == b.to_multiset(),
    ensures
        0 <= k < b.len(),
        b[k] == a.last(),
        a.drop_last().to_multiset() == b.remove(k).to_multiset(),
{
    broadcast use vstd::seq_lib::group_to_multiset_ensures;
    broadcast use vstd::multiset::group_multiset_axioms;

    let x = a.last();
    assert(a =~= a.drop_last().push(x));
    assert(b.to_multiset().count(x) > 0);
    choose|k: int| 0 <= k < b.len() && b[k] == x
}

proof fn lemma_records_len_rearranged(salt: Seq<u8>, a: Seq<EntryView>, b: Seq<EntryView>)
    requires
        a.to_multiset() == b.to_multiset(),
    ensures
        records(salt, a).len() == records(salt, b).len(),
    decreases a.len(),
{
    vstd::seq_lib::to_multiset_len(a);
    vstd::seq_lib::to_multiset_len(b);
    if a.len() > 0 {
        let k = lemma_peel(a, b);
        lemma_records_len_rearranged(salt, a.drop_last(), b.remove(k));
        lemma_records_len_remove(salt, b, k);
    }
}

proof fn lemma_paths_rearranged(a: Seq<EntryView>, b: Seq<EntryView>)
    requires
        a.to_multiset() == b.to_multiset(),
    ensures
        paths(a).to_multiset() == paths(b).to_multiset(),
    decreases a.len(),
{
    broadcast use vstd::seq_lib::group_to_multiset_ensures;
    broadcast use vstd::multiset::group_multiset_axioms;

    vstd::seq_lib::to_multiset_len(a);
    vstd::seq_lib::to_multiset_len(b);
    if a.len() > 0 {
        let k = lemma_peel(a, b);
        lemma_paths_rearranged(a.drop_last(), b.remove(k));
        assert(paths(a) =~= paths(a.drop_last()).push(a.last().path));
        assert(paths(b.remove(k)) =~= paths(b).remove(k));
    }
}

proof fn lemma_canonical_paths(first: Seq<EntryView>, second: Seq<EntryView>)
    requires
        paths(first) == paths(second),
    ensures
        paths(canonical_order(first)) == paths(canonical_order(second)),
        same_layout(canonical_order(first), canonical_order(second)),
{
    let a = canonical_order(first);
    let b = canonical_order(second);
    lemma_canonical_order(first);
    lemma_canonical_order(second);
    lemma_paths_rearranged(a, first);
    lemma_paths_rearranged(b, second);
    lemma_path_order_total();
    assert forall|i: int, j: int| 0 <= i < j < paths(a).len() implies #[trigger] path_order()(
        paths(a)[i],
        paths(a)[j],
    ) by {
        assert(entry_order()(a[i], a[j]));
        lemma_entry_le_orders_paths(a[i], a[j]);
    }
    assert forall|i: int, j: int| 0 <= i < j < paths(b).len() implies #[trigger] path_order()(
        paths(b)[i],
        paths(b)[j],
    ) by {
        assert(entry_order()(b[i], b[j]));
        lemma_entry_le_orders_paths(b[i], b[j]);
    }
    vstd::seq_lib::lemma_sorted_unique(paths(a), paths(b), path_order());
    assert forall|k: int| 0 <= k < a.len() implies (#[trigger] a[k]).path.len()
        == b[k].path.len() by {
        assert(paths(a)[k] == a[k].path);
    }
}

proof fn lemma_same_layout_messages(salt: Seq<u8>, first: Seq<EntryView>, second: Seq<EntryView>)
    requires
        same_layout(canonical_order(first), canonical_order(second)),
        first.to_multiset() != second.to_multiset(),
    ensures
        digest_message(salt, first) != digest_message(salt, second),
{
    let a = canonical_order(first);
    let b = canonical_order(second);
    lemma_canonical_order(first);
    lemma_canonical_order(second);
    if digest_message(salt, first) == digest_message(salt, second) {
        let whole = digest_message(salt, first);
        assert(records(salt, a) =~= whole.skip(salt.len() as int));
        assert(records(salt, b) =~= whole.skip(salt.len() as int));
        lemma_records_decode(salt, a, b);
    }
}

// The laws

/// Determinism. The digest of a tree under a salt depends on nothing but
/// the files of the tree and the salt: two enumerations that hold the same
/// entries, each as often as in the other, in whatever order, have the same
/// digest.
pub proof fn lemma_digest_is_deterministic(
    salt: Seq<u8>,
    first: Seq<EntryView>,
    second: Seq<EntryView>,
)
    requires
        first.to_multiset() == second.to_multiset(),
    ensures
        canonical_order(first) == canonical_order(second),
        digest_message(salt, first) == digest_message(salt, second),
        folder_digest(salt, first) == folder_digest(salt, second),
{
    lemma_canonical_order(first);
    lemma_canonical_order(second);
}

/// Empty tree. The digest of a tree without files is the SHA-256 digest of
/// the salt alone.
pub proof fn lemma_empty_tree_digest(salt: Seq<u8>, entries: Seq<EntryView>)
    requires
        entries.len() == 0,
    ensures
        digest_message(salt, entries) == salt,
        folder_digest(salt, entries) == sha256(salt),
{
    lemma_canonical_order(entries);
}

/// Salt sensitivity. Two different salts give one tree two different
/// messages, and so two different digests unless SHA-256 gives the two
/// messages the same digest.
pub proof fn lemma_salt_changes_digest(first: Seq<u8>, second: Seq<u8>, entries: Seq<EntryView>)
    requires
        first != second,
    ensures
        digest_message(first, entries) != digest_message(second, entries),
        folder_digest(first, entries) != folder_digest(second, entries) || sha256_collision(
            digest_message(first, entries),
            digest_message(second, entries),
        ),
{
    let order = canonical_order(entries);
    let a = digest_message(first, entries);
    let b = digest_message(second, entries);
    assert(a.len() == first.len() + records(first, order).len());
    assert(b.len() == second.len() + records(second, order).len());
    if first.len() < second.len() {
        lemma_records_len_by_salt(first, second, order);
    } else if second.len() < first.len() {
        lemma_records_len_by_salt(second, first, order);
    } else if a == b {
        assert(first =~= a.take(first.len() as int));
        assert(second =~= b.take(second.len() as int));
    }
}

/// Content sensitivity. When the content of one file changes, the message
/// of the tree changes unless SHA-256 gives the old and the new content the
/// same digest; the digest of the tree then changes unless SHA-256 gives the
/// two messages the same digest. Flipping one byte of a file is such a
/// change.
pub proof fn lemma_content_changes_digest(
    salt: Seq<u8>,
    entries: Seq<EntryView>,
    i: int,
    content: Seq<u8>,
    changed: Seq<u8>,
)
    requires
        0 <= i < entries.len(),
        entries[i].content_hash == sha256(content),
        changed != content,
    ensures
        folder_digest(salt, rewritten(entries, i, changed)) != folder_digest(salt, entries)
            || sha256_collision(content, changed) || sha256_collision(
            digest_message(salt, entries),
            digest_message(salt, rewritten(entries, i, changed)),
        ),
{
    broadcast use vstd::seq_lib::group_to_multiset_ensures;
    broadcast use vstd::multiset::group_multiset_axioms;

    let after = rewritten(entries, i, changed);
    if sha256(changed) != sha256(content) {
        assert(paths(after) =~= paths(entries));
        lemma_canonical_paths(entries, after);
        assert(after.to_multiset() != entries.to_multiset()) by {
            assert(after.to_multiset().count(after[i]) == entries.to_multiset().count(after[i])
                + 1);
        }
        lemma_same_layout_messages(salt, entries, after);
    }
}

/// Structure sensitivity. When a file gets another path, by a new name or
/// by a move to another directory, the digest of the tree changes unless
/// SHA-256 gives the two messages the same digest. This is stated of a new
/// path that differs in length from the old, and of one that leaves the
/// records of all files at their places in the message.
pub proof fn lemma_rename_changes_digest(
    salt: Seq<u8>,
    entries: Seq<EntryView>,
    i: int,
    path: Seq<u8>,
)
    requires
        0 <= i < entries.len(),
        path != entries[i].path,
        path.len() != entries[i].path.len() || same_layout(
            canonical_order(entries),
            canonical_order(renamed(entries, i, path)),
        ),
    ensures
        digest_message(salt, renamed(entries, i, path)) != digest_message(salt, entries),
        folder_digest(salt, renamed(entries, i, path)) != folder_digest(salt, entries)
            || sha256_collision(
            digest_message(salt, entries),
            digest_message(salt, renamed(entries, i, path)),
        ),
{
    broadcast use vstd::seq_lib::group_to_multiset_ensures;
    broadcast use vstd::multiset::group_multiset_axioms;

    let after = renamed(entries, i, path);
    lemma_canonical_order(entries);
    lemma_canonical_order(after);
    if path.len() != entries[i].path.len() {
        let before_len = records(salt, canonical_order(entries)).len();
        let after_len = records(salt, canonical_order(after)).len();
        lemma_records_len_rearranged(salt, canonical_order(entries), entries);
        lemma_records_len_rearranged(salt, canonical_order(after), after);
        lemma_records_len_remove(salt, entries, i);
        lemma_records_len_remove(salt, after, i);
        assert(after.remove(i) =~= entries.remove(i));
        assert(digest_message(salt, entries).len() == salt.len() + before_len);
        assert(digest_message(salt, after).len() == salt.len() + after_len);
    } else {
        assert(after.to_multiset() != entries.to_multiset()) by {
            assert(after.to_multiset().count(after[i]) == entries.to_multiset().count(after[i])
                + 1);
        }
        lemma_same_layout_messages(salt, entries, after);
    }
}

/// Removal and addition. A tree from which a file is taken away has another
/// digest than before unless SHA-256 gives the two messages the same digest;
/// read from the smaller tree to the larger, the same holds of a file that is
/// added.
pub proof fn lemma_removal_changes_digest(salt: Seq<u8>, entries: Seq<EntryView>, i: int)
    requires
        0 <= i < entries.len(),
    ensures
        digest_message(salt, entries.remove(i)) != digest_message(salt, entries),
        folder_digest(salt, entries.remove(i)) != folder_digest(salt, entries)
            || sha256_collision(
            digest_message(salt, entries),
            digest_message(salt, entries.remove(i)),
        ),
{
    let before = canonical_order(entries);
    let after = canonical_order(entries.remove(i));
    lemma_canonical_order(entries);
    lemma_canonical_order(entries.remove(i));
    lemma_records_len_rearranged(salt, before, entries);
    lemma_records_len_rearranged(salt, after, entries.remove(i));
    lemma_records_len_remove(salt, entries, i);
    assert(digest_message(salt, entries).len() == salt.len() + records(salt, before).len());
    assert(digest_message(salt, entries.remove(i)).len() == salt.len() + records(
        salt,
        after,
    ).len());
}

/// Paths, not names. Each file enters the message under its whole relative
/// path, so two files are never taken for one another, whatever their names:
/// when two files at different paths exchange their contents, the digest of
/// the tree changes unless SHA-256 gives the two contents, or the two
/// messages, the same digest. Two files of one name in different directories
/// are such a pair.
pub proof fn lemma_exchange_changes_digest(
    salt: Seq<u8>,
    entries: Seq<EntryView>,
    i: int,
    j: int,
    content_i: Seq<u8>,
    content_j: Seq<u8>,
)
    requires
        0 <= i < entries.len(),
        0 <= j < entries.len(),
        entries[i].path != entries[j].path,
        entries[i].content_hash == sha256(content_i),
        entries[j].content_hash == sha256(content_j),
        content_i != content_j,
    ensures
        ({
            let exchanged = rewritten(rewritten(entries, i, content_j), j, content_i);
            folder_digest(salt, exchanged) != folder_digest(salt, entries) || sha256_collision(
                content_i,
                content_j,
            ) || sha256_collision(digest_message(salt, entries), digest_message(salt, exchanged))
        }),
{
    broadcast use vstd::seq_lib::group_to_multiset_ensures;
    broadcast use vstd::multiset::group_multiset_axioms;

    let middle = rewritten(entries, i, content_j);
    let exchanged = rewritten(middle, j, content_i);
    if sha256(content_i) != sha256(content_j) {
        assert(paths(exchanged) =~= paths(entries));
        lemma_canonical_paths(entries, exchanged);
        assert(exchanged.to_multiset() != entries.to_multiset()) by {
            let e = entries[i];
            assert(middle.to_multiset().count(e) == entries.to_multiset().count(e) - 1);
        }
        lemma_same_layout_messages(salt, entries, exchanged);
    }
}

/// The text of a digest stands for the digest: two digests have the same
/// hexadecimal text only if they are the same.
pub proof fn lemma_digest_text_is_faithful(a: [u8; 32], b: [u8; 32])
    ensures
        hex_text(a@) == hex_text(b@) <==> a == b,
{
    if hex_text(a@) == hex_text(b@) {
        lemma_hex_text_injective(a@, b@);
        assert(a =~= b);
    }
}

/// Round trip. Validating a tree against the text of its own digest always
/// reports a match.
pub proof fn lemma_round_trip(salt: Seq<u8>, entries: Seq<EntryView>)
    ensures
        validation(hex_text(folder_digest(salt, entries)@), entries, salt) == Ok::<
            OutcomeView,
            DigestError,
        >(
            OutcomeView {
                expected: hex_text(folder_digest(salt, entries)@),
                actual: hex_text(folder_digest(salt, entries)@),
                matched: true,
            },
        ),
{
    lemma_hex_text_shape(folder_digest(salt, entries)@);
}

/// Format rejection. An expected text whose length is not 64 is rejected as
/// malformed, whatever the tree holds.
pub proof fn lemma_wrong_length_is_rejected(
    expected: Seq<char>,
    salt: Seq<u8>,
    entries: Seq<EntryView>,
)
    requires
        expected.len() != 64,
    ensures
        validation(expected, entries, salt) == Err::<OutcomeView, DigestError>(
            DigestError::MalformedDigest,
        ),
{
}

} // verus!
