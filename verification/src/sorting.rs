//! Sorting file entries into canonical order.

use crate::entry::{
    canonical_order, entry_le, entry_order, entry_precedes, lemma_canonical_order,
    lemma_entry_order_total, EntryView, FileEntry,
};
use vstd::multiset::Multiset;
use vstd::prelude::*;
use vstd::relations::{sorted_by, total_ordering};

verus! {

/// Every entry of `low` comes no later than every entry of `high`.
spec fn all_le(low: Seq<EntryView>, high: Seq<EntryView>) -> bool {
    forall|i: int, j: int|
        0 <= i < low.len() && 0 <= j < high.len() ==> entry_le(#[trigger] low[i], #[trigger] high[j])
}

/// Every entry comes no earlier than those after it.
spec fn descending(s: Seq<EntryView>) -> bool {
    forall|i: int, j: int| 0 <= i < j < s.len() ==> entry_le(#[trigger] s[j], #[trigger] s[i])
}

proof fn lemma_no_entries(s: Seq<EntryView>)
    requires
        s.len() == 0,
    ensures
        s.to_multiset() == Multiset::<EntryView>::empty(),
{
    broadcast use vstd::seq_lib::to_multiset_len;
    broadcast use vstd::multiset::group_multiset_axioms;

    assert(s.to_multiset().len() == 0);
    assert(s.to_multiset() =~= Multiset::<EntryView>::empty());
}

proof fn lemma_push_views(before: Vec<FileEntry>, after: Vec<FileEntry>, entry: FileEntry)
    requires
        after@ == before@.push(entry),
    ensures
        after.deep_view() == before.deep_view().push(entry@),
        after.deep_view().to_multiset() == before.deep_view().to_multiset().insert(entry@),
{
    broadcast use vstd::seq_lib::to_multiset_build;

    assert(after.deep_view() =~= before.deep_view().push(entry@));
}

proof fn lemma_pop_views(before: Vec<FileEntry>, after: Vec<FileEntry>)
    requires
        before@.len() > 0,
        after@ == before@.subrange(0, before@.len() - 1),
    ensures
        after.deep_view() == before.deep_view().drop_last(),
        before.deep_view().last() == before@.last()@,
        before.deep_view().to_multiset() == after.deep_view().to_multiset().insert(
            before@.last()@,
        ),
{
    broadcast use vstd::seq_lib::to_multiset_build;

    assert(after.deep_view() =~= before.deep_view().drop_last());
    assert(before.deep_view() =~= after.deep_view().push(before@.last()@));
}

/// The last entry of a run comes no earlier than any entry of that run, nor
/// than any entry of another run whose last entry it follows.
proof fn lemma_last_is_latest(run: Seq<EntryView>, other: Seq<EntryView>)
    requires
        sorted_by(run, entry_order()),
        sorted_by(other, entry_order()),
        run.len() > 0,
        other.len() > 0 ==> entry_le(other.last(), run.last()),
    ensures
        all_le(run, seq![run.last()]),
        all_le(other, seq![run.last()]),
{
    lemma_entry_order_total();
    let latest = run.last();
    assert forall|i: int| 0 <= i < run.len() implies entry_le(#[trigger] run[i], latest) by {
        assert(i < run.len() - 1 ==> entry_order()(run[i], run[run.len() - 1]));
        assert(entry_order()(latest, latest));
    }
    assert forall|i: int| 0 <= i < other.len() implies entry_le(#[trigger] other[i], latest) by {
        assert(i < other.len() - 1 ==> entry_order()(other[i], other[other.len() - 1]));
        assert(entry_order()(other.last(), other.last()));
        assert(entry_order()(other[i], other.last()));
        assert(entry_order()(other.last(), latest));
    }
}

/// An entry that lies between two runs can be put on top of the higher one,
/// which is held largest first.
proof fn lemma_stack_grows(low: Seq<EntryView>, entry: EntryView, stack: Seq<EntryView>)
    requires
        descending(stack),
        all_le(low, seq![entry]),
        all_le(seq![entry], stack),
    ensures
        descending(stack.push(entry)),
        all_le(low, stack.push(entry)),
{
    let grown = stack.push(entry);
    assert forall|i: int, j: int| 0 <= i < j < grown.len() implies entry_le(
        #[trigger] grown[j],
        #[trigger] grown[i],
    ) by {
        if j == stack.len() {
            assert(entry_le(seq![entry][0], stack[i]));
        }
    }
    assert forall|i: int, j: int| 0 <= i < low.len() && 0 <= j < grown.len() implies entry_le(
        #[trigger] low[i],
        #[trigger] grown[j],
    ) by {
        lemma_entry_order_total();
        assert(entry_le(low[i], seq![entry][0]));
        if j < stack.len() {
            assert(entry_le(seq![entry][0], stack[j]));
            assert(entry_order()(low[i], entry) && entry_order()(entry, stack[j]));
        }
    }
}

/// Merges two canonically ordered runs into one.
fn merge_runs(left: Vec<FileEntry>, right: Vec<FileEntry>) -> (merged: Vec<FileEntry>)
    requires
        sorted_by(left.deep_view(), entry_order()),
        sorted_by(right.deep_view(), entry_order()),
    ensures
        sorted_by(merged.deep_view(), entry_order()),
        merged.deep_view().to_multiset() == left.deep_view().to_multiset().add(
            right.deep_view().to_multiset(),
        ),
{
    broadcast use vstd::multiset::group_multiset_axioms;

    let ghost all: Multiset<EntryView> = left.deep_view().to_multiset().add(
        right.deep_view().to_multiset(),
    );
    let mut left = left;
    let mut right = right;
    // The latest entries first: whichever run ends in the later entry gives it up.
    let mut stack: Vec<FileEntry> = Vec::new();
    proof {
        lemma_entry_order_total();
        lemma_no_entries(stack.deep_view());
    }
    while left.len() > 0 || right.len() > 0
        invariant
            total_ordering(entry_order()),
            sorted_by(left.deep_view(), entry_order()),
            sorted_by(right.deep_view(), entry_order()),
            descending(stack.deep_view()),
            all_le(left.deep_view(), stack.deep_view()),
            all_le(right.deep_view(), stack.deep_view()),
            left.deep_view().to_multiset().add(right.deep_view().to_multiset()).add(
                stack.deep_view().to_multiset(),
            ) == all,
        decreases left.len() + right.len(),
    {
        let from_right = if left.len() == 0 {
            true
        } else if right.len() == 0 {
            false
        } else {
            entry_precedes(&left[left.len() - 1], &right[right.len() - 1])
        };
        let ghost left_before = left;
        let ghost right_before = right;
        let ghost stack_before = stack;
        let entry = if from_right {
            let entry = right.pop().unwrap();
            proof {
                lemma_pop_views(right_before, right);
                lemma_last_is_latest(right_before.deep_view(), left.deep_view());
            }
            entry
        } else {
            let entry = left.pop().unwrap();
            proof {
                lemma_pop_views(left_before, left);
                if right.len() > 0 {
                    assert(entry_order()(left_before.deep_view().last(), right.deep_view().last())
                        || entry_order()(right.deep_view().last(), left_before.deep_view().last()));
                }
                lemma_last_is_latest(left_before.deep_view(), right.deep_view());
            }
            entry
        };
        stack.push(entry);
        proof {
            lemma_push_views(stack_before, stack, entry);
            let latest = seq![entry@];
            assert(all_le(latest, stack_before.deep_view())) by {
                let run = if from_right {
                    right_before.deep_view()
                } else {
                    left_before.deep_view()
                };
                assert(latest[0] == run[run.len() - 1]);
            }
            assert(all_le(left.deep_view(), latest) && all_le(right.deep_view(), latest)) by {
                assert forall|i: int| 0 <= i < left.deep_view().len() implies left.deep_view()[i]
                    == left_before.deep_view()[i] by {}
                assert forall|i: int| 0 <= i < right.deep_view().len() implies right.deep_view()[i]
                    == right_before.deep_view()[i] by {}
            }
            lemma_stack_grows(left.deep_view(), entry@, stack_before.deep_view());
            lemma_stack_grows(right.deep_view(), entry@, stack_before.deep_view());
        }
    }
    // Turning the stack over gives the entries earliest first.
    let mut merged: Vec<FileEntry> = Vec::new();
    proof {
        lemma_no_entries(left.deep_view());
        lemma_no_entries(right.deep_view());
        lemma_no_entries(merged.deep_view());
    }
    while stack.len() > 0
        invariant
            total_ordering(entry_order()),
            sorted_by(merged.deep_view(), entry_order()),
            descending(stack.deep_view()),
            all_le(merged.deep_view(), stack.deep_view()),
            merged.deep_view().to_multiset().add(stack.deep_view().to_multiset()) == all,
        decreases stack.len(),
    {
        let ghost merged_before = merged;
        let ghost stack_before = stack;
        let entry = stack.pop().unwrap();
        merged.push(entry);
        proof {
            lemma_pop_views(stack_before, stack);
            lemma_push_views(merged_before, merged, entry);
            let above = stack_before.deep_view();
            assert forall|i: int| 0 <= i < merged_before.deep_view().len() implies entry_le(
                #[trigger] merged_before.deep_view()[i],
                entry@,
            ) by {
                assert(entry@ == above[above.len() - 1]);
            }
            assert forall|j: int| 0 <= j < stack.deep_view().len() implies entry_le(
                entry@,
                #[trigger] stack.deep_view()[j],
            ) by {
                assert(stack.deep_view()[j] == above[j]);
                assert(entry@ == above[above.len() - 1]);
            }
        }
    }
    proof {
        lemma_no_entries(stack.deep_view());
    }
    merged
}

/// Puts the entries of a tree into canonical order, whatever order they were
/// enumerated in.
pub fn sort_entries(entries: Vec<FileEntry>) -> (sorted: Vec<FileEntry>)
    ensures
        sorted.deep_view() == canonical_order(entries.deep_view()),
    decreases entries.len(),
{
    broadcast use vstd::seq_lib::lemma_multiset_commutative;

    let ghost given = entries.deep_view();
    proof {
        lemma_canonical_order(given);
    }
    if entries.len() <= 1 {
        // One entry or none is in order as it stands.
        return entries;
    }
    let mut left = entries;
    let middle = left.len() / 2;
    let right = left.split_off(middle);
    proof {
        assert(given =~= left.deep_view() + right.deep_view());
        lemma_canonical_order(left.deep_view());
        lemma_canonical_order(right.deep_view());
    }
    let left_sorted = sort_entries(left);
    let right_sorted = sort_entries(right);
    merge_runs(left_sorted, right_sorted)
}

} // verus!
