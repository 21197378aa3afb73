//! What holds of every item, every store and every run, proved from the definitions
//! that the contracts of the library are written in.

use vstd::prelude::*;
use crate::base::{
    decremented, incremented, with_maximum, with_progress, with_status, ItemView, SeriesCounter,
    Status,
};
use crate::extra::{Command, ErrorStatus, ParamType};
use crate::pipeline::{
    alters, applied, changed, has_filter, lemma_applied_len, lemma_marked_bound,
    lemma_narrowed_bound, run_all, step, valid, SessionView,
};
use crate::store::{
    greatest_below, holds, lemma_greatest_below, marked, name_hits, names, narrowed, param_hits,
    removed, swap_removed, taken,
};

verus! {

/// The smaller of two numbers.
pub open spec fn least(a: int, b: int) -> int {
    if a <= b {
        a
    } else {
        b
    }
}

/// The highest progress an item can show: its total where that is known, else the
/// greatest 16-bit number.
pub open spec fn ceiling(item: ItemView) -> int {
    match item.maximum {
        SeriesCounter::Value(max) => max as int,
        SeriesCounter::OnGoing => u16::MAX as int,
    }
}

/// Adding to the progress never wraps around: the new progress is the true sum, cut
/// down to the highest progress the item can show.
pub proof fn law_increment_saturates(item: ItemView, value: u16)
    ensures
        incremented(item, value).progress == least(item.progress + value, ceiling(item)),
        item.progress == u16::MAX ==> incremented(item, value).progress == ceiling(item),
{
}

/// Taking from the progress never goes below zero: the new progress is the true
/// difference, raised to 0 and cut down to a known total.
pub proof fn law_decrement_saturates(item: ItemView, value: u16)
    ensures
        item.progress >= value ==> decremented(item, value).progress == least(
            item.progress - value,
            ceiling(item),
        ),
        item.progress < value ==> decremented(item, value).progress == 0,
        item.progress == 0 ==> decremented(item, value).progress == 0,
{
}

/// With a known total, setting the progress to the total completes the item, and
/// setting it to one less makes it a title being watched.
pub proof fn law_progress_derives_status(item: ItemView, max: u16)
    requires
        item.maximum == SeriesCounter::Value(max),
    ensures
        with_progress(item, max).status == Status::Complete,
        with_progress(item, max).progress == max,
        max > 0 ==> with_progress(item, (max - 1) as u16).status == Status::Watch,
        max > 0 ==> with_progress(item, (max - 1) as u16).progress == max - 1,
{
}

/// Setting a known total derives the status from the progress: complete, with the
/// progress cut down to the total, where the progress has reached it, and watching
/// where it has not.
pub proof fn law_maximum_derives_status(item: ItemView, max: u16)
    ensures
        item.progress >= max ==> with_maximum(item, SeriesCounter::Value(max)).status
            == Status::Complete && with_maximum(item, SeriesCounter::Value(max)).progress == max,
        item.progress < max ==> with_maximum(item, SeriesCounter::Value(max)).status
            == Status::Watch && with_maximum(item, SeriesCounter::Value(max)).progress
            == item.progress,
        with_maximum(item, SeriesCounter::OnGoing).status == item.status,
        with_maximum(item, SeriesCounter::OnGoing).progress == item.progress,
{
}

/// A status that was set stands: it is the status of the item, and later steps of
/// the progress leave it until the progress reaches the total. Only completing an
/// item moves its progress.
pub proof fn law_set_status_stands(item: ItemView, status: Status, value: u16)
    ensures
        with_status(item, status).status == status,
        status != Status::Complete ==> with_status(item, status).progress == item.progress,
        status == Status::Complete && item.maximum is Value ==> with_status(item, status).progress
            == ceiling(item),
        incremented(with_status(item, status), value).status == status || (incremented(
            with_status(item, status),
            value,
        ).status == Status::Complete && incremented(with_status(item, status), value).progress
            == ceiling(item)),
        decremented(with_status(item, status), value).status == status || (decremented(
            with_status(item, status),
            value,
        ).status == Status::Complete && decremented(with_status(item, status), value).progress
            == ceiling(item)),
{
}

/// No command gives an item the status that stands for an unreadable word: an item
/// has it after a command only if it had it before.
pub proof fn law_error_status_is_never_set(item: ItemView, cmd: Command)
    requires
        alters(cmd),
    ensures
        changed(item, cmd).status == Status::Error ==> item.status == Status::Error,
{
}

/// A search finds exactly the marked positions, in rising order: every position it
/// gives is marked, each is greater than the one before it, and no marked position
/// is missing.
pub proof fn law_marked(hits: Seq<bool>)
    requires
        hits.len() <= usize::MAX,
    ensures
        forall|k: int|
            0 <= k < marked(hits).len() ==> (#[trigger] marked(hits)[k]) < hits.len()
                && hits[marked(hits)[k] as int],
        forall|j: int, k: int|
            0 <= j < k < marked(hits).len() ==> marked(hits)[j] < marked(hits)[k],
        forall|p: int| 0 <= p < hits.len() && hits[p] ==> names(marked(hits), p),
    decreases hits.len(),
{
    if hits.len() > 0 {
        let front = hits.drop_last();
        let found = marked(hits);
        let before = marked(front);
        law_marked(front);
        assert forall|k: int| 0 <= k < found.len() implies (#[trigger] found[k]) < hits.len()
            && hits[found[k] as int] by {
            if k < before.len() {
                assert(found[k] == before[k]);
                assert(hits[before[k] as int] == front[before[k] as int]);
            }
        }
        assert forall|j: int, k: int| 0 <= j < k < found.len() implies found[j] < found[k] by {
            assert(found[j] == before[j]);
            if k < before.len() {
                assert(found[k] == before[k]);
            } else {
                assert(before[j] < front.len());
            }
        }
        assert forall|p: int| 0 <= p < hits.len() && hits[p] implies names(found, p) by {
            if p < front.len() {
                assert(front[p]);
                let k = choose|k: int| 0 <= k < before.len() && #[trigger] before[k] == p;
                assert(found[k] == p);
            } else {
                assert(found[found.len() - 1] == p);
            }
        }
    }
}

/// A filter keeps exactly the selected positions that hold the value, in the order
/// of the selection: what it keeps was selected, lies within the store and holds
/// the value, and it is as long as the selection only if it is the selection.
pub proof fn law_narrowed(items: Seq<ItemView>, selection: Seq<usize>, param: ParamType)
    ensures
        narrowed(items, selection, param).len() <= selection.len(),
        forall|k: int|
            0 <= k < narrowed(items, selection, param).len() ==> {
                let index = #[trigger] narrowed(items, selection, param)[k];
                index < items.len() && holds(items[index as int], param) && names(
                    selection,
                    index as int,
                )
            },
        forall|k: int|
            0 <= k < selection.len() && selection[k] < items.len() && holds(
                items[selection[k] as int],
                param,
            ) ==> names(narrowed(items, selection, param), #[trigger] selection[k] as int),
        narrowed(items, selection, param).len() == selection.len() ==> narrowed(
            items,
            selection,
            param,
        ) == selection,
    decreases selection.len(),
{
    if selection.len() > 0 {
        let front = selection.drop_last();
        let kept = narrowed(items, selection, param);
        let before = narrowed(items, front, param);
        let last = selection.last();
        law_narrowed(items, front, param);
        assert forall|k: int| 0 <= k < kept.len() implies {
            let index = #[trigger] kept[k];
            index < items.len() && holds(items[index as int], param) && names(
                selection,
                index as int,
            )
        } by {
            if k < before.len() {
                assert(kept[k] == before[k]);
                let at = choose|at: int| 0 <= at < front.len() && #[trigger] front[at] == before[k];
                assert(selection[at] == before[k]);
            } else {
                assert(selection[selection.len() - 1] == kept[k]);
            }
        }
        assert forall|k: int|
            0 <= k < selection.len() && selection[k] < items.len() && holds(
                items[selection[k] as int],
                param,
            ) implies names(kept, #[trigger] selection[k] as int) by {
            if k < front.len() {
                assert(front[k] == selection[k]);
                let at = choose|at: int| 0 <= at < before.len() && #[trigger] before[at] == front[k];
                assert(kept[at] == front[k]);
            } else {
                assert(kept[kept.len() - 1] == selection[k]);
            }
        }
        if kept.len() == selection.len() {
            assert(before.len() == front.len());
            assert(kept =~= selection);
        }
    } else {
        assert(narrowed(items, selection, param) =~= selection);
    }
}

/// No item has the status that stands for an unreadable word.
pub open spec fn readable(items: Seq<ItemView>) -> bool {
    forall|i: int| 0 <= i < items.len() ==> (#[trigger] items[i]).status != Status::Error
}

/// A command that changes a field leaves a readable list readable.
pub proof fn lemma_applied_readable(items: Seq<ItemView>, selection: Seq<usize>, cmd: Command)
    requires
        readable(items),
        alters(cmd),
    ensures
        readable(applied(items, selection, cmd)),
    decreases selection.len(),
{
    if selection.len() > 0 {
        let before = applied(items, selection.drop_last(), cmd);
        let index = selection.last();
        lemma_applied_readable(items, selection.drop_last(), cmd);
        if index < before.len() {
            law_error_status_is_never_set(before[index as int], cmd);
        }
    }
}

/// Removal leaves a readable list readable.
pub proof fn lemma_removed_readable(items: Seq<ItemView>, indices: Seq<usize>, bound: int)
    requires
        readable(items),
        0 <= bound <= items.len(),
    ensures
        readable(removed(items, indices, bound)),
    decreases bound,
{
    let index = greatest_below(indices, bound);
    if 0 <= index < bound {
        let rest = swap_removed(items, index);
        assert forall|i: int| 0 <= i < rest.len() implies (#[trigger] rest[i]).status
            != Status::Error by {
            if i == index {
                assert(rest[i] == items[items.len() - 1]);
            } else {
                assert(rest[i] == items[i]);
            }
        }
        lemma_removed_readable(rest, indices, index);
    }
}

/// No command brings the status that stands for an unreadable word into a store:
/// where no item has it before a command, none has it after.
pub proof fn law_no_command_sets_error(s: SessionView, token: Seq<char>, cmd: Command, quiet: bool)
    requires
        readable(s.items),
    ensures
        readable(step(s, token, cmd, quiet).items),
{
    match cmd {
        Command::Delete => {
            lemma_removed_readable(s.items, s.selection, s.items.len() as int);
        },
        Command::Append(name) => {
            let after = step(s, token, cmd, quiet).items;
            assert forall|i: int| 0 <= i < after.len() implies (#[trigger] after[i]).status
                != Status::Error by {
                if i < s.items.len() {
                    assert(after[i] == s.items[i]);
                }
            }
        },
        _ => {
            if alters(cmd) {
                lemma_applied_readable(s.items, s.selection, cmd);
            }
        },
    }
}

/// The selected positions below `bound`, each once, the greatest first.
pub open spec fn descending(indices: Seq<usize>, bound: int) -> Seq<int>
    decreases bound,
{
    let index = greatest_below(indices, bound);
    if 0 <= index < bound {
        seq![index] + descending(indices, index)
    } else {
        Seq::empty()
    }
}

/// `descending` lists exactly the selected positions below the bound: each is
/// selected and below the bound, each is smaller than the one before it, and no
/// selected position below the bound is missing.
pub proof fn law_descending(indices: Seq<usize>, bound: int)
    ensures
        forall|k: int|
            0 <= k < descending(indices, bound).len() ==> 0 <= (#[trigger] descending(
                indices,
                bound,
            )[k]) < bound && names(indices, descending(indices, bound)[k]),
        forall|j: int, k: int|
            0 <= j < k < descending(indices, bound).len() ==> descending(indices, bound)[j]
                > descending(indices, bound)[k],
        forall|p: int|
            0 <= p < bound && names(indices, p) ==> descending(indices, bound).contains(p),
    decreases bound,
{
    let index = greatest_below(indices, bound);
    let all = descending(indices, bound);
    lemma_greatest_below(indices, bound);
    if 0 <= index < bound {
        let rest = descending(indices, index);
        law_descending(indices, index);
        assert forall|k: int| 0 <= k < all.len() implies 0 <= (#[trigger] all[k]) < bound
            && names(indices, all[k]) by {
            if k > 0 {
                assert(all[k] == rest[k - 1]);
            }
        }
        assert forall|j: int, k: int| 0 <= j < k < all.len() implies all[j] > all[k] by {
            assert(all[k] == rest[k - 1]);
            if j > 0 {
                assert(all[j] == rest[j - 1]);
            }
        }
        assert forall|p: int| 0 <= p < bound && names(indices, p) implies all.contains(p) by {
            let k = choose|k: int| 0 <= k < indices.len() && #[trigger] indices[k] == p;
            assert(indices[k] <= index);
            if p == index {
                assert(all[0] == p);
            } else {
                assert(rest.contains(p));
                let at = choose|at: int| 0 <= at < rest.len() && rest[at] == p;
                assert(all[at + 1] == p);
            }
        }
    } else {
        assert forall|p: int| 0 <= p < bound && names(indices, p) implies all.contains(p) by {
            let k = choose|k: int| 0 <= k < indices.len() && #[trigger] indices[k] == p;
            assert(indices[k] <= index);
        }
    }
}

/// The items that removal hands out are the items at the selected positions, the
/// one at the greatest position first, each once.
pub proof fn law_taken_positions(items: Seq<ItemView>, indices: Seq<usize>, bound: int, k: int)
    requires
        0 <= bound <= items.len(),
        0 <= k < descending(indices, bound).len(),
    ensures
        taken(items, indices, bound).len() == descending(indices, bound).len(),
        taken(items, indices, bound)[k] == items[descending(indices, bound)[k]],
    decreases bound,
{
    let index = greatest_below(indices, bound);
    lemma_taken_len(items, indices, bound);
    if 0 <= index < bound {
        lemma_taken_below(items, indices, index, bound);
        if k > 0 {
            law_taken_positions(items, indices, index, k - 1);
            assert(descending(indices, bound)[k] == descending(indices, index)[k - 1]);
            assert(taken(items, indices, bound)[k] == taken(items, indices, index)[k - 1]);
        }
    }
}

/// Removal hands out one item for each selected position.
pub proof fn lemma_taken_len(items: Seq<ItemView>, indices: Seq<usize>, bound: int)
    requires
        0 <= bound <= items.len(),
    ensures
        taken(items, indices, bound).len() == descending(indices, bound).len(),
    decreases bound,
{
    let index = greatest_below(indices, bound);
    if 0 <= index < bound {
        lemma_taken_len(swap_removed(items, index), indices, index);
        lemma_taken_below(items, indices, index, bound);
        lemma_taken_len(items, indices, index);
    }
}

/// Taking one item out by a swap with the last leaves the other items, each as
/// often as it was there.
pub proof fn lemma_swap_removed(items: Seq<ItemView>, index: int)
    requires
        0 <= index < items.len(),
    ensures
        swap_removed(items, index).to_multiset() == items.to_multiset().remove(items[index]),
{
    broadcast use vstd::multiset::group_multiset_axioms;

    let gone = items[index];
    let last = items.last();
    let moved = items.update(index, last);
    let left = swap_removed(items, index);
    vstd::seq_lib::to_multiset_update(items, index, last);
    assert(moved.last() == last);
    assert(left.push(last) =~= moved);
    vstd::seq_lib::to_multiset_build(left, last);
    vstd::seq_lib::to_multiset_contains(items, gone);
    assert(items.contains(gone));
    assert(left.to_multiset().insert(last) == items.to_multiset().insert(last).remove(gone));
    assert forall|v: ItemView| left.to_multiset().count(v) == items.to_multiset().remove(
        gone,
    ).count(v) by {
        assert(left.to_multiset().insert(last).count(v) == items.to_multiset().insert(
            last,
        ).remove(gone).count(v));
    }
    assert(left.to_multiset() =~= items.to_multiset().remove(gone));
}

/// Removal loses nothing and makes nothing up: the items that stay, followed by the
/// items that are handed out, are the items that were there in another order.
pub proof fn law_removed_partition(items: Seq<ItemView>, indices: Seq<usize>, bound: int)
    requires
        0 <= bound <= items.len(),
    ensures
        (removed(items, indices, bound) + taken(items, indices, bound)).to_multiset()
            == items.to_multiset(),
    decreases bound,
{
    broadcast use vstd::multiset::group_multiset_axioms;

    let index = greatest_below(indices, bound);
    if 0 <= index < bound {
        let gone = items[index];
        let rest = swap_removed(items, index);
        let stay = removed(rest, indices, index);
        let out = taken(rest, indices, index);
        law_removed_partition(rest, indices, index);
        lemma_swap_removed(items, index);
        assert(stay + (seq![gone] + out) =~= (stay + out).insert(stay.len() as int, gone));
        vstd::seq_lib::to_multiset_insert(stay + out, stay.len() as int, gone);
        vstd::seq_lib::to_multiset_contains(items, gone);
        assert(items.contains(gone));
        assert(items.to_multiset().remove(gone).insert(gone) =~= items.to_multiset());
    } else {
        assert(removed(items, indices, bound) + taken(items, indices, bound) =~= items);
    }
}

/// What is taken below `index` does not depend on the items at `index` and behind.
pub proof fn lemma_taken_below(items: Seq<ItemView>, indices: Seq<usize>, index: int, bound: int)
    requires
        0 <= index < bound <= items.len(),
    ensures
        taken(swap_removed(items, index), indices, index) == taken(items, indices, index),
{
    lemma_taken_prefix(swap_removed(items, index), items, indices, index);
}

/// Two lists that agree below `bound` give up the same items below `bound`.
pub proof fn lemma_taken_prefix(
    a: Seq<ItemView>,
    b: Seq<ItemView>,
    indices: Seq<usize>,
    bound: int,
)
    requires
        0 <= bound <= a.len(),
        bound <= b.len(),
        forall|p: int| 0 <= p < bound ==> a[p] == b[p],
    ensures
        taken(a, indices, bound) == taken(b, indices, bound),
    decreases bound,
{
    let index = greatest_below(indices, bound);
    if 0 <= index < bound {
        lemma_taken_prefix(swap_removed(a, index), swap_removed(b, index), indices, index);
    }
}

/// The selected positions below `bound`, as a set.
pub open spec fn selected_below(indices: Seq<usize>, bound: int) -> Set<int> {
    Set::new(|p: int| 0 <= p < bound && names(indices, p))
}

/// Removal takes exactly one item for each selected position, however often the
/// position is named: the list is shorter by the number of selected positions, and
/// that many items are handed out.
pub proof fn law_removed_len(items: Seq<ItemView>, indices: Seq<usize>, bound: int)
    requires
        0 <= bound <= items.len(),
    ensures
        selected_below(indices, bound).finite(),
        removed(items, indices, bound).len() == items.len() - selected_below(indices, bound).len(),
        taken(items, indices, bound).len() == selected_below(indices, bound).len(),
    decreases bound,
{
    let index = greatest_below(indices, bound);
    lemma_greatest_below(indices, bound);
    if 0 <= index < bound {
        law_removed_len(swap_removed(items, index), indices, index);
        assert(selected_below(indices, bound) =~= selected_below(indices, index).insert(index))
            by {
            assert forall|p: int| selected_below(indices, bound).contains(p) implies p <= index by {
                let k = choose|k: int| 0 <= k < indices.len() && #[trigger] indices[k] == p;
                assert(indices[k] <= index);
            }
        }
    } else {
        assert(selected_below(indices, bound) =~= Set::<int>::empty()) by {
            assert forall|p: int| !selected_below(indices, bound).contains(p) by {
                if 0 <= p < bound && names(indices, p) {
                    let k = choose|k: int| 0 <= k < indices.len() && #[trigger] indices[k] == p;
                    assert(indices[k] <= index);
                }
            }
        }
    }
}

/// Removal keeps every item that was not selected: an item at a position that no
/// index names is still in the list afterwards.
pub proof fn law_removed_keeps(items: Seq<ItemView>, indices: Seq<usize>, bound: int, p: int)
    requires
        0 <= bound <= items.len(),
        0 <= p < items.len(),
        p >= bound || !names(indices, p),
    ensures
        removed(items, indices, bound).contains(items[p]),
    decreases bound,
{
    let index = greatest_below(indices, bound);
    lemma_greatest_below(indices, bound);
    if 0 <= index < bound {
        let rest = swap_removed(items, index);
        let q = if p == items.len() - 1 {
            index
        } else {
            p
        };
        assert(p != index);
        assert(rest[q] == items[p]);
        law_removed_keeps(rest, indices, index, q);
    } else {
        assert(items[p] == items[p]);
    }
}

/// Removal leaves in place every item in front of the smallest selected position.
pub proof fn law_removed_front(items: Seq<ItemView>, indices: Seq<usize>, bound: int, p: int)
    requires
        0 <= bound <= items.len(),
        0 <= p < items.len(),
        forall|k: int| 0 <= k < indices.len() ==> p < #[trigger] indices[k],
    ensures
        p < removed(items, indices, bound).len(),
        removed(items, indices, bound)[p] == items[p],
    decreases bound,
{
    let index = greatest_below(indices, bound);
    lemma_greatest_below(indices, bound);
    if 0 <= index < bound {
        let k = choose|k: int| 0 <= k < indices.len() && #[trigger] indices[k] == index;
        assert(p < indices[k]);
        law_removed_front(swap_removed(items, index), indices, index, p);
    }
}

/// Every selected position lies within the store after each command, if it did before.
pub proof fn law_selection_stays_valid(s: SessionView, token: Seq<char>, cmd: Command, quiet: bool)
    requires
        valid(s),
    ensures
        valid(step(s, token, cmd, quiet)),
{
    let after = step(s, token, cmd, quiet);
    match cmd {
        Command::Find(pattern) => {
            assert forall|k: int| 0 <= k < after.selection.len() implies (
            #[trigger] after.selection[k]) < after.items.len() by {
                if k >= s.selection.len() {
                    lemma_marked_bound(name_hits(s.items, pattern), k - s.selection.len());
                }
            }
        },
        Command::FindParam(param) => {
            assert forall|k: int| 0 <= k < after.selection.len() implies (
            #[trigger] after.selection[k]) < after.items.len() by {
                if k >= s.selection.len() {
                    lemma_marked_bound(param_hits(s.items, param), k - s.selection.len());
                }
            }
        },
        Command::FilterParam(param) => {
            assert forall|k: int| 0 <= k < after.selection.len() implies (
            #[trigger] after.selection[k]) < after.items.len() by {
                lemma_narrowed_bound(s.items, s.selection, param, k);
            }
        },
        Command::Append(_) => {
            assert forall|k: int| 0 <= k < after.selection.len() implies (
            #[trigger] after.selection[k]) < after.items.len() by {
                if k < s.selection.len() {
                    assert(after.selection[k] == s.selection[k]);
                }
            }
        },
        _ => {
            if alters(cmd) {
                lemma_applied_len(s.items, s.selection, cmd);
            }
        },
    }
}

/// The columns of a store never get narrower, whatever command is run.
pub proof fn law_columns_only_widen(s: SessionView, token: Seq<char>, cmd: Command, quiet: bool)
    ensures
        step(s, token, cmd, quiet).name_len >= s.name_len,
        step(s, token, cmd, quiet).series_len >= s.series_len,
{
}

/// What holds after each command holds after a whole run: the selection stays
/// within the store, the columns do not get narrower, and a readable list stays
/// readable.
pub proof fn law_run_keeps(s: SessionView, plan: Seq<(Seq<char>, Command)>, quiet: bool)
    requires
        valid(s),
    ensures
        valid(run_all(s, plan, quiet)),
        run_all(s, plan, quiet).name_len >= s.name_len,
        run_all(s, plan, quiet).series_len >= s.series_len,
        readable(s.items) ==> readable(run_all(s, plan, quiet).items),
    decreases plan.len(),
{
    if plan.len() > 0 {
        let before = run_all(s, plan.drop_last(), quiet);
        law_run_keeps(s, plan.drop_last(), quiet);
        law_selection_stays_valid(before, plan.last().0, plan.last().1, quiet);
        law_columns_only_widen(before, plan.last().0, plan.last().1, quiet);
        if readable(s.items) {
            law_no_command_sets_error(before, plan.last().0, plan.last().1, quiet);
        }
    }
}

/// Two states that differ in nothing but what they have reported.
pub open spec fn same_effect(a: SessionView, b: SessionView) -> bool {
    &&& a.items == b.items
    &&& a.name_len == b.name_len
    &&& a.series_len == b.series_len
    &&& a.selection == b.selection
    &&& a.updated == b.updated
    &&& a.saved == b.saved
    &&& a.deleted == b.deleted
}

/// What a command does to the store and the selection does not depend on what has
/// been reported so far.
pub proof fn lemma_step_same_effect(
    a: SessionView,
    b: SessionView,
    token: Seq<char>,
    cmd: Command,
    quiet: bool,
)
    requires
        same_effect(a, b),
    ensures
        same_effect(step(a, token, cmd, quiet), step(b, token, cmd, quiet)),
{
}

/// What a run does to the store and the selection does not depend on what has been
/// reported before it.
pub proof fn lemma_run_same_effect(
    a: SessionView,
    b: SessionView,
    plan: Seq<(Seq<char>, Command)>,
    quiet: bool,
)
    requires
        same_effect(a, b),
    ensures
        same_effect(run_all(a, plan, quiet), run_all(b, plan, quiet)),
    decreases plan.len(),
{
    if plan.len() > 0 {
        lemma_run_same_effect(a, b, plan.drop_last(), quiet);
        lemma_step_same_effect(
            run_all(a, plan.drop_last(), quiet),
            run_all(b, plan.drop_last(), quiet),
            plan.last().0,
            plan.last().1,
            quiet,
        );
    }
}

/// Running two lists of commands one after the other is running them as one list.
pub proof fn lemma_run_concat(
    s: SessionView,
    first: Seq<(Seq<char>, Command)>,
    second: Seq<(Seq<char>, Command)>,
    quiet: bool,
)
    ensures
        run_all(s, first + second, quiet) == run_all(run_all(s, first, quiet), second, quiet),
    decreases second.len(),
{
    if second.len() == 0 {
        assert(first + second =~= first);
    } else {
        assert((first + second).drop_last() =~= first + second.drop_last());
        lemma_run_concat(s, first, second.drop_last(), quiet);
    }
}

/// A token that is no command is no filter: with it or without it, searches report
/// or keep quiet alike.
pub proof fn lemma_invalid_command_is_no_filter(
    before: Seq<(Seq<char>, Command)>,
    token: Seq<char>,
    kind: ErrorStatus,
    after: Seq<(Seq<char>, Command)>,
)
    ensures
        has_filter(before + seq![(token, Command::Error(kind))] + after) == has_filter(
            before + after,
        ),
{
    let long = before + seq![(token, Command::Error(kind))] + after;
    let short = before + after;
    if has_filter(long) {
        let k = choose|k: int| 0 <= k < long.len() && (#[trigger] long[k]).1 is FilterParam;
        if k < before.len() {
            assert(short[k] == long[k]);
        } else {
            assert(k > before.len());
            assert(short[k - 1] == long[k]);
        }
    }
    if has_filter(short) {
        let k = choose|k: int| 0 <= k < short.len() && (#[trigger] short[k]).1 is FilterParam;
        if k < before.len() {
            assert(long[k] == short[k]);
        } else {
            assert(long[k + 1] == short[k]);
        }
    }
}

/// A token that is no command changes nothing but the report.
pub proof fn lemma_invalid_step(s: SessionView, token: Seq<char>, kind: ErrorStatus, quiet: bool)
    ensures
        same_effect(step(s, token, Command::Error(kind), quiet), s),
{
}

/// A token that is no command does not stop the run: the commands around it leave
/// the store, the selection and the flags as they would without it, and whether
/// searches report is not changed by it either. Only the report is longer.
pub proof fn law_invalid_command_is_passed_over(
    s: SessionView,
    before: Seq<(Seq<char>, Command)>,
    token: Seq<char>,
    kind: ErrorStatus,
    after: Seq<(Seq<char>, Command)>,
    quiet: bool,
)
    ensures
        same_effect(
            run_all(s, before + seq![(token, Command::Error(kind))] + after, quiet),
            run_all(s, before + after, quiet),
        ),
        has_filter(before + seq![(token, Command::Error(kind))] + after) == has_filter(
            before + after,
        ),
{
    let bad = seq![(token, Command::Error(kind))];
    let middle = run_all(s, before, quiet);
    let passed = run_all(middle, bad, quiet);
    lemma_invalid_command_is_no_filter(before, token, kind, after);
    lemma_run_concat(s, before + bad, after, quiet);
    lemma_run_concat(s, before, bad, quiet);
    lemma_run_concat(s, before, after, quiet);
    assert(same_effect(passed, middle)) by {
        lemma_run_one(middle, token, Command::Error(kind), quiet);
        lemma_invalid_step(middle, token, kind, quiet);
    }
    lemma_run_same_effect(passed, middle, after, quiet);
}

/// A run of one command is that command's step.
pub proof fn lemma_run_one(s: SessionView, token: Seq<char>, cmd: Command, quiet: bool)
    ensures
        run_all(s, seq![(token, cmd)], quiet) == step(s, token, cmd, quiet),
{
    let one = seq![(token, cmd)];
    assert(one.drop_last() =~= Seq::<(Seq<char>, Command)>::empty());
    assert(run_all(s, one.drop_last(), quiet) == s);
}

} // verus!
