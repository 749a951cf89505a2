use crate::data_frame_modules::data_series::DataSeries;
use crate::data_frame_modules::series_model::{only_pushes, pushes, run, SeriesView, Step};
use crate::data_frame_modules::sorting::{is_permutation, reordered};
use crate::data_frame_modules::value_cell::{erased, Content};
use std::fmt::Debug;
use vstd::prelude::*;
use vstd::set_lib::{lemma_int_range, lemma_subset_equality, set_int_range};

verus! {

/// A push keeps the keys apart and below the counter.
pub proof fn lemma_push_keeps_keys_fresh<T>(
    view: SeriesView<T>,
    label: T,
    content: Content,
    descriptor: Seq<char>,
)
    requires
        view.keys_are_fresh(),
    ensures
        view.push(label, content, descriptor).keys_are_fresh(),
{
}

/// A removal keeps the keys apart and below the counter.
pub proof fn lemma_remove_keeps_keys_fresh<T>(view: SeriesView<T>, index: int)
    requires
        view.keys_are_fresh(),
    ensures
        view.remove(index).keys_are_fresh(),
{
}

/// A removal leaves the counter where it was.
pub proof fn lemma_remove_keeps_counter<T>(view: SeriesView<T>, index: int)
    ensures
        view.remove(index).next_key == view.next_key,
{
}

/// Whatever is pushed and removed, starting from the empty series: the
/// counter is the number of pushes made so far, so no removal lowers it.
pub proof fn lemma_counter_counts_pushes<T>(changes: Seq<Step<T>>)
    ensures
        run(changes).next_key == pushes(changes),
    decreases changes.len(),
{
    if changes.len() > 0 {
        lemma_counter_counts_pushes(changes.drop_last());
    }
}

/// Whatever is pushed and removed, starting from the empty series: no key is
/// in use twice and every key in use lies below the counter, so the key of
/// the next push is a new one.
pub proof fn lemma_keys_stay_fresh<T>(changes: Seq<Step<T>>)
    ensures
        run(changes).keys_are_fresh(),
    decreases changes.len(),
{
    if changes.len() > 0 {
        lemma_keys_stay_fresh(changes.drop_last());
        let before = run(changes.drop_last());
        match changes.last() {
            Step::Push { label, content, descriptor } => {
                lemma_push_keeps_keys_fresh(before, label, content, descriptor);
            },
            Step::Remove { index } => {
                lemma_remove_keeps_keys_fresh(before, index);
            },
        }
    }
}

/// After nothing but pushes onto the empty series, the entry made by push
/// number `i` (counted from 0) has key `i` and stands at position `i`, and
/// the counter is the number of pushes.
pub proof fn lemma_nth_push_gets_key<T>(changes: Seq<Step<T>>)
    requires
        only_pushes(changes),
    ensures
        run(changes).len() == changes.len(),
        run(changes).next_key == changes.len(),
        forall|i: int| 0 <= i < changes.len() ==> (#[trigger] run(changes).rows[i]).key == i,
    decreases changes.len(),
{
    if changes.len() > 0 {
        let earlier = changes.drop_last();
        assert(only_pushes(earlier)) by {
            assert forall|i: int| 0 <= i < earlier.len() implies #[trigger] earlier[i] is Push by {
                assert(earlier[i] == changes[i]);
            }
        }
        lemma_nth_push_gets_key(earlier);
        assert(changes.last() == changes[changes.len() - 1]);
        assert(changes.last() is Push);
    }
}

/// The push that follows nothing but pushes onto the empty series is owed
/// for as long as fewer than `usize::MAX` of them were made: the counter is
/// their number, below the limit that `push` asks for. Its entry stands last,
/// under the key that is the number of pushes before it, and the counter
/// afterwards is the number of pushes with it.
pub proof fn lemma_next_push_after_pushes<T>(
    changes: Seq<Step<T>>,
    label: T,
    content: Content,
    descriptor: Seq<char>,
)
    requires
        only_pushes(changes),
        changes.len() < usize::MAX,
    ensures
        run(changes).next_key < usize::MAX,
        run(changes).push(label, content, descriptor).len() == changes.len() + 1,
        run(changes).push(label, content, descriptor).rows[changes.len() as int].key
            == changes.len(),
        run(changes).push(label, content, descriptor).next_key == changes.len() + 1,
{
    lemma_nth_push_gets_key(changes);
}

/// In a well-formed series the order, the cells and the descriptors are
/// equally many, and the keys in use are apart and below the counter.
pub proof fn lemma_order_and_storage_agree<T: Clone + Debug + Ord>(series: &DataSeries<T>)
    requires
        series.wf(),
    ensures
        series@.len() == series.order().len(),
        series.order().len() == series.cells().dom().len(),
        series.order().len() == series.descriptors().dom().len(),
        series@.keys_are_fresh(),
{
}

/// A value that was pushed is read back, at the position it was pushed to,
/// by a read of its own type.
pub proof fn lemma_read_after_push<T, U: Debug + 'static>(
    view: SeriesView<T>,
    label: T,
    value: U,
    descriptor: Seq<char>,
    r: Option<&U>,
)
    requires
        view.push(label, erased(value), descriptor).reads(view.len() as int, r),
    ensures
        r == Some(&value),
{
    let pushed = view.push(label, erased(value), descriptor);
    assert(pushed.rows[view.len() as int].content == erased(value));
}

/// A value that an update wrote is read back by a read of its own type.
pub proof fn lemma_read_after_update<T, U: Debug + 'static>(
    view: SeriesView<T>,
    index: int,
    value: U,
    descriptor: Seq<char>,
    r: Option<&U>,
)
    requires
        0 <= index < view.len(),
        view.update(index, erased(value), descriptor).reads(index, r),
    ensures
        r == Some(&value),
{
    let updated = view.update(index, erased(value), descriptor);
    assert(updated.rows[index].content == erased(value));
}

/// An update touches one entry's value and descriptor and nothing else.
pub proof fn lemma_update_is_local<T>(
    view: SeriesView<T>,
    index: int,
    content: Content,
    descriptor: Seq<char>,
)
    requires
        0 <= index < view.len(),
    ensures
        view.update(index, content, descriptor).len() == view.len(),
        view.update(index, content, descriptor).next_key == view.next_key,
        view.update(index, content, descriptor).rows[index].label == view.rows[index].label,
        view.update(index, content, descriptor).rows[index].key == view.rows[index].key,
        forall|k: int|
            0 <= k < view.len() && k != index ==> #[trigger] view.update(
                index,
                content,
                descriptor,
            ).rows[k] == view.rows[k],
{
}

/// Removing the entry at `index` leaves the entries before it where they
/// were, moves each entry behind it up by one, and makes the series one
/// shorter.
pub proof fn lemma_remove_shifts<T>(view: SeriesView<T>, index: int)
    requires
        0 <= index < view.len(),
    ensures
        view.remove(index).len() == view.len() - 1,
        forall|k: int| 0 <= k < index ==> #[trigger] view.remove(index).rows[k] == view.rows[k],
        forall|k: int|
            index <= k < view.len() - 1 ==> #[trigger] view.remove(index).rows[k] == view.rows[k
                + 1],
{
}

/// A push after a removal appends at the new last position, under a key
/// above every key that was in use before the removal.
pub proof fn lemma_push_after_remove<T>(
    view: SeriesView<T>,
    index: int,
    label: T,
    content: Content,
    descriptor: Seq<char>,
)
    requires
        view.keys_are_fresh(),
        0 <= index < view.len(),
    ensures
        view.remove(index).push(label, content, descriptor).len() == view.len(),
        view.remove(index).push(label, content, descriptor).rows.last().label == label,
        view.remove(index).push(label, content, descriptor).rows.last().content == content,
        view.remove(index).push(label, content, descriptor).rows.last().key == view.next_key,
        forall|k: int|
            0 <= k < view.len() ==> (#[trigger] view.rows[k]).key < view.remove(index).push(
                label,
                content,
                descriptor,
            ).rows.last().key,
{
}

/// The empty series has nothing to read and nothing to remove, at any index.
pub proof fn lemma_empty_gives_nothing<T, U: Debug + 'static>(index: int, r: Option<&U>)
    requires
        SeriesView::<T>::empty().reads(index, r),
    ensures
        r is None,
        SeriesView::<T>::empty().remove(index) == SeriesView::<T>::empty(),
        SeriesView::<T>::empty().len() == 0,
        SeriesView::<T>::empty().next_key == 0,
{
}

/// A permutation of `n` positions names each of them.
pub proof fn lemma_permutation_names_all(p: Seq<int>, n: nat, j: int)
    requires
        is_permutation(p, n),
        0 <= j < n,
    ensures
        exists|k: int| 0 <= k < n && #[trigger] p[k] == j,
{
    let range = set_int_range(0, n as int);
    assert(p.no_duplicates());
    p.unique_seq_to_set();
    lemma_int_range(0, n as int);
    vstd::seq_lib::seq_to_set_is_finite(p);
    assert(p.to_set().subset_of(range)) by {
        assert forall|x: int| p.to_set().contains(x) implies range.contains(x) by {
            let k = choose|k: int| 0 <= k < p.len() && p[k] == x;
            assert(0 <= p[k] < n);
        }
    }
    lemma_subset_equality(p.to_set(), range);
    assert(range.contains(j));
    assert(p.to_set().contains(j));
    assert(p.contains(j));
}

/// Putting entries in another order neither adds nor loses one: every entry
/// found afterwards was there before, as it is, and every entry that was
/// there is found afterwards.
pub proof fn lemma_reordered_keeps_all<A>(before: Seq<A>, after: Seq<A>, p: Seq<int>)
    requires
        reordered(before, after, p),
    ensures
        forall|k: int| 0 <= k < after.len() ==> before.contains(#[trigger] after[k]),
        forall|j: int| 0 <= j < before.len() ==> after.contains(#[trigger] before[j]),
{
    assert forall|k: int| 0 <= k < after.len() implies before.contains(#[trigger] after[k]) by {
        assert(0 <= p[k] < before.len());
        assert(before[p[k]] == after[k]);
    }
    assert forall|j: int| 0 <= j < before.len() implies after.contains(#[trigger] before[j]) by {
        lemma_permutation_names_all(p, before.len(), j);
        let k = choose|k: int| 0 <= k < before.len() && #[trigger] p[k] == j;
        assert(after[k] == before[j]);
    }
}

} // verus!
