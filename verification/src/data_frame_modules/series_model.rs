use crate::data_frame_modules::value_cell::{holds, holds_no, Content};
use vstd::prelude::*;

verus! {

/// One entry of a series as callers see it: its label, the key it was given
/// when it was pushed, the value it holds and the text recorded for the
/// value's type.
pub struct Row<T> {
    pub label: T,
    pub key: nat,
    pub content: Content,
    pub descriptor: Seq<char>,
}

/// A series as callers see it: its entries in logical order, and the key that
/// the next push hands out.
pub struct SeriesView<T> {
    pub rows: Seq<Row<T>>,
    pub next_key: nat,
}

impl<T> SeriesView<T> {
    /// The series without entries that has handed out no key.
    pub open spec fn empty() -> Self {
        SeriesView { rows: Seq::empty(), next_key: 0 }
    }

    /// The number of entries.
    pub open spec fn len(self) -> nat {
        self.rows.len()
    }

    /// The labels in logical order.
    pub open spec fn labels(self) -> Seq<T> {
        Seq::new(self.rows.len(), |i: int| self.rows[i].label)
    }

    /// The labels found at `positions`, one after the other.
    pub open spec fn labels_at(self, positions: Seq<usize>) -> Seq<T> {
        Seq::new(positions.len(), |k: int| self.rows[positions[k] as int].label)
    }

    /// A new last entry under the next key; the counter moves on by one.
    pub open spec fn push(self, label: T, content: Content, descriptor: Seq<char>) -> Self {
        SeriesView {
            rows: self.rows.push(Row { label, key: self.next_key, content, descriptor }),
            next_key: self.next_key + 1,
        }
    }

    /// Without the entry at `index`: the entries behind it move up by one. An
    /// index past the end removes nothing. The counter stays.
    pub open spec fn remove(self, index: int) -> Self {
        if 0 <= index < self.rows.len() {
            SeriesView { rows: self.rows.remove(index), next_key: self.next_key }
        } else {
            self
        }
    }

    /// With another value and descriptor at `index`; label and key stay. An
    /// index past the end changes nothing.
    pub open spec fn update(self, index: int, content: Content, descriptor: Seq<char>) -> Self {
        if 0 <= index < self.rows.len() {
            SeriesView {
                rows: self.rows.update(
                    index,
                    Row { content, descriptor, ..self.rows[index] },
                ),
                next_key: self.next_key,
            }
        } else {
            self
        }
    }

    /// With another value at `index`; label, key and descriptor stay.
    pub open spec fn rewrite(self, index: int, content: Content) -> Self {
        self.update(index, content, self.rows[index].descriptor)
    }

    /// No key occurs twice, and every key lies below the counter.
    pub open spec fn keys_are_fresh(self) -> bool {
        &&& forall|i: int| 0 <= i < self.rows.len() ==> (#[trigger] self.rows[i]).key < self.next_key
        &&& forall|i: int, j: int|
            0 <= i < j < self.rows.len() ==> (#[trigger] self.rows[i]).key != (
            #[trigger] self.rows[j]).key
    }

    /// What a read of type `U` at `index` gives: the value there if it is a
    /// `U`, and nothing if the index is past the end or the value is of
    /// another type.
    pub open spec fn reads<U: std::fmt::Debug + 'static>(self, index: int, r: Option<&U>) -> bool {
        match r {
            Some(v) => 0 <= index < self.rows.len() && holds(self.rows[index].content, *v),
            None => !(0 <= index < self.rows.len()) || holds_no::<U>(self.rows[index].content),
        }
    }
}

/// One change to a series.
pub enum Step<T> {
    Push { label: T, content: Content, descriptor: Seq<char> },
    Remove { index: int },
}

/// The series after one change.
pub open spec fn step<T>(view: SeriesView<T>, change: Step<T>) -> SeriesView<T> {
    match change {
        Step::Push { label, content, descriptor } => view.push(label, content, descriptor),
        Step::Remove { index } => view.remove(index),
    }
}

/// The series that the changes make of the empty one, applied in turn.
pub open spec fn run<T>(changes: Seq<Step<T>>) -> SeriesView<T>
    decreases changes.len(),
{
    if changes.len() == 0 {
        SeriesView::empty()
    } else {
        step(run(changes.drop_last()), changes.last())
    }
}

/// How many of the changes are pushes.
pub open spec fn pushes<T>(changes: Seq<Step<T>>) -> nat
    decreases changes.len(),
{
    if changes.len() == 0 {
        0
    } else {
        pushes(changes.drop_last()) + (if changes.last() is Push { 1nat } else { 0nat })
    }
}

/// All the changes are pushes.
pub open spec fn only_pushes<T>(changes: Seq<Step<T>>) -> bool {
    forall|i: int| 0 <= i < changes.len() ==> #[trigger] changes[i] is Push
}

} // verus!
