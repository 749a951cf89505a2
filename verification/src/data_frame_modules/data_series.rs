use crate::data_frame_modules::label_order::{compares_as_specified, orders_totally};
use crate::data_frame_modules::rendering::{compose_line, is_line_for, line_text};
use crate::data_frame_modules::series_index::SeriesIndex;
use crate::data_frame_modules::series_model::{Row, SeriesView};
use crate::data_frame_modules::sorting::{
    as_ints, descending_positions_of, is_ascending, is_descending, is_permutation, keeps_ties,
    keeps_ties_descending, labels_at, labels_of, reordered, sort_by_label,
};
use crate::data_frame_modules::value_cell::{
    debug_text, erased, holds, holds_type, type_descriptor, ValueCell,
};
use std::collections::hash_map::Entry;
use std::collections::HashMap;
use std::fmt::Debug;
use vstd::prelude::*;

verus! {

/// Why an update left the series as it was.
#[derive(Debug, Clone, Copy, PartialEq, Eq)]
pub enum UpdateError {
    /// The slot holds a value of another type than the one offered.
    TypeMismatch,
}

/// A column of values of any types, each under a label. The logical order of
/// the entries is kept apart from where the values are stored: every value
/// lives under a key of its own that it keeps for as long as it is there.
pub struct DataSeries<T: Clone + Debug + Ord> {
    data: HashMap<usize, ValueCell>,
    type_map: HashMap<usize, String>,
    index: Vec<SeriesIndex<T>>,
    next_key_value: usize,
}

impl<T: Clone + Debug + Ord> View for DataSeries<T> {
    type V = SeriesView<T>;

    open spec fn view(&self) -> SeriesView<T> {
        SeriesView {
            rows: Seq::new(
                self.order().len(),
                |i: int|
                    Row {
                        label: self.order()[i].label,
                        key: self.order()[i].key as nat,
                        content: self.cells()[self.order()[i].key]@,
                        descriptor: self.descriptors()[self.order()[i].key]@,
                    },
            ),
            next_key: self.next_key() as nat,
        }
    }
}

impl<T: Clone + Debug + Ord> DataSeries<T> {
    /// The logical order: one label and key for each entry.
    pub closed spec fn order(&self) -> Seq<SeriesIndex<T>> {
        self.index@
    }

    /// The stored cells, by key.
    pub closed spec fn cells(&self) -> Map<usize, ValueCell> {
        self.data@
    }

    /// The recorded type descriptors, by key.
    pub closed spec fn descriptors(&self) -> Map<usize, String> {
        self.type_map@
    }

    /// The key that the next push hands out.
    pub closed spec fn next_key(&self) -> usize {
        self.next_key_value
    }

    /// Order and storage agree: as many cells and as many descriptors are
    /// stored as the order has entries, each entry has its cell and its
    /// descriptor, no key occurs twice, and no key has reached the counter.
    pub open spec fn wf(&self) -> bool {
        &&& self.cells().dom().finite()
        &&& self.descriptors().dom().finite()
        &&& self.cells().len() == self.order().len()
        &&& self.descriptors().len() == self.order().len()
        &&& forall|i: int|
            0 <= i < self.order().len() ==> {
                &&& self.cells().contains_key(#[trigger] self.order()[i].key)
                &&& self.descriptors().contains_key(self.order()[i].key)
            }
        &&& forall|i: int, j: int|
            0 <= i < j < self.order().len() ==> #[trigger] self.order()[i].key
                != #[trigger] self.order()[j].key
        &&& forall|k: usize| #[trigger] self.cells().contains_key(k) ==> k < self.next_key()
        &&& forall|k: usize| #[trigger] self.descriptors().contains_key(k) ==> k < self.next_key()
    }

    /// An empty series, whose first key will be 0.
    pub fn new() -> (series: DataSeries<T>)
        ensures
            series.wf(),
            series@ == SeriesView::<T>::empty(),
            series.cells() == Map::<usize, ValueCell>::empty(),
            series.descriptors() == Map::<usize, String>::empty(),
    {
        let series = DataSeries {
            data: HashMap::new(),
            type_map: HashMap::new(),
            index: Vec::new(),
            next_key_value: 0,
        };
        proof {
            assert(series@.rows =~= Seq::<Row<T>>::empty());
        }
        series
    }

    /// Appends an entry under the next key, with `descriptor` as the text
    /// recorded for the value's type.
    pub fn push_described<U: Debug + 'static>(&mut self, label: T, value: U, descriptor: String)
        requires
            old(self).wf(),
            old(self)@.next_key < usize::MAX,
        ensures
            final(self).wf(),
            final(self)@ == old(self)@.push(label, erased(value), descriptor@),
    {
        let key = self.next_key_value;
        self.index.push(SeriesIndex::new(label, key));
        self.data.insert(key, ValueCell::new(value));
        self.type_map.insert(key, descriptor);
        self.next_key_value = key + 1;
        proof {
            assert(self@.rows =~= old(self)@.push(label, erased(value), descriptor@).rows);
        }
    }

    /// Appends an entry under the next key. The descriptor recorded is a text
    /// that stands for the type of `value`.
    pub fn push<U: Debug + 'static>(&mut self, label: T, value: U)
        requires
            old(self).wf(),
            old(self)@.next_key < usize::MAX,
        ensures
            final(self).wf(),
            final(self)@ == old(self)@.push(
                label,
                erased(value),
                final(self)@.rows.last().descriptor,
            ),
    {
        self.push_described(label, value, type_descriptor::<U>());
    }

    /// The value at `index`, if there is an entry and its value is a `U`.
    pub fn get<U: Debug + 'static>(&self, index: usize) -> (r: Option<&U>)
        requires
            self.wf(),
        ensures
            self@.reads(index as int, r),
    {
        if index < self.index.len() {
            let key = self.index[index].key;
            match self.data.get(&key) {
                Some(cell) => cell.downcast_ref::<U>(),
                None => None,
            }
        } else {
            None
        }
    }

    /// The value at `index`, to be changed in place, if there is an entry and
    /// its value is a `U`. What the caller writes is what the entry holds
    /// afterwards; nothing else changes.
    pub fn get_mut<U: Debug + 'static>(&mut self, index: usize) -> (r: Option<&mut U>)
        requires
            old(self).wf(),
        ensures
            final(self).wf(),
            final(self)@.next_key == old(self)@.next_key,
            match r {
                Some(m) => index < old(self)@.len() && holds(
                    old(self)@.rows[index as int].content,
                    *m,
                ) && final(self)@.rows =~= old(self)@.rewrite(
                    index as int,
                    erased(*final(m)),
                ).rows,
                None => final(self)@.rows =~= old(self)@.rows && old(self)@.reads(
                    index as int,
                    None::<&U>,
                ),
            },
    {
        if index < self.index.len() {
            let key = self.index[index].key;
            match self.data.entry(key) {
                Entry::Occupied(occupied) => occupied.into_mut().downcast_mut::<U>(),
                Entry::Vacant(_) => None,
            }
        } else {
            None
        }
    }

    /// Overwrites the value at `index` with one of the same type, and records
    /// `descriptor` for it. An index past the end changes nothing.
    pub fn update_described<U: Debug + 'static>(
        &mut self,
        index: usize,
        new_value: U,
        descriptor: String,
    )
        requires
            old(self).wf(),
            index < old(self)@.len() ==> holds_type::<U>(old(self)@.rows[index as int].content),
        ensures
            final(self).wf(),
            final(self)@ == old(self)@.update(index as int, erased(new_value), descriptor@),
    {
        if index < self.index.len() {
            let key = self.index[index].key;
            match self.data.entry(key) {
                Entry::Occupied(occupied) => {
                    match occupied.into_mut().downcast_mut::<U>() {
                        Some(slot) => {
                            *slot = new_value;
                            self.type_map.insert(key, descriptor);
                        },
                        None => {},
                    }
                },
                Entry::Vacant(_) => {},
            }
            proof {
                assert(self@.rows =~= old(self)@.update(
                    index as int,
                    erased(new_value),
                    descriptor@,
                ).rows);
            }
        }
    }

    /// Overwrites the value at `index` with one of the same type. The
    /// descriptor recorded afterwards stands for that type. An index past the
    /// end changes nothing.
    pub fn update<U: Debug + 'static>(&mut self, index: usize, new_value: U)
        requires
            old(self).wf(),
            index < old(self)@.len() ==> holds_type::<U>(old(self)@.rows[index as int].content),
        ensures
            final(self).wf(),
            final(self)@ == if index < old(self)@.len() {
                old(self)@.update(
                    index as int,
                    erased(new_value),
                    final(self)@.rows[index as int].descriptor,
                )
            } else {
                old(self)@
            },
    {
        self.update_described(index, new_value, type_descriptor::<U>());
    }

    /// As `update`, for a caller that does not know what the slot holds: a
    /// value of another type is refused, and the series stays as it was.
    pub fn try_update<U: Debug + 'static>(&mut self, index: usize, new_value: U) -> (r: Result<
        (),
        UpdateError,
    >)
        requires
            old(self).wf(),
        ensures
            final(self).wf(),
            r.is_err() <==> index < old(self)@.len() && !holds_type::<U>(
                old(self)@.rows[index as int].content,
            ),
            r == Err::<(), UpdateError>(UpdateError::TypeMismatch) ==> final(self)@ == old(self)@,
            r.is_ok() ==> final(self)@ == if index < old(self)@.len() {
                old(self)@.update(
                    index as int,
                    erased(new_value),
                    final(self)@.rows[index as int].descriptor,
                )
            } else {
                old(self)@
            },
    {
        let present = match self.get::<U>(index) {
            Some(v) => {
                assert(erased(*v) == self@.rows[index as int].content);
                true
            },
            None => false,
        };
        if present || index >= self.index.len() {
            self.update(index, new_value);
            Ok(())
        } else {
            Err(UpdateError::TypeMismatch)
        }
    }

    /// Takes the entry at `index` out, with its cell and its descriptor, and
    /// hands back the cell. The entries behind it move up by one; the counter
    /// stays. An index past the end removes nothing.
    pub fn remove(&mut self, index: usize) -> (r: Option<ValueCell>)
        requires
            old(self).wf(),
        ensures
            final(self).wf(),
            final(self)@ == old(self)@.remove(index as int),
            match r {
                Some(cell) => index < old(self)@.len() && cell@ == old(
                    self,
                )@.rows[index as int].content,
                None => index >= old(self)@.len(),
            },
    {
        if index < self.index.len() {
            let entry = self.index.remove(index);
            let _ = self.type_map.remove(&entry.key);
            let removed = self.data.remove(&entry.key);
            proof {
                assert(self@.rows =~= old(self)@.remove(index as int).rows);
            }
            removed
        } else {
            None
        }
    }

    /// Puts the entries in ascending order of their labels. Entries with equal
    /// labels stay in the order they had. Keys, cells, descriptors and the
    /// counter are not touched.
    pub fn sort(&mut self)
        requires
            old(self).wf(),
        ensures
            final(self).wf(),
            final(self)@.next_key == old(self)@.next_key,
            final(self).cells() == old(self).cells(),
            final(self).descriptors() == old(self).descriptors(),
            exists|p: Seq<int>|
                {
                    &&& #[trigger] reordered(old(self)@.rows, final(self)@.rows, p)
                    &&& compares_as_specified::<T>() ==> keeps_ties(final(self)@.labels(), p)
                },
            orders_totally::<T>() ==> is_ascending(final(self)@.labels()),
    {
        let p = sort_by_label(&mut self.index);
        proof {
            assert(self@.labels() =~= labels_of(self.index@));
            assert(reordered(old(self)@.rows, self@.rows, p@));
        }
    }

    /// What a line shows of the entry at `index`: its label, its type
    /// descriptor and its cell.
    pub fn parts(&self, index: usize) -> (r: Option<(&T, &String, &ValueCell)>)
        requires
            self.wf(),
        ensures
            match r {
                Some((label, descriptor, cell)) => {
                    &&& index < self@.len()
                    &&& *label == self@.rows[index as int].label
                    &&& descriptor@ == self@.rows[index as int].descriptor
                    &&& cell@ == self@.rows[index as int].content
                },
                None => index >= self@.len(),
            },
    {
        if index < self.index.len() {
            let entry = &self.index[index];
            match self.data.get(&entry.key) {
                Some(cell) => match self.type_map.get(&entry.key) {
                    Some(descriptor) => Some((&entry.label, descriptor, cell)),
                    None => None,
                },
                None => None,
            }
        } else {
            None
        }
    }

    /// The line that shows the entry at `index`: the texts of its label and
    /// of its value, as `parts` gives them, around its type descriptor.
    pub fn line(&self, index: usize) -> (r: Option<String>)
        requires
            self.wf(),
        ensures
            match r {
                Some(line) => index < self@.len() && is_line_for(
                    line@,
                    self@.rows[index as int].descriptor,
                ),
                None => index >= self@.len(),
            },
    {
        match self.parts(index) {
            Some((label, descriptor, cell)) => {
                let label_text = debug_text(label);
                let value_text = cell.format_value();
                let line = compose_line(
                    label_text.as_str(),
                    descriptor.as_str(),
                    value_text.as_str(),
                );
                assert(line@ == line_text(label_text@, descriptor@, value_text@));
                Some(line)
            },
            None => None,
        }
    }

    /// One line for each entry, in logical order.
    pub fn lines(&self) -> (lines: Vec<String>)
        requires
            self.wf(),
        ensures
            lines@.len() == self@.len(),
            forall|k: int|
                0 <= k < lines@.len() ==> is_line_for(
                    (#[trigger] lines@[k])@,
                    self@.rows[k].descriptor,
                ),
    {
        let n = self.index.len();
        let mut lines: Vec<String> = Vec::new();
        let mut i: usize = 0;
        while i < n
            invariant
                self.wf(),
                n == self@.len(),
                i <= n,
                lines@.len() == i,
                forall|k: int|
                    0 <= k < i ==> is_line_for((#[trigger] lines@[k])@, self@.rows[k].descriptor),
            decreases n - i,
        {
            match self.line(i) {
                Some(line) => {
                    lines.push(line);
                },
                None => {},
            }
            i = i + 1;
        }
        lines
    }

    /// The positions of the entries, arranged so that their labels descend;
    /// entries with equal labels in the order they have. The series is left
    /// as it is.
    pub fn descending_positions(&self) -> (positions: Vec<usize>)
        ensures
            is_permutation(as_ints(positions@), self@.len()),
            compares_as_specified::<T>() ==> keeps_ties_descending(
                self@.labels_at(positions@),
                as_ints(positions@),
            ),
            orders_totally::<T>() ==> is_descending(self@.labels_at(positions@)),
    {
        let positions = descending_positions_of(&self.index);
        proof {
            assert forall|k: int| 0 <= k < positions@.len() implies 0 <= #[trigger] positions@[k]
                < self.index@.len() by {
                assert(0 <= as_ints(positions@)[k] < self.index@.len());
            }
            assert(self@.labels_at(positions@) =~= labels_at(self.index@, positions@));
        }
        positions
    }

    /// One line for each entry, by descending label.
    pub fn lines_reverse(&self) -> (lines: Vec<String>)
        requires
            self.wf(),
        ensures
            lines@.len() == self@.len(),
            exists|positions: Seq<usize>|
                {
                    &&& #[trigger] is_permutation(as_ints(positions), self@.len())
                    &&& compares_as_specified::<T>() ==> keeps_ties_descending(
                        self@.labels_at(positions),
                        as_ints(positions),
                    )
                    &&& orders_totally::<T>() ==> is_descending(self@.labels_at(positions))
                    &&& forall|k: int|
                        0 <= k < lines@.len() ==> is_line_for(
                            (#[trigger] lines@[k])@,
                            self@.rows[positions[k] as int].descriptor,
                        )
                },
    {
        let positions = self.descending_positions();
        let n = positions.len();
        let mut lines: Vec<String> = Vec::new();
        let mut i: usize = 0;
        while i < n
            invariant
                self.wf(),
                n == self@.len(),
                is_permutation(as_ints(positions@), self@.len()),
                i <= n,
                lines@.len() == i,
                forall|k: int|
                    0 <= k < i ==> is_line_for(
                        (#[trigger] lines@[k])@,
                        self@.rows[positions@[k] as int].descriptor,
                    ),
            decreases n - i,
        {
            assert(0 <= as_ints(positions@)[i as int] < n);
            match self.line(positions[i]) {
                Some(line) => {
                    lines.push(line);
                },
                None => {},
            }
            i = i + 1;
        }
        lines
    }

    /// The number of entries.
    pub fn len(&self) -> (n: usize)
        ensures
            n == self@.len(),
    {
        self.index.len()
    }

    /// The logical order.
    pub fn index(&self) -> (order: &Vec<SeriesIndex<T>>)
        ensures
            order@ == self.order(),
    {
        &self.index
    }

    /// The stored cells, by key.
    pub fn data(&self) -> (cells: &HashMap<usize, ValueCell>)
        ensures
            cells@ == self.cells(),
    {
        &self.data
    }

    /// The recorded type descriptors, by key.
    pub fn type_map(&self) -> (descriptors: &HashMap<usize, String>)
        ensures
            descriptors@ == self.descriptors(),
    {
        &self.type_map
    }

    /// The key that the next push hands out.
    pub fn next_key_value(&self) -> (key: usize)
        ensures
            key == self@.next_key,
    {
        self.next_key_value
    }
}

impl Default for DataSeries<usize> {
    fn default() -> (series: Self)
        ensures
            series.wf(),
            series@ == SeriesView::<usize>::empty(),
    {
        Self::new()
    }
}

} // verus!
