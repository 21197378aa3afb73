//! The record store: the list of items and the two column widths that listings are
//! aligned by.

use vstd::prelude::*;
use vstd::string::StringExecFns;
use crate::base::{
    counter_text, counter_value, decremented, empty_item, incremented, rederived, settled,
    status_name, with_maximum, with_name, with_progress, with_rate, with_status, Item, ItemView,
    SeriesCounter, Status,
};
use crate::extra::ParamType;
use crate::pattern::{pattern_matches, BadPattern, Matcher};
use crate::text::{
    append_decimal, append_padded, count_digits, decimal, decimal_text, digit_count, pad_left,
};

verus! {

/// The list of tracked items with its column widths.
///
/// The widths only grow: `push` widens them, and nothing narrows them, not even the
/// removal of the item that set them.
pub struct AnimeBase {
    /// The items, in the order they were added but for what a removal has moved.
    pub list: Vec<Item>,
    /// Width of the name column: the greatest byte length of a name that was pushed.
    pub name_len: usize,
    /// Width of the number columns: the greatest digit count of a progress or a total
    /// that was pushed.
    pub series_len: usize,
}

impl View for AnimeBase {
    type V = Seq<ItemView>;

    open spec fn view(&self) -> Seq<ItemView> {
        Seq::new(self.list@.len(), |i: int| self.list@[i]@)
    }
}

/// The length of a text in bytes, as UTF-8 stores it.
pub open spec fn byte_len(s: Seq<char>) -> usize {
    vstd::utf8::encode_utf8(s).len() as usize
}

/// The greater of two widths.
pub open spec fn wider(a: usize, b: usize) -> usize {
    if a >= b {
        a
    } else {
        b
    }
}

/// The width that the numbers of `item` ask for: the digit count of the greater of
/// its progress and its total.
pub open spec fn number_width(item: ItemView) -> usize {
    let total = counter_value(item.maximum);
    digit_count(
        if total >= item.progress {
            total as nat
        } else {
            item.progress as nat
        },
    ) as usize
}

/// `items` with the entry at `index` replaced, or `items` as it is where there is no
/// such entry.
pub open spec fn replaced(items: Seq<ItemView>, index: usize, item: ItemView) -> Seq<ItemView> {
    if index < items.len() {
        items.update(index as int, item)
    } else {
        items
    }
}

/// One line of a listing: the name and the progress are pushed to the right in
/// columns of the widths given, the score in a column of two.
pub open spec fn format_line(item: ItemView, name_len: usize, series_len: usize) -> Seq<char> {
    "'"@ + pad_left(item.name, name_len as nat) + "', status: "@ + status_name(item.status)
        + ", progress: "@ + pad_left(decimal(item.progress as nat), series_len as nat) + " / "@
        + counter_text(item.maximum) + ", rate: "@ + pad_left(decimal(item.rate as nat), 2)
        + " / 10"@
}

/// The stored line of an item, with the line break that ends it.
pub open spec fn record_line(item: ItemView) -> Seq<char> {
    "\""@ + item.name + "\" "@ + status_name(item.status) + " progress "@ + decimal(
        item.progress as nat,
    ) + "/"@ + counter_text(item.maximum) + " score "@ + decimal(item.rate as nat) + "\n"@
}

/// The stored text of a list: the line of each item, in order.
pub open spec fn serialized(items: Seq<ItemView>) -> Seq<char>
    decreases items.len(),
{
    if items.len() == 0 {
        Seq::empty()
    } else {
        serialized(items.drop_last()) + record_line(items.last())
    }
}

/// The listing of a list: the line of each item, with a line break between two.
pub open spec fn listing(items: Seq<ItemView>, name_len: usize, series_len: usize) -> Seq<char>
    decreases items.len(),
{
    if items.len() == 0 {
        Seq::empty()
    } else if items.len() == 1 {
        format_line(items[0], name_len, series_len)
    } else {
        listing(items.drop_last(), name_len, series_len) + "\n"@ + format_line(
            items.last(),
            name_len,
            series_len,
        )
    }
}

/// Whether `item` holds the value `param` in the field that `param` names.
pub open spec fn holds(item: ItemView, param: ParamType) -> bool {
    match param {
        ParamType::Status(value) => item.status == value,
        ParamType::Progress(value) => item.progress == value,
        ParamType::Maximum(value) => item.maximum == value,
        ParamType::Rate(value) => item.rate == value,
    }
}

/// For each item, whether it holds `param`.
pub open spec fn param_hits(items: Seq<ItemView>, param: ParamType) -> Seq<bool> {
    Seq::new(items.len(), |i: int| holds(items[i], param))
}

/// For each item, whether its name matches `pattern`.
pub open spec fn name_hits(items: Seq<ItemView>, pattern: Seq<char>) -> Seq<bool> {
    Seq::new(items.len(), |i: int| pattern_matches(pattern, items[i].name))
}

/// The positions that are marked in `hits`, in rising order.
pub open spec fn marked(hits: Seq<bool>) -> Seq<usize>
    decreases hits.len(),
{
    if hits.len() == 0 {
        Seq::empty()
    } else if hits.last() {
        marked(hits.drop_last()).push((hits.len() - 1) as usize)
    } else {
        marked(hits.drop_last())
    }
}

/// The entries of `selection` that point at an item holding `param`, in the order
/// of `selection`. An entry that points past the end of the list is left out.
pub open spec fn narrowed(items: Seq<ItemView>, selection: Seq<usize>, param: ParamType) -> Seq<
    usize,
>
    decreases selection.len(),
{
    if selection.len() == 0 {
        Seq::empty()
    } else {
        let before = narrowed(items, selection.drop_last(), param);
        let index = selection.last();
        if index < items.len() && holds(items[index as int], param) {
            before.push(index)
        } else {
            before
        }
    }
}

/// `items` without the entry at `index`: the last entry takes its place.
pub open spec fn swap_removed<T>(items: Seq<T>, index: int) -> Seq<T> {
    items.update(index, items.last()).drop_last()
}

/// The greatest of `indices` that is below `bound`, or -1 where none is.
pub open spec fn greatest_below(indices: Seq<usize>, bound: int) -> int
    decreases indices.len(),
{
    if indices.len() == 0 {
        -1
    } else {
        let before = greatest_below(indices.drop_last(), bound);
        let index = indices.last() as int;
        if index < bound && index > before {
            index
        } else {
            before
        }
    }
}

/// What is left of `items` once each entry below `bound` that `indices` names has
/// been removed, the greatest index first, each by `swap_removed`. An index that is
/// named twice counts once.
pub open spec fn removed<T>(items: Seq<T>, indices: Seq<usize>, bound: int) -> Seq<T>
    decreases bound,
{
    let index = greatest_below(indices, bound);
    if 0 <= index < bound {
        removed(swap_removed(items, index), indices, index)
    } else {
        items
    }
}

/// The entries that `removed` takes out, in the order it takes them.
pub open spec fn taken<T>(items: Seq<T>, indices: Seq<usize>, bound: int) -> Seq<T>
    decreases bound,
{
    let index = greatest_below(indices, bound);
    if 0 <= index < bound {
        seq![items[index]] + taken(swap_removed(items, index), indices, index)
    } else {
        Seq::empty()
    }
}

/// The views of a list of items.
pub open spec fn item_views(items: Seq<Item>) -> Seq<ItemView> {
    Seq::new(items.len(), |i: int| items[i]@)
}

/// Whether `indices` names the position `p`.
pub open spec fn names(indices: Seq<usize>, p: int) -> bool {
    exists|k: int| 0 <= k < indices.len() && #[trigger] indices[k] == p
}

/// The greatest index is one of the indices, and no index lies between it and the bound.
pub proof fn lemma_greatest_below(indices: Seq<usize>, bound: int)
    ensures
        -1 <= greatest_below(indices, bound),
        greatest_below(indices, bound) >= 0 ==> greatest_below(indices, bound) < bound && names(
            indices,
            greatest_below(indices, bound),
        ),
        forall|k: int|
            0 <= k < indices.len() && indices[k] < bound ==> #[trigger] indices[k]
                <= greatest_below(indices, bound),
    decreases indices.len(),
{
    if indices.len() > 0 {
        let front = indices.drop_last();
        lemma_greatest_below(front, bound);
        let best = greatest_below(indices, bound);
        if best >= 0 {
            if best == greatest_below(front, bound) {
                let k = choose|k: int| 0 <= k < front.len() && #[trigger] front[k] == best;
                assert(indices[k] == best);
            } else {
                assert(indices[indices.len() - 1] == best);
            }
        }
        assert forall|k: int| 0 <= k < indices.len() && indices[k] < bound implies #[trigger] indices[k]
            <= best by {
            if k < front.len() {
                assert(front[k] == indices[k]);
            }
        }
    }
}

/// The greatest of `indices` that is below `bound`, if there is one.
pub fn find_greatest_below(indices: &Vec<usize>, bound: usize) -> (found: Option<usize>)
    ensures
        match found {
            Some(index) => index == greatest_below(indices@, bound as int) && index < bound,
            None => greatest_below(indices@, bound as int) == -1,
        },
{
    let mut best: Option<usize> = None;
    let mut i: usize = 0;
    assert(indices@.take(0) =~= Seq::<usize>::empty());
    while i < indices.len()
        invariant
            i <= indices.len(),
            match best {
                Some(index) => index == greatest_below(indices@.take(i as int), bound as int)
                    && index < bound,
                None => greatest_below(indices@.take(i as int), bound as int) == -1,
            },
        decreases indices.len() - i,
    {
        let index = indices[i];
        assert(indices@.take(i + 1).drop_last() =~= indices@.take(i as int));
        assert(indices@.take(i + 1).last() == index);
        if index < bound {
            match best {
                Some(b) => {
                    if index > b {
                        best = Some(index);
                    }
                },
                None => {
                    best = Some(index);
                },
            }
        }
        i = i + 1;
    }
    assert(indices@.take(i as int) =~= indices@);
    best
}

/// The positions that are marked in `hits`, in rising order.
pub fn marked_positions(hits: &Vec<bool>) -> (positions: Vec<usize>)
    ensures
        positions@ == marked(hits@),
{
    let mut positions: Vec<usize> = Vec::new();
    let mut i: usize = 0;
    assert(hits@.take(0) =~= Seq::<bool>::empty());
    while i < hits.len()
        invariant
            i <= hits.len(),
            positions@ == marked(hits@.take(i as int)),
        decreases hits.len() - i,
    {
        assert(hits@.take(i + 1).drop_last() =~= hits@.take(i as int));
        if hits[i] {
            positions.push(i);
        }
        i = i + 1;
    }
    assert(hits@.take(i as int) =~= hits@);
    positions
}

impl Item {
    /// Whether this item holds the value `param` in the field that `param` names.
    pub fn holds(&self, param: ParamType) -> (r: bool)
        ensures
            r == holds(self@, param),
    {
        match param {
            ParamType::Status(value) => self.status == value,
            ParamType::Progress(value) => self.progress == value,
            ParamType::Maximum(value) => self.maximum == value,
            ParamType::Rate(value) => self.rate == value,
        }
    }

    /// The stored line of this item, ended by a line break, written at the end of `out`.
    pub fn append_record(&self, out: &mut String)
        ensures
            final(out)@ == old(out)@ + record_line(self@),
    {
        out.append("\"");
        out.append(self.name.as_str());
        out.append("\" ");
        out.append(self.status.name());
        out.append(" progress ");
        append_decimal(out, self.progress as u32);
        out.append("/");
        let maximum = self.maximum.text();
        out.append(maximum.as_str());
        out.append(" score ");
        append_decimal(out, self.rate as u32);
        out.append("\n");
        assert(final(out)@ =~= old(out)@ + record_line(self@));
    }
}

impl AnimeBase {
    /// An empty store with columns of no width.
    pub fn new() -> (store: AnimeBase)
        ensures
            store@ == Seq::<ItemView>::empty(),
            store.name_len == 0,
            store.series_len == 0,
    {
        let store = AnimeBase { list: Vec::new(), name_len: 0, series_len: 0 };
        assert(store@ =~= Seq::<ItemView>::empty());
        store
    }

    /// Adds `item` at the end and widens the columns to hold it.
    pub fn push(&mut self, item: Item)
        ensures
            final(self)@ == old(self)@.push(item@),
            final(self).name_len == wider(old(self).name_len, byte_len(item@.name)),
            final(self).series_len == wider(old(self).series_len, number_width(item@)),
    {
        let name_len = item.name.as_str().len();
        if name_len > self.name_len {
            self.name_len = name_len;
        }
        let total = item.maximum.get();
        let greater = if total >= item.progress {
            total
        } else {
            item.progress
        };
        let width = count_digits(greater as u32);
        if width > self.series_len {
            self.series_len = width;
        }
        self.list.push(item);
        assert(final(self)@ =~= old(self)@.push(item@));
    }

    /// Adds a new entry of the given name and gives its index.
    pub fn append(&mut self, name: &str) -> (index: usize)
        ensures
            index == old(self)@.len(),
            final(self)@ == old(self)@.push(empty_item(name@)),
            final(self).name_len == wider(old(self).name_len, byte_len(name@)),
            final(self).series_len == wider(old(self).series_len, 1),
    {
        let index = self.list.len();
        assert(digit_count(0) == 1);
        self.push(Item::empty(name));
        index
    }

    /// One line of a listing for `item`, aligned by the columns of this store.
    pub fn format(&self, item: &Item) -> (line: String)
        ensures
            line@ == format_line(item@, self.name_len, self.series_len),
    {
        let mut out = String::from_str("'");
        append_padded(&mut out, item.name.as_str(), self.name_len);
        out.append("', status: ");
        out.append(item.status.name());
        out.append(", progress: ");
        let progress = decimal_text(item.progress as u32);
        append_padded(&mut out, progress.as_str(), self.series_len);
        out.append(" / ");
        let maximum = item.maximum.text();
        out.append(maximum.as_str());
        out.append(", rate: ");
        let rate = decimal_text(item.rate as u32);
        append_padded(&mut out, rate.as_str(), 2);
        out.append(" / 10");
        assert(out@ =~= format_line(item@, self.name_len, self.series_len));
        out
    }

    /// The listing line of the item at `index`.
    pub fn format_by_index(&self, index: usize) -> (line: String)
        requires
            index < self@.len(),
        ensures
            line@ == format_line(self@[index as int], self.name_len, self.series_len),
    {
        self.format(&self.list[index])
    }

    /// The stored text of the list: one line for each item, each ended by a line break.
    pub fn serialize(&self) -> (out: String)
        ensures
            out@ == serialized(self@),
    {
        let mut out = String::new();
        let mut i: usize = 0;
        assert(self@.take(0) =~= Seq::<ItemView>::empty());
        assert(out@ =~= serialized(self@.take(0)));
        while i < self.list.len()
            invariant
                i <= self.list.len(),
                out@ == serialized(self@.take(i as int)),
            decreases self.list.len() - i,
        {
            assert(self@.take(i + 1).drop_last() =~= self@.take(i as int));
            assert(self@.take(i + 1).last() == self.list@[i as int]@);
            self.list[i].append_record(&mut out);
            i = i + 1;
        }
        assert(self@.take(i as int) =~= self@);
        out
    }

    /// The listing of the whole store: one line for each item, with a line break
    /// between two.
    pub fn text(&self) -> (out: String)
        ensures
            out@ == listing(self@, self.name_len, self.series_len),
    {
        let mut out = String::new();
        let mut i: usize = 0;
        assert(self@.take(0) =~= Seq::<ItemView>::empty());
        assert(out@ =~= listing(self@.take(0), self.name_len, self.series_len));
        while i < self.list.len()
            invariant
                i <= self.list.len(),
                out@ == listing(self@.take(i as int), self.name_len, self.series_len),
            decreases self.list.len() - i,
        {
            let ghost before = out@;
            assert(self@.take(i + 1).drop_last() =~= self@.take(i as int));
            assert(self@.take(i + 1).last() == self.list@[i as int]@);
            assert(self@.take(i + 1)[0] == self@[0]);
            if i > 0 {
                out.append("\n");
            }
            let line = self.format(&self.list[i]);
            out.append(line.as_str());
            assert(out@ =~= listing(self@.take(i + 1), self.name_len, self.series_len)) by {
                if i == 0 {
                    assert(before =~= Seq::<char>::empty());
                }
            }
            i = i + 1;
        }
        assert(self@.take(i as int) =~= self@);
        out
    }

    /// The item at `index`, or `None` where there is none.
    pub fn get_item(&self, index: usize) -> (item: Option<&Item>)
        ensures
            match item {
                Some(it) => index < self@.len() && it@ == self@[index as int],
                None => index >= self@.len(),
            },
    {
        if index < self.list.len() {
            Some(&self.list[index])
        } else {
            None
        }
    }

    /// Brings the status of `f` in line with its progress after the progress or the
    /// total has been set.
    pub fn update_progress_status(f: &mut Item)
        ensures
            final(f)@ == rederived(old(f)@),
    {
        if let SeriesCounter::Value(max) = f.maximum {
            if f.progress >= max {
                f.progress = max;
                f.status = Status::Complete;
            } else {
                f.status = Status::Watch;
            }
        }
    }

    /// Completes `f` if its progress has reached the total.
    pub fn settle_progress(f: &mut Item)
        ensures
            final(f)@ == settled(old(f)@),
    {
        if let SeriesCounter::Value(max) = f.maximum {
            if f.progress >= max {
                f.progress = max;
                f.status = Status::Complete;
            }
        }
    }

    /// Sets the total of the item at `index` and derives its status anew.
    pub fn set_maximum(&mut self, index: usize, value: SeriesCounter) -> (done: Option<()>)
        ensures
            done is Some <==> index < old(self)@.len(),
            index < old(self)@.len() ==> final(self)@ == old(self)@.update(
                index as int,
                with_maximum(old(self)@[index as int], value),
            ),
            index >= old(self)@.len() ==> final(self)@ == old(self)@,
            final(self).name_len == old(self).name_len,
            final(self).series_len == old(self).series_len,
    {
        if index < self.list.len() {
            let f = &mut self.list[index];
            f.maximum = value;
            Self::update_progress_status(f);
            assert(final(self)@ =~= old(self)@.update(
                index as int,
                with_maximum(old(self)@[index as int], value),
            ));
            Some(())
        } else {
            None
        }
    }

    /// Sets the progress of the item at `index` and derives its status anew.
    pub fn set_progress(&mut self, index: usize, value: u16) -> (done: Option<()>)
        ensures
            done is Some <==> index < old(self)@.len(),
            index < old(self)@.len() ==> final(self)@ == old(self)@.update(
                index as int,
                with_progress(old(self)@[index as int], value),
            ),
            index >= old(self)@.len() ==> final(self)@ == old(self)@,
            final(self).name_len == old(self).name_len,
            final(self).series_len == old(self).series_len,
    {
        if index < self.list.len() {
            let f = &mut self.list[index];
            f.progress = value;
            Self::update_progress_status(f);
            assert(final(self)@ =~= old(self)@.update(
                index as int,
                with_progress(old(self)@[index as int], value),
            ));
            Some(())
        } else {
            None
        }
    }

    /// Sets the status of the item at `index`. Completing an item of known total moves
    /// its progress to the total.
    pub fn set_status(&mut self, index: usize, status: Status) -> (done: Option<()>)
        requires
            status != Status::Error,
        ensures
            done is Some <==> index < old(self)@.len(),
            index < old(self)@.len() ==> final(self)@ == old(self)@.update(
                index as int,
                with_status(old(self)@[index as int], status),
            ),
            index >= old(self)@.len() ==> final(self)@ == old(self)@,
            final(self).name_len == old(self).name_len,
            final(self).series_len == old(self).series_len,
    {
        if index < self.list.len() {
            let f = &mut self.list[index];
            f.status = status;
            if status == Status::Complete {
                if let SeriesCounter::Value(max) = f.maximum {
                    f.progress = max;
                }
            }
            assert(final(self)@ =~= old(self)@.update(
                index as int,
                with_status(old(self)@[index as int], status),
            ));
            Some(())
        } else {
            None
        }
    }

    /// Sets the score of the item at `index`.
    pub fn set_rate(&mut self, index: usize, value: u8) -> (done: Option<()>)
        ensures
            done is Some <==> index < old(self)@.len(),
            index < old(self)@.len() ==> final(self)@ == old(self)@.update(
                index as int,
                with_rate(old(self)@[index as int], value),
            ),
            index >= old(self)@.len() ==> final(self)@ == old(self)@,
            final(self).name_len == old(self).name_len,
            final(self).series_len == old(self).series_len,
    {
        if index < self.list.len() {
            let f = &mut self.list[index];
            f.rate = value;
            assert(final(self)@ =~= old(self)@.update(
                index as int,
                with_rate(old(self)@[index as int], value),
            ));
            Some(())
        } else {
            None
        }
    }

    /// Renames the item at `index`. The name column keeps its width.
    pub fn set_name(&mut self, index: usize, name: &str) -> (done: Option<()>)
        ensures
            done is Some <==> index < old(self)@.len(),
            index < old(self)@.len() ==> final(self)@ == old(self)@.update(
                index as int,
                with_name(old(self)@[index as int], name@),
            ),
            index >= old(self)@.len() ==> final(self)@ == old(self)@,
            final(self).name_len == old(self).name_len,
            final(self).series_len == old(self).series_len,
    {
        if index < self.list.len() {
            let f = &mut self.list[index];
            f.name = name.to_owned();
            assert(final(self)@ =~= old(self)@.update(
                index as int,
                with_name(old(self)@[index as int], name@),
            ));
            Some(())
        } else {
            None
        }
    }

    /// Adds `value` to the progress of the item at `index`, stopping at the greatest
    /// 16-bit number, and completes the item if the total is reached.
    pub fn progress_increment_by(&mut self, index: usize, value: u16) -> (done: Option<()>)
        ensures
            done is Some <==> index < old(self)@.len(),
            index < old(self)@.len() ==> final(self)@ == old(self)@.update(
                index as int,
                incremented(old(self)@[index as int], value),
            ),
            index >= old(self)@.len() ==> final(self)@ == old(self)@,
            final(self).name_len == old(self).name_len,
            final(self).series_len == old(self).series_len,
    {
        if index < self.list.len() {
            let f = &mut self.list[index];
            f.progress = f.progress.saturating_add(value);
            Self::settle_progress(f);
            assert(final(self)@ =~= old(self)@.update(
                index as int,
                incremented(old(self)@[index as int], value),
            ));
            Some(())
        } else {
            None
        }
    }

    /// Takes `value` from the progress of the item at `index`, stopping at 0.
    pub fn progress_decrement_by(&mut self, index: usize, value: u16) -> (done: Option<()>)
        ensures
            done is Some <==> index < old(self)@.len(),
            index < old(self)@.len() ==> final(self)@ == old(self)@.update(
                index as int,
                decremented(old(self)@[index as int], value),
            ),
            index >= old(self)@.len() ==> final(self)@ == old(self)@,
            final(self).name_len == old(self).name_len,
            final(self).series_len == old(self).series_len,
    {
        if index < self.list.len() {
            let f = &mut self.list[index];
            f.progress = f.progress.saturating_sub(value);
            Self::settle_progress(f);
            assert(final(self)@ =~= old(self)@.update(
                index as int,
                decremented(old(self)@[index as int], value),
            ));
            Some(())
        } else {
            None
        }
    }

    /// Removes the items that `indices` names and hands them out, the one of the
    /// greatest index first. Each leaves by a swap with the last item of the list, so
    /// the items behind it change places. An index past the end names nothing, and
    /// one that is named twice counts once.
    pub fn remove(&mut self, indices: &Vec<usize>) -> (gone: Vec<Item>)
        ensures
            final(self)@ == removed(old(self)@, indices@, old(self)@.len() as int),
            item_views(gone@) == taken(old(self)@, indices@, old(self)@.len() as int),
            final(self).name_len == old(self).name_len,
            final(self).series_len == old(self).series_len,
    {
        let mut gone: Vec<Item> = Vec::new();
        let mut bound: usize = self.list.len();
        let ghost whole = removed(self@, indices@, self@.len() as int);
        let ghost all = taken(self@, indices@, self@.len() as int);
        assert(item_views(gone@) + all =~= all);
        loop
            invariant
                bound <= self.list.len(),
                whole == removed(self@, indices@, bound as int),
                all == item_views(gone@) + taken(self@, indices@, bound as int),
                self.name_len == old(self).name_len,
                self.series_len == old(self).series_len,
            ensures
                self@ == whole,
                item_views(gone@) == all,
                self.name_len == old(self).name_len,
                self.series_len == old(self).series_len,
            decreases bound,
        {
            match find_greatest_below(indices, bound) {
                Some(index) => {
                    let ghost before = self@;
                    let ghost seen = item_views(gone@);
                    let item = self.list.swap_remove(index);
                    assert(self@ =~= swap_removed(before, index as int));
                    assert(item@ == before[index as int]);
                    gone.push(item);
                    assert(item_views(gone@) =~= seen + seq![before[index as int]]);
                    assert(seen + (seq![before[index as int]] + taken(
                        self@,
                        indices@,
                        index as int,
                    )) =~= item_views(gone@) + taken(self@, indices@, index as int));
                    bound = index;
                },
                None => {
                    assert(item_views(gone@) + Seq::<ItemView>::empty() =~= item_views(gone@));
                    break ;
                },
            }
        }
        gone
    }

    /// The positions of the items that hold `param`, in rising order.
    pub fn find_param(&self, param: ParamType) -> (positions: Vec<usize>)
        ensures
            positions@ == marked(param_hits(self@, param)),
    {
        let mut hits: Vec<bool> = Vec::new();
        let mut i: usize = 0;
        while i < self.list.len()
            invariant
                i <= self.list.len(),
                hits@ == param_hits(self@, param).take(i as int),
            decreases self.list.len() - i,
        {
            hits.push(self.list[i].holds(param));
            assert(hits@ =~= param_hits(self@, param).take(i + 1));
            i = i + 1;
        }
        assert(hits@ =~= param_hits(self@, param));
        marked_positions(&hits)
    }

    /// The positions of the items whose name matches `pattern`, in rising order, or
    /// the error of a pattern that does not compile.
    pub fn find_name(&self, pattern: &str) -> (positions: Result<Vec<usize>, BadPattern>)
        ensures
            match positions {
                Ok(found) => found@ == marked(name_hits(self@, pattern@)),
                Err(bad) => bad.pattern@ == pattern@,
            },
    {
        match Matcher::new(pattern) {
            Err(bad) => Err(bad),
            Ok(matcher) => {
                let mut hits: Vec<bool> = Vec::new();
                let mut i: usize = 0;
                while i < self.list.len()
                    invariant
                        i <= self.list.len(),
                        matcher.source() == pattern@,
                        hits@ == name_hits(self@, pattern@).take(i as int),
                    decreases self.list.len() - i,
                {
                    hits.push(matcher.matches(self.list[i].name.as_str()));
                    assert(hits@ =~= name_hits(self@, pattern@).take(i + 1));
                    i = i + 1;
                }
                assert(hits@ =~= name_hits(self@, pattern@));
                Ok(marked_positions(&hits))
            },
        }
    }

    /// The entries of `selection` that point at an item holding `param`, in the order
    /// of `selection`.
    pub fn filter_param(&self, selection: &Vec<usize>, param: ParamType) -> (kept: Vec<usize>)
        ensures
            kept@ == narrowed(self@, selection@, param),
    {
        let mut kept: Vec<usize> = Vec::new();
        let mut i: usize = 0;
        assert(selection@.take(0) =~= Seq::<usize>::empty());
        while i < selection.len()
            invariant
                i <= selection.len(),
                kept@ == narrowed(self@, selection@.take(i as int), param),
            decreases selection.len() - i,
        {
            assert(selection@.take(i + 1).drop_last() =~= selection@.take(i as int));
            let index = selection[i];
            if index < self.list.len() {
                if self.list[index].holds(param) {
                    kept.push(index);
                }
            }
            i = i + 1;
        }
        assert(selection@.take(i as int) =~= selection@);
        kept
    }
}

} // verus!
