//! The stored text of a list: how it is cut into lines and read back into a store.

use vstd::prelude::*;
use vstd::string::StrSliceExecFns;
use crate::base::{find_char, first_index, parse_record, Item, ItemView};
use crate::store::{byte_len, number_width, wider, AnimeBase};
use crate::text::{chars_of, str_views};

verus! {

/// A line without the carriage return that may end it.
pub open spec fn strip_cr(line: Seq<char>) -> Seq<char> {
    if line.len() > 0 && line.last() == '\r' {
        line.drop_last()
    } else {
        line
    }
}

/// The lines of a text. A line ends at a line feed; a carriage return just before
/// the line feed belongs to the line ending. The last line needs no line feed, and
/// a text that ends in one has no empty line after it.
pub open spec fn lines(text: Seq<char>) -> Seq<Seq<char>>
    decreases text.len(),
{
    if text.len() == 0 {
        Seq::empty()
    } else {
        let cut = first_index(text, '\n') as int;
        if cut >= text.len() {
            seq![text]
        } else {
            seq![strip_cr(text.take(cut))] + lines(text.skip(cut + 1))
        }
    }
}

/// The items that a list of stored lines describes, or `None` where one of the
/// lines is malformed.
pub open spec fn parse_lines(list: Seq<Seq<char>>) -> Option<Seq<ItemView>>
    decreases list.len(),
{
    if list.len() == 0 {
        Some(Seq::empty())
    } else {
        match (parse_record(list[0]), parse_lines(list.skip(1))) {
            (Some(item), Some(rest)) => Some(seq![item] + rest),
            _ => None,
        }
    }
}

/// The items that a stored text describes.
pub open spec fn loaded(text: Seq<char>) -> Option<Seq<ItemView>> {
    parse_lines(lines(text))
}

/// The width of the name column of a store that `items` were pushed into.
pub open spec fn name_width(items: Seq<ItemView>) -> usize
    decreases items.len(),
{
    if items.len() == 0 {
        0
    } else {
        wider(name_width(items.drop_last()), byte_len(items.last().name))
    }
}

/// The width of the number columns of a store that `items` were pushed into.
pub open spec fn series_width(items: Seq<ItemView>) -> usize
    decreases items.len(),
{
    if items.len() == 0 {
        0
    } else {
        wider(series_width(items.drop_last()), number_width(items.last()))
    }
}

/// Lines that are read one by one into `items` are read as a list into `items`.
pub proof fn lemma_parse_each(list: Seq<Seq<char>>, items: Seq<ItemView>)
    requires
        list.len() == items.len(),
        forall|j: int| 0 <= j < list.len() ==> parse_record(#[trigger] list[j]) == Some(items[j]),
    ensures
        parse_lines(list) == Some(items),
    decreases list.len(),
{
    if list.len() > 0 {
        assert forall|j: int| 0 <= j < list.skip(1).len() implies parse_record(
            #[trigger] list.skip(1)[j],
        ) == Some(items.skip(1)[j]) by {
            assert(list.skip(1)[j] == list[j + 1]);
        }
        lemma_parse_each(list.skip(1), items.skip(1));
        assert(parse_record(list[0]) == Some(items[0]));
        assert(seq![items[0]] + items.skip(1) =~= items);
    } else {
        assert(items =~= Seq::<ItemView>::empty());
    }
}

/// A list with a malformed line is read as nothing.
pub proof fn lemma_parse_bad(list: Seq<Seq<char>>, k: int)
    requires
        0 <= k < list.len(),
        parse_record(list[k]) is None,
    ensures
        parse_lines(list) is None,
    decreases list.len(),
{
    if k > 0 {
        assert(list.skip(1)[k - 1] == list[k]);
        lemma_parse_bad(list.skip(1), k - 1);
    }
}

/// The lines of a text, in order, without their line endings.
pub fn split_lines<'a>(text: &'a str) -> (list: Vec<&'a str>)
    ensures
        str_views(list@) == lines(text@),
{
    let chars = chars_of(text);
    let n = chars.len();
    let mut list: Vec<&'a str> = Vec::new();
    let mut pos: usize = 0;
    let ghost all = lines(text@);
    assert(chars@.skip(0) =~= text@);
    assert(str_views(list@) + lines(chars@.skip(0)) =~= all);
    while pos < n
        invariant
            pos <= n,
            n == chars.len(),
            chars@ == text@,
            all == str_views(list@) + lines(chars@.skip(pos as int)),
        decreases n - pos,
    {
        let ghost rest = chars@.skip(pos as int);
        let ghost seen = str_views(list@);
        assert(rest =~= chars@.subrange(pos as int, n as int));
        let cut = find_char(&chars, pos, n, '\n');
        let mut end = cut;
        let mut next = n;
        if cut < n {
            next = cut + 1;
            if cut > pos && chars[cut - 1] == '\r' {
                end = cut - 1;
            }
        }
        let line = text.substring_char(pos, end);
        list.push(line);
        proof {
            let at = first_index(rest, '\n') as int;
            assert(at == cut - pos);
            if cut < n {
                assert(rest.take(at) =~= chars@.subrange(pos as int, cut as int));
                assert(rest.skip(at + 1) =~= chars@.skip(next as int));
                assert(line@ =~= strip_cr(rest.take(at)));
                assert(lines(rest) == seq![line@] + lines(chars@.skip(next as int)));
            } else {
                assert(line@ =~= rest);
                assert(chars@.skip(next as int) =~= Seq::<char>::empty());
                assert(lines(rest) =~= seq![line@] + lines(chars@.skip(next as int)));
            }
            assert(str_views(list@) =~= seen.push(line@));
            assert(all =~= seen.push(line@) + lines(chars@.skip(next as int)));
        }
        pos = next;
    }
    assert(chars@.skip(pos as int) =~= Seq::<char>::empty());
    assert(str_views(list@) =~= all);
    list
}

impl AnimeBase {
    /// Reads a stored text into a new store, line by line, or gives the position of
    /// the first line that is malformed.
    pub fn load(text: &str) -> (r: Result<AnimeBase, usize>)
        ensures
            match r {
                Ok(store) => {
                    &&& loaded(text@) == Some(store@)
                    &&& store.name_len == name_width(store@)
                    &&& store.series_len == series_width(store@)
                },
                Err(k) => {
                    &&& k < lines(text@).len()
                    &&& parse_record(lines(text@)[k as int]) is None
                    &&& forall|j: int| 0 <= j < k ==> parse_record(#[trigger] lines(text@)[j]) is Some
                    &&& loaded(text@) is None
                },
            },
    {
        let list = split_lines(text);
        let ghost all = lines(text@);
        let mut store = AnimeBase::new();
        let mut i: usize = 0;
        while i < list.len()
            invariant
                i <= list.len(),
                all == str_views(list@),
                all == lines(text@),
                store@.len() == i,
                forall|j: int| 0 <= j < i ==> parse_record(#[trigger] all[j]) == Some(store@[j]),
                store.name_len == name_width(store@),
                store.series_len == series_width(store@),
            decreases list.len() - i,
        {
            assert(all[i as int] == list@[i as int]@);
            match Item::parse(list[i]) {
                Some(item) => {
                    let ghost before = store@;
                    store.push(item);
                    assert(store@.drop_last() =~= before);
                },
                None => {
                    proof {
                        lemma_parse_bad(all, i as int);
                    }
                    return Err(i);
                },
            }
            i = i + 1;
        }
        proof {
            lemma_parse_each(all, store@);
        }
        Ok(store)
    }
}

} // verus!
