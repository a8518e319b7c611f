//! How the list of symbols that the stdlib exports is read.

use vstd::prelude::*;

use crate::stdlib::{
    line_end, line_end_bounds, symbol_on, symbols_from, trimmed, without_leading, without_trailing,
    Padding,
};

verus! {

/// Whether a character is white space.
pub open spec fn is_blank(c: char) -> bool {
    ||| '\u{9}' <= c <= '\u{d}'
    ||| c == ' '
    ||| c == '\u{85}'
    ||| c == '\u{a0}'
    ||| c == '\u{1680}'
    ||| '\u{2000}' <= c <= '\u{200a}'
    ||| '\u{2028}' <= c <= '\u{2029}'
    ||| c == '\u{202f}'
    ||| c == '\u{205f}'
    ||| c == '\u{3000}'
}

/// Whether a character stands around the strings in a list.
pub open spec fn is_mark(c: char) -> bool {
    c == '"' || c == ','
}

/// Whether a symbol stands on a line from `start` up to `stop`: there are only
/// quotes and commas around it, from `from` up to `to`, and only white space
/// around those.
pub open spec fn stands_on(line: Seq<char>, from: int, start: int, stop: int, to: int) -> bool {
    &&& 0 <= from <= start <= stop <= to <= line.len()
    &&& forall|i: int| 0 <= i < from || to <= i < line.len() ==> is_blank(#[trigger] line[i])
    &&& from < to ==> !is_blank(line[from]) && !is_blank(line[to - 1])
    &&& forall|i: int| from <= i < start || stop <= i < to ==> is_mark(#[trigger] line[i])
    &&& start < stop ==> !is_mark(line[start]) && !is_mark(line[stop - 1])
}

/// Whether a symbol is the one on a line. It is empty where there is none.
pub open spec fn is_symbol_on(line: Seq<char>, symbol: Seq<char>) -> bool {
    exists|from: int, start: int, stop: int, to: int|
        #[trigger] stands_on(line, from, start, stop, to) && symbol == line.subrange(start, stop)
}

/// Whether these are where the lines of a text start and end: each ends at the
/// next line break, or at the end of the text, and the next starts behind.
pub open spec fn are_lines(text: Seq<char>, starts: Seq<int>, ends: Seq<int>) -> bool {
    &&& starts.len() == ends.len()
    &&& starts.len() > 0
    &&& ends[ends.len() - 1] == text.len()
    &&& forall|k: int| 0 <= k < starts.len() ==> is_line(text, #[trigger] starts[k], ends[k])
    &&& forall|k: int|
        0 < k < starts.len() ==> #[trigger] starts[k] == ends[k - 1] + 1 && text[ends[k - 1]]
            == '\n'
}

/// Whether there is no line break from `start` up to `end`.
pub open spec fn is_line(text: Seq<char>, start: int, end: int) -> bool {
    &&& 0 <= start <= end <= text.len()
    &&& forall|i: int| start <= i < end ==> #[trigger] text[i] != '\n'
}

/// A line ends at the next line break, or at the end of the text.
proof fn lines_end_at_the_next_break(text: Seq<char>, at: int)
    requires
        0 <= at <= text.len(),
    ensures
        is_line(text, at, line_end(text, at)),
        line_end(text, at) < text.len() ==> text[line_end(text, at)] == '\n',
    decreases text.len() - at,
{
    line_end_bounds(text, at);
    if at < text.len() && text[at] != '\n' {
        lines_end_at_the_next_break(text, at + 1);
    }
}

/// What is cut off the front of a text is padding, and there is no more of it.
proof fn padding_is_cut_off_the_front(text: Seq<char>, padding: Padding) -> (cut: int)
    ensures
        0 <= cut <= text.len(),
        without_leading(text, padding) == text.skip(cut),
        forall|i: int| 0 <= i < cut ==> padding.holds(#[trigger] text[i]),
        cut < text.len() ==> !padding.holds(text[cut]),
    decreases text.len(),
{
    if text.len() > 0 && padding.holds(text.first()) {
        let rest = text.drop_first();
        let cut = padding_is_cut_off_the_front(rest, padding);
        assert(rest.skip(cut) =~= text.skip(cut + 1));
        assert forall|i: int| 0 <= i < cut + 1 implies padding.holds(#[trigger] text[i]) by {
            if i > 0 {
                assert(rest[i - 1] == text[i]);
            }
        }
        cut + 1
    } else {
        assert(text.skip(0) =~= text);
        0
    }
}

/// What is cut off the end of a text is padding, and there is no more of it.
proof fn padding_is_cut_off_the_end(text: Seq<char>, padding: Padding) -> (left: int)
    ensures
        0 <= left <= text.len(),
        without_trailing(text, padding) == text.take(left),
        forall|i: int| left <= i < text.len() ==> padding.holds(#[trigger] text[i]),
        left > 0 ==> !padding.holds(text[left - 1]),
    decreases text.len(),
{
    if text.len() > 0 && padding.holds(text.last()) {
        let rest = text.drop_last();
        let left = padding_is_cut_off_the_end(rest, padding);
        assert(rest.take(left) =~= text.take(left));
        assert forall|i: int| left <= i < text.len() implies padding.holds(#[trigger] text[i]) by {
            if i < rest.len() {
                assert(rest[i] == text[i]);
            }
        }
        left
    } else {
        assert(text.take(text.len() as int) =~= text);
        text.len() as int
    }
}

/// What is cut off both ends of a text is padding, and there is no more of it.
proof fn padding_is_cut_off(text: Seq<char>, padding: Padding) -> (cut: (int, int))
    ensures
        0 <= cut.0 <= cut.1 <= text.len(),
        trimmed(text, padding) == text.subrange(cut.0, cut.1),
        forall|i: int|
            0 <= i < cut.0 || cut.1 <= i < text.len() ==> padding.holds(#[trigger] text[i]),
        cut.0 < cut.1 ==> !padding.holds(text[cut.0]) && !padding.holds(text[cut.1 - 1]),
{
    let from = padding_is_cut_off_the_front(text, padding);
    let rest = text.skip(from);
    let left = padding_is_cut_off_the_end(rest, padding);
    assert(rest.take(left) =~= text.subrange(from, from + left));
    assert forall|i: int| 0 <= i < from || from + left <= i < text.len() implies padding.holds(
        #[trigger] text[i],
    ) by {
        if i >= from {
            assert(rest[i - from] == text[i]);
        }
    }
    if left > 0 {
        assert(rest[left - 1] == text[from + left - 1]);
    }
    (from, from + left)
}

/// Padding is what it is called.
proof fn padding_is_white_space_or_marks(c: char)
    ensures
        Padding::WhiteSpace.holds(c) == is_blank(c),
        Padding::Marks.holds(c) == is_mark(c),
{
}

/// What is read on a line is the symbol that stands on it.
proof fn symbols_stand_on_lines(line: Seq<char>)
    ensures
        is_symbol_on(line, symbol_on(line)),
{
    let (from, to) = padding_is_cut_off(line, Padding::WhiteSpace);
    let inner = line.subrange(from, to);
    let (start, stop) = padding_is_cut_off(inner, Padding::Marks);
    assert(inner.subrange(start, stop) =~= line.subrange(from + start, from + stop));
    assert forall|i: int| 0 <= i < from || to <= i < line.len() implies is_blank(
        #[trigger] line[i],
    ) by {
        padding_is_white_space_or_marks(line[i]);
    }
    assert forall|i: int|
        from <= i < from + start || from + stop <= i < to implies is_mark(#[trigger] line[i]) by {
        assert(inner[i - from] == line[i]);
        padding_is_white_space_or_marks(line[i]);
    }
    if from < to {
        padding_is_white_space_or_marks(line[from]);
        padding_is_white_space_or_marks(line[to - 1]);
    }
    if start < stop {
        padding_is_white_space_or_marks(inner[start]);
        padding_is_white_space_or_marks(inner[stop - 1]);
    }
    assert(stands_on(line, from, from + start, from + stop, to));
}

/// Whether `found` are what stands on each line of a text, one to a line.
pub open spec fn are_found(
    text: Seq<char>,
    starts: Seq<int>,
    ends: Seq<int>,
    found: Seq<Seq<char>>,
) -> bool {
    &&& found.len() == starts.len()
    &&& forall|k: int|
        0 <= k < found.len() ==> is_symbol_on(
            text.subrange(starts[k], ends[k]),
            #[trigger] found[k],
        )
}

/// The symbols from a line on are those on the lines from there on.
proof fn symbols_stand_on_the_rest(text: Seq<char>, at: int) -> (way: (
    Seq<int>,
    Seq<int>,
    Seq<Seq<char>>,
))
    requires
        0 <= at <= text.len(),
    ensures
        are_lines(text, way.0, way.1),
        way.0[0] == at,
        are_found(text, way.0, way.1, way.2),
        symbols_from(text, at) == way.2.filter(|symbol: Seq<char>| symbol.len() > 0),
    decreases text.len() - at,
{
    let end = line_end(text, at);
    lines_end_at_the_next_break(text, at);
    let line = text.subrange(at, end);
    symbols_stand_on_lines(line);
    let symbol = symbol_on(line);
    let is_one = |symbol: Seq<char>| symbol.len() > 0;
    let one = seq![symbol];
    assert(one.filter(is_one) == if symbol.len() > 0 {
        one
    } else {
        Seq::empty()
    }) by {
        reveal(Seq::filter);
        assert(one.drop_last() =~= Seq::empty());
        assert(Seq::<Seq<char>>::empty().filter(is_one) =~= Seq::empty());
    }
    if end == text.len() {
        assert(symbols_from(text, end + 1) =~= Seq::empty());
        assert(symbols_from(text, at) =~= one.filter(is_one));
        (seq![at], seq![end], one)
    } else {
        let (starts, ends, found) = symbols_stand_on_the_rest(text, end + 1);
        let all_starts = seq![at] + starts;
        let all_ends = seq![end] + ends;
        let all_found = one + found;
        Seq::filter_distributes_over_add(one, found, is_one);
        assert(symbols_from(text, at) =~= all_found.filter(is_one));
        assert forall|k: int| 0 <= k < all_starts.len() implies is_line(
            text,
            #[trigger] all_starts[k],
            all_ends[k],
        ) by {
            if k > 0 {
                assert(is_line(text, starts[k - 1], ends[k - 1]));
            }
        }
        assert forall|k: int| 0 < k < all_starts.len() implies #[trigger] all_starts[k]
            == all_ends[k - 1] + 1 && text[all_ends[k - 1]] == '\n' by {
            if k > 1 {
                assert(starts[k - 1] == ends[k - 2] + 1);
            }
        }
        assert forall|k: int| 0 <= k < all_found.len() implies is_symbol_on(
            text.subrange(all_starts[k], all_ends[k]),
            #[trigger] all_found[k],
        ) by {
            if k > 0 {
                assert(all_found[k] == found[k - 1]);
            }
        }
        (all_starts, all_ends, all_found)
    }
}

/// The symbols are those that stand on the lines of the text, one to a line and
/// in their order: what is left of a line without the white space, quotes and
/// commas around it. Lines on which nothing is left have none.
pub proof fn symbols_stand_on_the_lines(text: Seq<char>)
    ensures
        exists|starts: Seq<int>, ends: Seq<int>, found: Seq<Seq<char>>|
            {
                &&& are_lines(text, starts, ends)
                &&& starts[0] == 0
                &&& #[trigger] are_found(text, starts, ends, found)
                &&& symbols_from(text, 0) == found.filter(|symbol: Seq<char>| symbol.len() > 0)
            },
{
    let (starts, ends, found) = symbols_stand_on_the_rest(text, 0);
    assert(are_found(text, starts, ends, found));
}

} // verus!
