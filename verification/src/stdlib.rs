//! The list of symbols that the stdlib module exports.

use vstd::prelude::*;
use vstd::string::StrSliceExecFns;

use crate::text::{characters, texts};

verus! {

/// Whether Unicode counts `c` as white space.
pub open spec fn is_white_space(c: char) -> bool {
    let code = c as u32;
    ||| 0x9 <= code <= 0xd
    ||| code == 0x20
    ||| code == 0x85
    ||| code == 0xa0
    ||| code == 0x1680
    ||| 0x2000 <= code <= 0x200a
    ||| code == 0x2028
    ||| code == 0x2029
    ||| code == 0x202f
    ||| code == 0x205f
    ||| code == 0x3000
}

/// What can surround a symbol: white space, then the marks of a list of
/// strings.
#[derive(Clone, Copy, Debug, PartialEq, Eq, Structural)]
pub enum Padding {
    WhiteSpace,
    Marks,
}

impl Padding {
    /// Whether `c` is such padding.
    pub open spec fn holds(self, c: char) -> bool {
        match self {
            Padding::WhiteSpace => is_white_space(c),
            Padding::Marks => c == '"' || c == ',',
        }
    }

    /// Whether `c` is such padding.
    fn check(self, c: char) -> (holds: bool)
        ensures
            holds == self.holds(c),
    {
        match self {
            Padding::WhiteSpace => {
                let code = c as u32;
                (0x9 <= code && code <= 0xd) || code == 0x20 || code == 0x85 || code == 0xa0 || code
                    == 0x1680 || (0x2000 <= code && code <= 0x200a) || code == 0x2028 || code
                    == 0x2029 || code == 0x202f || code == 0x205f || code == 0x3000
            },
            Padding::Marks => c == '"' || c == ',',
        }
    }
}

/// `text` without leading padding.
pub open spec fn without_leading(text: Seq<char>, padding: Padding) -> Seq<char>
    decreases text.len(),
{
    if text.len() > 0 && padding.holds(text.first()) {
        without_leading(text.drop_first(), padding)
    } else {
        text
    }
}

/// `text` without trailing padding.
pub open spec fn without_trailing(text: Seq<char>, padding: Padding) -> Seq<char>
    decreases text.len(),
{
    if text.len() > 0 && padding.holds(text.last()) {
        without_trailing(text.drop_last(), padding)
    } else {
        text
    }
}

/// `text` without padding on either side.
pub open spec fn trimmed(text: Seq<char>, padding: Padding) -> Seq<char> {
    without_trailing(without_leading(text, padding), padding)
}

/// The symbol on a line, which is empty where there is none.
pub open spec fn symbol_on(line: Seq<char>) -> Seq<char> {
    trimmed(trimmed(line, Padding::WhiteSpace), Padding::Marks)
}

/// Where the line from `at` on ends.
pub open spec fn line_end(text: Seq<char>, at: int) -> int
    decreases text.len() - at,
{
    if at < 0 || at >= text.len() || text[at] == '\n' {
        at
    } else {
        line_end(text, at + 1)
    }
}

/// The end of a line is inside the text.
pub proof fn line_end_bounds(text: Seq<char>, at: int)
    requires
        0 <= at <= text.len(),
    ensures
        at <= line_end(text, at) <= text.len(),
    decreases text.len() - at,
{
    if at < text.len() && text[at] != '\n' {
        line_end_bounds(text, at + 1);
    }
}

/// The symbols on the lines from `at` on, in order.
pub open spec fn symbols_from(text: Seq<char>, at: int) -> Seq<Seq<char>>
    decreases text.len() + 1 - at,
{
    if at < 0 || at > text.len() {
        Seq::empty()
    } else {
        proof {
            line_end_bounds(text, at);
        }
        let end = line_end(text, at);
        let symbol = symbol_on(text.subrange(at, end));
        let rest = symbols_from(text, end + 1);
        if symbol.len() > 0 {
            seq![symbol] + rest
        } else {
            rest
        }
    }
}

/// What is left of a text has no padding at the end.
proof fn without_trailing_ends_clean(text: Seq<char>, padding: Padding)
    ensures
        without_trailing(text, padding).is_prefix_of(text),
        without_trailing(text, padding).len() > 0 ==> !padding.holds(
            without_trailing(text, padding).last(),
        ),
    decreases text.len(),
{
    if text.len() > 0 && padding.holds(text.last()) {
        without_trailing_ends_clean(text.drop_last(), padding);
    }
}

/// What is left of a text has no padding at the start.
proof fn without_leading_starts_clean(text: Seq<char>, padding: Padding)
    ensures
        without_leading(text, padding).len() > 0 ==> !padding.holds(
            without_leading(text, padding).first(),
        ),
    decreases text.len(),
{
    if text.len() > 0 && padding.holds(text.first()) {
        without_leading_starts_clean(text.drop_first(), padding);
    }
}

/// Every symbol that is read is one: it is not empty, and has no mark of a list
/// of strings on either side.
pub proof fn symbols_are_clean(text: Seq<char>, at: int)
    ensures
        forall|i: int|
            0 <= i < symbols_from(text, at).len() ==> {
                let symbol = #[trigger] symbols_from(text, at)[i];
                &&& symbol.len() > 0
                &&& !Padding::Marks.holds(symbol.first())
                &&& !Padding::Marks.holds(symbol.last())
            },
    decreases text.len() + 1 - at,
{
    if 0 <= at <= text.len() {
        line_end_bounds(text, at);
        let end = line_end(text, at);
        let line = trimmed(text.subrange(at, end), Padding::WhiteSpace);
        without_leading_starts_clean(line, Padding::Marks);
        without_trailing_ends_clean(without_leading(line, Padding::Marks), Padding::Marks);
        symbols_are_clean(text, end + 1);
        let symbol = symbol_on(text.subrange(at, end));
        let rest = symbols_from(text, end + 1);
        let all = symbols_from(text, at);
        assert forall|i: int| 0 <= i < all.len() implies {
            let symbol = #[trigger] all[i];
            &&& symbol.len() > 0
            &&& !Padding::Marks.holds(symbol.first())
            &&& !Padding::Marks.holds(symbol.last())
        } by {
            if symbol.len() > 0 {
                if i > 0 {
                    assert(all[i] == rest[i - 1]);
                } else {
                    assert(symbol.first() == without_leading(line, Padding::Marks).first());
                }
            } else {
                assert(all[i] == rest[i]);
            }
        }
    }
}

/// Narrows a range of characters by the padding on both sides.
fn trim(text: &[char], from: usize, to: usize, padding: Padding) -> (range: (usize, usize))
    requires
        from <= to <= text@.len(),
    ensures
        from <= range.0 <= range.1 <= to,
        text@.subrange(range.0 as int, range.1 as int) == trimmed(
            text@.subrange(from as int, to as int),
            padding,
        ),
{
    let mut start: usize = from;
    let ghost whole = text@.subrange(from as int, to as int);
    while start < to && padding.check(text[start])
        invariant
            from <= start <= to <= text@.len(),
            whole == text@.subrange(from as int, to as int),
            without_leading(whole, padding) == without_leading(
                text@.subrange(start as int, to as int),
                padding,
            ),
        decreases to - start,
    {
        assert(text@.subrange(start as int, to as int).drop_first() =~= text@.subrange(
            start + 1,
            to as int,
        ));
        start += 1;
    }
    let ghost rest = text@.subrange(start as int, to as int);
    assert(without_leading(whole, padding) == rest);
    let mut end: usize = to;
    while start < end && padding.check(text[end - 1])
        invariant
            start <= end <= to <= text@.len(),
            without_trailing(rest, padding) == without_trailing(
                text@.subrange(start as int, end as int),
                padding,
            ),
        decreases end - start,
    {
        assert(text@.subrange(start as int, end as int).drop_last() =~= text@.subrange(
            start as int,
            end - 1,
        ));
        end -= 1;
    }
    (start, end)
}

/// Reads the list of symbols that the stdlib module exports and external
/// scanners may import: one to a line, quoted and followed by a comma.
pub fn stdlib_symbols(imports: &str) -> (symbols: Vec<String>)
    ensures
        texts(symbols@) == symbols_from(imports@, 0),
{
    let text = characters(imports);
    let mut symbols: Vec<String> = Vec::new();
    let mut at: usize = 0;
    let mut done = false;
    while !done
        invariant
            text@ == imports@,
            at <= text@.len(),
            symbols_from(text@, 0) == if done {
                texts(symbols@)
            } else {
                texts(symbols@) + symbols_from(text@, at as int)
            },
        decreases
            if done {
                0
            } else {
                text@.len() + 1 - at
            },
    {
        let mut end: usize = at;
        while end < text.len() && text[end] != '\n'
            invariant
                at <= end <= text@.len(),
                line_end(text@, at as int) == line_end(text@, end as int),
            decreases text@.len() - end,
        {
            end += 1;
        }
        let (from, to) = trim(text.as_slice(), at, end, Padding::WhiteSpace);
        let (start, stop) = trim(text.as_slice(), from, to, Padding::Marks);
        let ghost found = texts(symbols@);
        let ghost symbol = symbol_on(text@.subrange(at as int, end as int));
        if start < stop {
            symbols.push(imports.substring_char(start, stop).to_owned());
            assert(texts(symbols@) =~= found + seq![symbol]);
        }
        assert(found + symbols_from(text@, at as int) =~= texts(symbols@) + symbols_from(
            text@,
            end + 1,
        ));
        if end < text.len() {
            at = end + 1;
        } else {
            done = true;
        }
    }
    symbols
}

} // verus!
