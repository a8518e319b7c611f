//! Text: comparison, decimal numbers, and joining.

use vstd::prelude::*;
use vstd::string::StringExecFns;
use vstd::utf8::encode_utf8;

verus! {

/// The decimal digit `value`.
pub open spec fn digit(value: int) -> char {
    (0x30 + value) as char
}

/// `value` in decimal.
pub open spec fn decimal(value: nat) -> Seq<char>
    decreases value,
{
    if value < 10 {
        seq![digit(value as int)]
    } else {
        decimal(value / 10).push(digit((value % 10) as int))
    }
}

/// `value` in decimal, with a sign where it is negative.
pub open spec fn signed_decimal(value: int) -> Seq<char> {
    if value < 0 {
        seq!['-'] + decimal((-value) as nat)
    } else {
        decimal(value as nat)
    }
}

/// Whether two strings are the same text.
pub fn same_text(a: &str, b: &str) -> (same: bool)
    ensures
        same == (a@ == b@),
{
    let left = a.as_bytes();
    let right = b.as_bytes();
    proof {
        // Text and its encoding determine each other.
        vstd::utf8::encode_utf8_decode_utf8(a@);
        vstd::utf8::encode_utf8_decode_utf8(b@);
    }
    if left.len() != right.len() {
        return false;
    }
    let mut i: usize = 0;
    while i < left.len()
        invariant
            i <= left@.len(),
            left@.len() == right@.len(),
            left@ == encode_utf8(a@),
            right@ == encode_utf8(b@),
            forall|k: int| 0 <= k < i ==> left@[k] == right@[k],
        decreases left@.len() - i,
    {
        if left[i] != right[i] {
            return false;
        }
        i += 1;
    }
    assert(left@ == right@);
    true
}

/// One decimal digit.
fn digit_text(value: u64) -> (text: &'static str)
    requires
        value < 10,
    ensures
        text@ == seq![digit(value as int)],
{
    proof {
        reveal_strlit("0");
        reveal_strlit("1");
        reveal_strlit("2");
        reveal_strlit("3");
        reveal_strlit("4");
        reveal_strlit("5");
        reveal_strlit("6");
        reveal_strlit("7");
        reveal_strlit("8");
        reveal_strlit("9");
    }
    if value == 0 {
        "0"
    } else if value == 1 {
        "1"
    } else if value == 2 {
        "2"
    } else if value == 3 {
        "3"
    } else if value == 4 {
        "4"
    } else if value == 5 {
        "5"
    } else if value == 6 {
        "6"
    } else if value == 7 {
        "7"
    } else if value == 8 {
        "8"
    } else {
        "9"
    }
}

/// Writes `value` in decimal.
pub fn to_decimal(value: u64) -> (text: String)
    ensures
        text@ == decimal(value as nat),
    decreases value,
{
    if value < 10 {
        digit_text(value).to_owned()
    } else {
        let mut text = to_decimal(value / 10);
        text.append(digit_text(value % 10));
        text
    }
}

/// Writes `value` in decimal, with a sign where it is negative.
pub fn to_signed_decimal(value: i32) -> (text: String)
    ensures
        text@ == signed_decimal(value as int),
{
    if value < 0 {
        let mut text = "-".to_owned();
        let magnitude = -(value as i64);
        text.append(to_decimal(magnitude as u64).as_str());
        proof {
            reveal_strlit("-");
        }
        text
    } else {
        to_decimal(value as u64)
    }
}

/// Joins two texts.
pub fn join2(a: &str, b: &str) -> (text: String)
    ensures
        text@ == a@ + b@,
{
    let mut text = a.to_owned();
    text.append(b);
    text
}

/// Joins three texts.
pub fn join3(a: &str, b: &str, c: &str) -> (text: String)
    ensures
        text@ == a@ + b@ + c@,
{
    let mut text = join2(a, b);
    text.append(c);
    text
}

/// The texts of strings.
pub open spec fn texts(strings: Seq<String>) -> Seq<Seq<char>> {
    strings.map_values(|string: String| string@)
}

/// Whether `index` is where `text` first stands in a list, or nothing where it
/// does not stand there.
pub open spec fn is_position(list: Seq<Seq<char>>, text: Seq<char>, index: Option<usize>) -> bool {
    match index {
        Some(index) => {
            &&& index < list.len()
            &&& list[index as int] == text
            &&& forall|i: int| 0 <= i < index ==> #[trigger] list[i] != text
        },
        None => forall|i: int| 0 <= i < list.len() ==> #[trigger] list[i] != text,
    }
}

/// Finds a text in a list.
pub fn position(list: &[String], text: &str) -> (index: Option<usize>)
    ensures
        is_position(texts(list@), text@, index),
{
    let mut i: usize = 0;
    while i < list.len()
        invariant
            i <= list@.len(),
            forall|k: int| 0 <= k < i ==> #[trigger] texts(list@)[k] != text@,
        decreases list@.len() - i,
    {
        if same_text(list[i].as_str(), text) {
            return Some(i);
        }
        i += 1;
    }
    None
}

/// The characters of a text.
pub fn characters(text: &str) -> (characters: Vec<char>)
    ensures
        characters@ == text@,
{
    let mut characters: Vec<char> = Vec::new();
    for c in iter: text.chars()
        invariant
            iter.seq() == text@,
            characters@ == text@.take(iter.index() as int),
    {
        characters.push(c);
    }
    assert(text@.take(text@.len() as int) =~= text@);
    characters
}

/// Whether a text holds a NUL.
pub fn holds_nul(text: &str) -> (holds: bool)
    ensures
        holds == text@.contains('\0'),
{
    let characters = characters(text);
    let mut i: usize = 0;
    while i < characters.len()
        invariant
            i <= characters@.len(),
            characters@ == text@,
            forall|k: int| 0 <= k < i ==> characters@[k] != '\0',
        decreases characters@.len() - i,
    {
        if characters[i] == '\0' {
            return true;
        }
        i += 1;
    }
    false
}

} // verus!
