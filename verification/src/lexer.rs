//! The native lexer that a parser drives, as the Wasm side sees it.

use vstd::prelude::*;

use crate::bytes::{get_i32, get_u16, le_bytes, le_i32, le_round_trip, le_u16, le_u32, put_u32};
use crate::memory::LEXER_DATA_PREFIX_SIZE;

verus! {

/// The data prefix of a lexer, which is copied into Wasm memory before a lex or
/// scan call and out of it afterwards.
#[derive(Clone, Copy, Debug, PartialEq, Eq, Structural)]
pub struct LexerData {
    pub lookahead: i32,
    pub result_symbol: u16,
    pub padding: u16,
}

/// The data prefix at `at`.
pub open spec fn lexer_data_at(bytes: Seq<u8>, at: int) -> LexerData {
    LexerData {
        lookahead: le_i32(bytes, at),
        result_symbol: le_u16(bytes, at + 4),
        padding: le_u16(bytes, at + 6),
    }
}

impl LexerData {
    /// The bytes of the prefix.
    pub open spec fn image(self) -> Seq<u8> {
        le_bytes(self.lookahead as u32) + seq![
            (self.result_symbol % 0x100) as u8,
            (self.result_symbol / 0x100) as u8,
            (self.padding % 0x100) as u8,
            (self.padding / 0x100) as u8,
        ]
    }

    /// Lays the prefix out.
    pub fn to_bytes(&self) -> (bytes: [u8; 8])
        ensures
            bytes@ == self.image(),
            bytes@.len() == LEXER_DATA_PREFIX_SIZE,
    {
        let lookahead = put_u32(self.lookahead as u32);
        [
            lookahead[0],
            lookahead[1],
            lookahead[2],
            lookahead[3],
            (self.result_symbol % 0x100) as u8,
            (self.result_symbol / 0x100) as u8,
            (self.padding % 0x100) as u8,
            (self.padding / 0x100) as u8,
        ]
    }

    /// Reads the prefix at `at`.
    pub fn from_bytes(bytes: &[u8], at: usize) -> (data: LexerData)
        requires
            at + LEXER_DATA_PREFIX_SIZE <= bytes.len(),
        ensures
            data == lexer_data_at(bytes@, at as int),
    {
        LexerData {
            lookahead: get_i32(bytes, at),
            result_symbol: get_u16(bytes, at + 4),
            padding: get_u16(bytes, at + 6),
        }
    }
}

/// A prefix that was laid out somewhere reads back as itself.
pub proof fn lexer_data_round_trip(data: LexerData, before: Seq<u8>, after: Seq<u8>)
    ensures
        lexer_data_at(before + data.image() + after, before.len() as int) == data,
        data.image().len() == LEXER_DATA_PREFIX_SIZE,
{
    let image = data.image();
    let bytes = before + image + after;
    let at = before.len() as int;
    assert forall|i: int| 0 <= i < 8 implies #[trigger] bytes[at + i] == image[i] by {}
    let lookahead = data.lookahead;
    assert(le_u32(bytes, at) == lookahead as u32) by {
        le_round_trip(lookahead as u32);
        assert(bytes[at + 0] == image[0]);
        assert(bytes[at + 1] == image[1]);
        assert(bytes[at + 2] == image[2]);
        assert(bytes[at + 3] == image[3]);
    }
    assert(lookahead as u32 as i32 == lookahead) by (bit_vector);
    assert(le_u16(bytes, at + 4) == data.result_symbol) by {
        assert(bytes[at + 4] == image[4]);
        assert(bytes[at + 5] == image[5]);
    }
    assert(le_u16(bytes, at + 6) == data.padding) by {
        assert(bytes[at + 6] == image[6]);
        assert(bytes[at + 7] == image[7]);
    }
}

/// What a native lexer can be asked.
pub enum LexerRequest {
    /// To move on, and whether to skip the character.
    Advance(bool),
    MarkEnd,
    GetColumn,
    IsAtIncludedRangeStart,
    Eof,
}

/// What a native lexer does. What comes of a request is the lexer's own to say:
/// `can_answer` stands for it, and each function says no more than which
/// request it is.
pub trait LexerFunctions {
    /// Whether a lexer can answer a request like this, with that data after it.
    /// Where there is no answer it is zero. A lexer of which nothing is known
    /// can answer anything.
    open spec fn can_answer(
        &self,
        data: LexerData,
        request: LexerRequest,
        after: LexerData,
        answer: u32,
    ) -> bool {
        true
    }

    /// Moves to the next character, which it may skip.
    fn advance(&mut self, data: &mut LexerData, skip: bool)
        ensures
            old(self).can_answer(*old(data), LexerRequest::Advance(skip), *final(data), 0),
    ;

    /// Marks the current position as the end of the token.
    fn mark_end(&mut self, data: &mut LexerData)
        ensures
            old(self).can_answer(*old(data), LexerRequest::MarkEnd, *final(data), 0),
    ;

    /// The column of the current position.
    fn get_column(&mut self, data: &mut LexerData) -> (column: u32)
        ensures
            old(self).can_answer(*old(data), LexerRequest::GetColumn, *final(data), column),
    ;

    /// Whether the current position starts an included range.
    fn is_at_included_range_start(&mut self, data: &mut LexerData) -> (starts: bool)
        ensures
            old(self).can_answer(
                *old(data),
                LexerRequest::IsAtIncludedRangeStart,
                *final(data),
                truth_number(starts),
            ),
    ;

    /// Whether the input has ended.
    fn eof(&mut self, data: &mut LexerData) -> (ended: bool)
        ensures
            old(self).can_answer(
                *old(data),
                LexerRequest::Eof,
                *final(data),
                truth_number(ended),
            ),
    ;
}

/// A truth value as a number.
pub open spec fn truth_number(value: bool) -> u32 {
    if value {
        1
    } else {
        0
    }
}

/// A native lexer: its data prefix, and its functions.
pub struct CLexer {
    pub data: LexerData,
    pub functions: Box<dyn LexerFunctions>,
}

} // verus!
