//! The reader over command text that the argument parsers share: a byte
//! cursor into the UTF-8 text, as in Brigadier's `StringReader`.

use vstd::prelude::*;
use vstd::utf8::*;
use vstd::string::*;
use crate::text::{utf8, cut_point, byte_char, substring, is_ascii_whitespace_byte,
    lemma_after_ascii_not_continuation};

verus! {

broadcast use vstd::utf8::encode_utf8_valid_utf8, vstd::utf8::encode_utf8_decode_utf8;

pub struct StringReaderModel {
    input: String,
    cursor: usize,
}

/// The bytes from `from` up to the first ASCII whitespace byte, or the end.
pub open spec fn unquoted_end(bytes: Seq<u8>, from: int) -> int
    decreases bytes.len() - from,
{
    if from >= bytes.len() || is_ascii_whitespace_byte(bytes[from]) {
        from
    } else {
        unquoted_end(bytes, from + 1)
    }
}

/// The bytes from `from` up to the first space byte, or the end.
pub open spec fn space_end(bytes: Seq<u8>, from: int) -> int
    decreases bytes.len() - from,
{
    if from >= bytes.len() || bytes[from] == 32 {
        from
    } else {
        space_end(bytes, from + 1)
    }
}

pub proof fn lemma_space_end(bytes: Seq<u8>, from: int)
    requires
        0 <= from <= bytes.len(),
    ensures
        from <= space_end(bytes, from) <= bytes.len(),
        forall|i: int| from <= i < space_end(bytes, from) ==> #[trigger] bytes[i] != 32,
        space_end(bytes, from) < bytes.len() ==> bytes[space_end(bytes, from)] == 32,
    decreases bytes.len() - from,
{
    if from < bytes.len() && bytes[from] != 32 {
        lemma_space_end(bytes, from + 1);
    }
}

pub proof fn lemma_unquoted_end(bytes: Seq<u8>, from: int)
    requires
        0 <= from <= bytes.len(),
    ensures
        from <= unquoted_end(bytes, from) <= bytes.len(),
        forall|i: int| from <= i < unquoted_end(bytes, from) ==> !is_ascii_whitespace_byte(#[trigger] bytes[i]),
        unquoted_end(bytes, from) < bytes.len() ==> is_ascii_whitespace_byte(bytes[unquoted_end(bytes, from)]),
    decreases bytes.len() - from,
{
    if from < bytes.len() && !is_ascii_whitespace_byte(bytes[from]) {
        lemma_unquoted_end(bytes, from + 1);
    }
}

pub fn is_ascii_whitespace(c: char) -> (r: bool)
    ensures
        r == (c == ' ' || c == '\t' || c == '\n' || c == '\u{0C}' || c == '\r'),
{
    c == ' ' || c == '\t' || c == '\n' || c == '\u{0C}' || c == '\r'
}

impl StringReaderModel {
    /// The UTF-8 bytes of the text being read.
    pub closed spec fn bytes(&self) -> Seq<u8> {
        utf8(self.input@)
    }

    /// The characters of the text being read.
    pub closed spec fn text(&self) -> Seq<char> {
        self.input@
    }

    /// The byte position of the reader.
    pub closed spec fn pos(&self) -> int {
        self.cursor as int
    }

    /// The reader's position is one at which the text may be cut.
    pub open spec fn at_cut(&self) -> bool {
        cut_point(self.bytes(), self.pos())
    }

    pub proof fn lemma_bytes(&self)
        ensures
            self.bytes() == utf8(self.text()),
            valid_utf8(self.bytes()),
            decode_utf8(self.bytes()) == self.text(),
            0 <= self.pos() <= usize::MAX,
    {
    }

    pub fn new(input: &str) -> (r: Self)
        ensures
            r.text() == input@,
            r.bytes() == utf8(input@),
            r.pos() == 0,
            r.at_cut(),
    {
        StringReaderModel { input: input.to_owned(), cursor: 0 }
    }

    pub fn with_cursor(self, cursor: usize) -> (r: Self)
        ensures
            r.text() == self.text(),
            r.bytes() == self.bytes(),
            r.pos() == cursor,
    {
        StringReaderModel { input: self.input, cursor }
    }

    pub fn cursor(&self) -> (r: usize)
        ensures
            r == self.pos(),
    {
        self.cursor
    }

    pub fn set_cursor(&mut self, cursor: usize)
        ensures
            final(self).text() == old(self).text(),
            final(self).bytes() == old(self).bytes(),
            final(self).pos() == cursor,
    {
        self.cursor = cursor;
    }

    pub fn total_len(&self) -> (r: usize)
        ensures
            r == self.bytes().len(),
    {
        self.input.as_str().as_bytes().len()
    }

    /// Whether the reader's position is one at which the text may be cut.
    pub fn at_char_boundary(&self) -> (r: bool)
        ensures
            r == self.at_cut(),
    {
        let b = self.input.as_str().as_bytes();
        let n = b.len();
        if self.cursor > n {
            false
        } else if self.cursor == 0 || self.cursor == n {
            true
        } else {
            let x = b[self.cursor];
            !(0x80 <= x && x <= 0xbf)
        }
    }

    pub fn can_read(&self) -> (r: bool)
        ensures
            r == (self.pos() < self.bytes().len()),
    {
        self.cursor < self.input.as_str().as_bytes().len()
    }

    /// The byte under the cursor, read as a character.
    pub fn peek(&self) -> (c: char)
        requires
            0 <= self.pos() < self.bytes().len(),
        ensures
            c == byte_char(self.bytes()[self.pos()]),
            (c as u32) < 256,
    {
        let b = self.input.as_str().as_bytes()[self.cursor];
        b as char
    }

    /// The byte under the cursor.
    pub fn peek_byte(&self) -> (b: u8)
        requires
            0 <= self.pos() < self.bytes().len(),
        ensures
            b == self.bytes()[self.pos()],
    {
        self.input.as_str().as_bytes()[self.cursor]
    }

    /// The byte at a given position.
    pub fn byte_at(&self, i: usize) -> (b: u8)
        requires
            i < self.bytes().len(),
        ensures
            b == self.bytes()[i as int],
    {
        self.input.as_str().as_bytes()[i]
    }

    pub fn skip(&mut self)
        requires
            old(self).pos() < old(self).bytes().len(),
        ensures
            final(self).text() == old(self).text(),
            final(self).bytes() == old(self).bytes(),
            final(self).pos() == old(self).pos() + 1,
    {
        let _len = self.input.as_str().as_bytes().len();
        self.cursor = self.cursor + 1;
    }

    /// The text between two cut points.
    pub fn slice(&self, start: usize, end: usize) -> (r: &str)
        requires
            start <= end,
            cut_point(self.bytes(), start as int),
            cut_point(self.bytes(), end as int),
        ensures
            utf8(r@) == self.bytes().subrange(start as int, end as int),
    {
        substring(self.input.as_str(), start, end)
    }

    /// The text between two cut points, as an owned string.
    pub fn slice_string(&self, start: usize, end: usize) -> (r: String)
        requires
            start <= end,
            cut_point(self.bytes(), start as int),
            cut_point(self.bytes(), end as int),
        ensures
            utf8(r@) == self.bytes().subrange(start as int, end as int),
    {
        substring(self.input.as_str(), start, end).to_owned()
    }

    /// Moves to the next space byte or the end of the text.
    pub fn skip_to_space(&mut self)
        requires
            old(self).pos() <= old(self).bytes().len(),
        ensures
            final(self).text() == old(self).text(),
            final(self).bytes() == old(self).bytes(),
            final(self).pos() == space_end(old(self).bytes(), old(self).pos()),
            old(self).pos() <= final(self).pos() <= old(self).bytes().len(),
            final(self).at_cut(),
    {
        let ghost b = self.bytes();
        let ghost start = self.pos();
        proof {
            lemma_space_end(b, start);
        }
        while self.can_read() && self.peek_byte() != 32
            invariant
                self.text() == old(self).text(),
                self.bytes() == b,
                start <= self.pos() <= b.len(),
                space_end(b, self.pos() as int) == space_end(b, start),
            decreases b.len() - self.pos(),
        {
            self.skip();
        }
    }

    /// Reads up to the next ASCII whitespace byte or the end of the text.
    pub fn read_unquoted_string(&mut self) -> (r: String)
        requires
            old(self).at_cut(),
        ensures
            final(self).text() == old(self).text(),
            final(self).bytes() == old(self).bytes(),
            final(self).pos() == unquoted_end(old(self).bytes(), old(self).pos()),
            old(self).pos() <= final(self).pos() <= old(self).bytes().len(),
            final(self).at_cut(),
            utf8(r@) == old(self).bytes().subrange(old(self).pos(), final(self).pos()),
    {
        let start = self.cursor;
        let ghost b = self.bytes();
        proof {
            lemma_unquoted_end(b, start as int);
        }
        while self.can_read() && !is_ascii_whitespace(self.peek())
            invariant
                self.text() == old(self).text(),
                self.bytes() == b,
                b == old(self).bytes(),
                start == old(self).pos(),
                start <= self.pos() <= b.len(),
                unquoted_end(b, self.pos() as int) == unquoted_end(b, start as int),
            decreases b.len() - self.pos(),
        {
            self.skip();
        }
        proof {
            lemma_cut_after_whitespace(b, self.pos());
        }
        self.slice_string(start, self.cursor)
    }
}

/// The reader moved forward over the same text and may be cut where it stands.
pub open spec fn advanced(before: StringReaderModel, after: StringReaderModel) -> bool {
    &&& after.text() == before.text()
    &&& after.bytes() == before.bytes()
    &&& after.at_cut()
    &&& before.pos() <= after.pos() <= before.bytes().len()
}

/// A position at the end of the text or at an ASCII byte is a cut point.
pub proof fn lemma_cut_at_ascii(bytes: Seq<u8>, pos: int)
    requires
        0 <= pos <= bytes.len(),
        pos < bytes.len() ==> bytes[pos] < 0x80,
    ensures
        cut_point(bytes, pos),
{
}

proof fn lemma_cut_after_whitespace(bytes: Seq<u8>, pos: int)
    requires
        0 <= pos <= bytes.len(),
        pos < bytes.len() ==> is_ascii_whitespace_byte(bytes[pos]),
    ensures
        cut_point(bytes, pos),
{
}

/// After an ASCII byte the text may be cut.
pub proof fn lemma_cut_after_ascii(bytes: Seq<u8>, pos: int)
    requires
        valid_utf8(bytes),
        0 < pos <= bytes.len(),
        bytes[pos - 1] < 0x80,
    ensures
        cut_point(bytes, pos),
{
    if pos < bytes.len() {
        lemma_after_ascii_not_continuation(bytes, pos);
    }
}


/// The end of a token read from `p` that stops at ASCII whitespace outside
/// square brackets; a `]` with no open bracket leaves the depth at zero.
pub open spec fn bracket_token_end(b: Seq<u8>, p: int, depth: nat) -> int
    decreases b.len() - p,
{
    if p < 0 || p >= b.len() {
        p
    } else if b[p] == 91u8 {
        bracket_token_end(b, p + 1, depth + 1)
    } else if b[p] == 93u8 {
        bracket_token_end(b, p + 1, if depth > 0 { (depth - 1) as nat } else { 0 })
    } else if is_ascii_whitespace_byte(b[p]) && depth == 0 {
        p
    } else {
        bracket_token_end(b, p + 1, depth)
    }
}

/// The first position at or after `p` that is not ASCII whitespace.
pub open spec fn skip_ascii_white(b: Seq<u8>, p: int) -> int
    decreases b.len() - p,
{
    if 0 <= p < b.len() && is_ascii_whitespace_byte(b[p]) {
        skip_ascii_white(b, p + 1)
    } else {
        p
    }
}

/// The end of a bracket group read from `i`: just after the `]` that brings
/// the depth back to zero, or the end of the text.
pub open spec fn close_end(b: Seq<u8>, i: int, depth: nat) -> int
    decreases b.len() - i,
{
    if i < 0 || i >= b.len() {
        i
    } else if b[i] == 91u8 {
        close_end(b, i + 1, depth + 1)
    } else if b[i] == 93u8 {
        let d: nat = if depth > 0 { (depth - 1) as nat } else { 0 };
        if d == 0 { i + 1 } else { close_end(b, i + 1, d) }
    } else {
        close_end(b, i + 1, depth)
    }
}

/// The end of a selector token at an `@`: the `@`, the byte after it, and
/// the bracket group that follows them, if one does.
pub open spec fn selector_token_end(b: Seq<u8>, p: int) -> int {
    let q = if p + 1 < b.len() { p + 2 } else { p + 1 };
    if q < b.len() && b[q] == 91u8 { close_end(b, q, 0) } else { q }
}

proof fn lemma_bracket_token_end(b: Seq<u8>, p: int, depth: nat)
    requires
        0 <= p <= b.len(),
    ensures
        p <= bracket_token_end(b, p, depth) <= b.len(),
        bracket_token_end(b, p, depth) < b.len() ==> is_ascii_whitespace_byte(b[bracket_token_end(b, p, depth)]),
    decreases b.len() - p,
{
    if p < b.len() {
        if b[p] == 91u8 {
            lemma_bracket_token_end(b, p + 1, depth + 1);
        } else if b[p] == 93u8 {
            lemma_bracket_token_end(b, p + 1, if depth > 0 { (depth - 1) as nat } else { 0 });
        } else if !(is_ascii_whitespace_byte(b[p]) && depth == 0) {
            lemma_bracket_token_end(b, p + 1, depth);
        }
    }
}

proof fn lemma_close_end(b: Seq<u8>, i: int, depth: nat)
    requires
        0 <= i <= b.len(),
    ensures
        i <= close_end(b, i, depth) <= b.len(),
        close_end(b, i, depth) == b.len() || (close_end(b, i, depth) > i && b[close_end(b, i, depth) - 1] == 93u8),
    decreases b.len() - i,
{
    if i < b.len() {
        if b[i] == 91u8 {
            lemma_close_end(b, i + 1, depth + 1);
        } else if b[i] == 93u8 {
            let d: nat = if depth > 0 { (depth - 1) as nat } else { 0 };
            if d != 0 {
                lemma_close_end(b, i + 1, d);
            }
        } else {
            lemma_close_end(b, i + 1, depth);
        }
    }
}

proof fn lemma_skip_ascii_white(b: Seq<u8>, p: int)
    requires
        0 <= p <= b.len(),
    ensures
        p <= skip_ascii_white(b, p) <= b.len(),
        skip_ascii_white(b, p) > p ==> is_ascii_whitespace_byte(b[skip_ascii_white(b, p) - 1]),
    decreases b.len() - p,
{
    if p < b.len() && is_ascii_whitespace_byte(b[p]) {
        lemma_skip_ascii_white(b, p + 1);
        if skip_ascii_white(b, p + 1) == p + 1 {
            assert(is_ascii_whitespace_byte(b[p]));
        }
    }
}

impl StringReaderModel {
    /// Moves over a token that ends at ASCII whitespace outside square brackets.
    fn skip_bracketed(&mut self)
        requires
            old(self).pos() <= old(self).bytes().len(),
        ensures
            final(self).text() == old(self).text(),
            final(self).bytes() == old(self).bytes(),
            final(self).pos() == bracket_token_end(old(self).bytes(), old(self).pos(), 0),
    {
        let ghost b = self.bytes();
        let ghost start = self.pos();
        let _n = self.total_len();
        let mut depth: usize = 0;
        while self.can_read()
            invariant
                self.text() == old(self).text(),
                self.bytes() == b,
                b.len() <= usize::MAX,
                start <= self.pos() <= b.len(),
                depth <= self.pos(),
                bracket_token_end(b, self.pos(), depth as nat) == bracket_token_end(b, start, 0),
            decreases b.len() - self.pos(),
        {
            let c = self.peek_byte();
            if c == 91 {
                depth = depth + 1;
            } else if c == 93 {
                depth = if depth > 0 { depth - 1 } else { 0 };
            } else if (c == 32 || c == 9 || c == 10 || c == 12 || c == 13) && depth == 0 {
                break;
            }
            self.skip();
        }
    }

    /// Reads a token that ends at ASCII whitespace outside square brackets.
    pub fn read_bracketed_token(&mut self) -> (r: String)
        requires
            old(self).at_cut(),
        ensures
            final(self).text() == old(self).text(),
            final(self).bytes() == old(self).bytes(),
            final(self).pos() == bracket_token_end(old(self).bytes(), old(self).pos(), 0),
            advanced(*old(self), *final(self)),
            utf8(r@) == old(self).bytes().subrange(old(self).pos(), final(self).pos()),
    {
        let start = self.cursor;
        proof {
            self.lemma_bytes();
            lemma_bracket_token_end(self.bytes(), start as int, 0);
        }
        self.skip_bracketed();
        proof {
            lemma_cut_after_whitespace(self.bytes(), self.pos());
        }
        self.slice_string(start, self.cursor)
    }

    /// Skips ASCII whitespace, then reads a token that ends at ASCII
    /// whitespace outside square brackets.
    pub fn read_entity_token(&mut self) -> (r: String)
        requires
            old(self).at_cut(),
        ensures
            final(self).text() == old(self).text(),
            final(self).bytes() == old(self).bytes(),
            final(self).pos() == bracket_token_end(old(self).bytes(), skip_ascii_white(old(self).bytes(), old(self).pos()), 0),
            advanced(*old(self), *final(self)),
            utf8(r@) == old(self).bytes().subrange(skip_ascii_white(old(self).bytes(), old(self).pos()), final(self).pos()),
    {
        let ghost b = self.bytes();
        proof {
            self.lemma_bytes();
            lemma_skip_ascii_white(b, self.pos());
        }
        while self.can_read() && is_ascii_whitespace(self.peek())
            invariant
                self.text() == old(self).text(),
                self.bytes() == b,
                old(self).pos() <= self.pos() <= b.len(),
                skip_ascii_white(b, self.pos()) == skip_ascii_white(b, old(self).pos()),
            decreases b.len() - self.pos(),
        {
            self.skip();
        }
        proof {
            if self.pos() > old(self).pos() {
                lemma_cut_after_ascii(b, self.pos());
            }
        }
        self.read_bracketed_token()
    }

    /// Reads a selector token at an `@`: the `@`, the byte after it, and the
    /// bracket group that follows them, if one does.
    pub fn read_argument_token(&mut self) -> (r: String)
        requires
            old(self).at_cut(),
            old(self).pos() < old(self).bytes().len(),
            old(self).bytes()[old(self).pos()] == 64u8,
            old(self).pos() + 1 < old(self).bytes().len() ==> old(self).bytes()[old(self).pos() + 1] < 0x80,
        ensures
            final(self).text() == old(self).text(),
            final(self).bytes() == old(self).bytes(),
            final(self).pos() == selector_token_end(old(self).bytes(), old(self).pos()),
            advanced(*old(self), *final(self)),
            utf8(r@) == old(self).bytes().subrange(old(self).pos(), final(self).pos()),
    {
        let ghost b = self.bytes();
        let start = self.cursor;
        let _n = self.total_len();
        proof {
            self.lemma_bytes();
        }
        self.skip();
        if self.can_read() {
            self.skip();
        }
        let q = self.cursor;
        if self.can_read() && self.peek_byte() == 91 {
            let mut depth: usize = 0;
            proof {
                lemma_close_end(b, q as int, 0);
            }
            loop
                invariant
                    self.text() == old(self).text(),
                    self.bytes() == b,
                    b.len() <= usize::MAX,
                    q <= self.pos() <= b.len(),
                    depth <= self.pos(),
                    self.pos() == q ==> depth == 0,
                    self.pos() > q ==> depth > 0,
                    close_end(b, self.pos(), depth as nat) == close_end(b, q as int, 0),
                decreases b.len() - self.pos(),
            {
                if !self.can_read() {
                    break;
                }
                let c = self.peek_byte();
                if c == 91 {
                    depth = depth + 1;
                } else if c == 93 {
                    depth = if depth > 0 { depth - 1 } else { 0 };
                    self.skip();
                    if depth == 0 {
                        break;
                    }
                    continue;
                }
                self.skip();
            }
        }
        proof {
            lemma_close_end(b, q as int, 0);
            let e = self.pos();
            if e < b.len() {
                assert(e > 0);
                assert(b[e - 1] < 0x80);
                lemma_cut_after_ascii(b, e);
            }
        }
        self.slice_string(start, self.cursor)
    }
}

pub proof fn lemma_selector_token_end(b: Seq<u8>, i: int)
    requires
        0 <= i < b.len(),
    ensures
        i < selector_token_end(b, i) <= b.len(),
{
    let q = if i + 1 < b.len() { i + 2 } else { i + 1 };
    if q < b.len() && b[q] == 91u8 {
        lemma_close_end(b, q, 0);
    }
}
} // verus!
