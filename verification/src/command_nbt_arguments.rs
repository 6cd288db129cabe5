//! The `compound_tag` and `nbt_tag` arguments: tags written as text, with
//! compounds `{key:value,...}`, lists `[value,...]`, quoted strings, and
//! unquoted numbers (`b` for a byte, `l` for a long, a point for a double)
//! or words.

use vstd::prelude::*;
use vstd::utf8::decode_utf8;
use crate::text::{utf8, is_ascii_whitespace_byte};
use crate::search::{scan_end, first_index_from, lemma_first_index_from};
use crate::string_reader::{lemma_cut_at_ascii, lemma_cut_after_ascii, advanced};
use crate::decimal::{signed_decimal, all_digits, parse_i8, parse_i32, parse_i64};
use crate::arg_map::ArgMap;
pub use crate::string_reader::StringReaderModel;

verus! {

broadcast use vstd::utf8::encode_utf8_decode_utf8, vstd::utf8::encode_utf8_valid_utf8;

/// A tag. A double is kept as the decimal text it was written with.
#[derive(Debug, PartialEq, Eq)]
pub enum TagModel {
    Byte(i8),
    Int(i32),
    Long(i64),
    Double(String),
    String(String),
    Compound(CompoundTagModel),
    List(Vec<TagModel>),
}

/// The named fields of a compound, in the order they were written.
#[derive(Debug, Default, PartialEq, Eq)]
pub struct CompoundTagModel {
    fields: Vec<(String, TagModel)>,
}

#[derive(Debug, Clone, Copy, PartialEq, Eq, Structural)]
pub enum TagParseError {
    ExpectedCompound,
    ExpectedKey,
    ExpectedSeparator,
    ExpectedValue,
    UnclosedCompound,
    UnclosedList,
    InvalidNumber,
}

/// The value of a tag: texts as characters.
pub enum TagValue {
    Byte(i8),
    Int(i32),
    Long(i64),
    Double(Seq<char>),
    Str(Seq<char>),
    Compound(Seq<(Seq<char>, TagValue)>),
    List(Seq<TagValue>),
}

impl TagModel {
    pub closed spec fn deep(&self) -> TagValue
        decreases self,
    {
        match self {
            TagModel::Byte(b) => TagValue::Byte(*b),
            TagModel::Int(i) => TagValue::Int(*i),
            TagModel::Long(l) => TagValue::Long(*l),
            TagModel::Double(t) => TagValue::Double(t@),
            TagModel::String(s) => TagValue::Str(s@),
            TagModel::Compound(c) => TagValue::Compound(fields_value(c.fields@)),
            TagModel::List(values) => TagValue::List(values_value(values@)),
        }
    }
}

pub open spec fn fields_value(fields: Seq<(String, TagModel)>) -> Seq<(Seq<char>, TagValue)>
    decreases fields,
{
    if fields.len() == 0 {
        seq![]
    } else {
        fields_value(fields.drop_last()).push((fields.last().0@, fields.last().1.deep()))
    }
}

pub open spec fn values_value(values: Seq<TagModel>) -> Seq<TagValue>
    decreases values,
{
    if values.len() == 0 {
        seq![]
    } else {
        values_value(values.drop_last()).push(values.last().deep())
    }
}

impl CompoundTagModel {
    pub closed spec fn fields_view(&self) -> Seq<(Seq<char>, TagValue)> {
        fields_value(self.fields@)
    }
}

pub proof fn lemma_fields_value(fields: Seq<(String, TagModel)>)
    ensures
        fields_value(fields).len() == fields.len(),
        forall|i: int| 0 <= i < fields.len() ==> #[trigger] fields_value(fields)[i] == (fields[i].0@, fields[i].1.deep()),
    decreases fields.len(),
{
    if fields.len() > 0 {
        lemma_fields_value(fields.drop_last());
        assert forall|i: int| 0 <= i < fields.len() implies #[trigger] fields_value(fields)[i] == (fields[i].0@, fields[i].1.deep()) by {
            if i < fields.len() - 1 {
                assert(fields.drop_last()[i] == fields[i]);
            }
        }
    }
}

pub proof fn lemma_values_value(values: Seq<TagModel>)
    ensures
        values_value(values).len() == values.len(),
        forall|i: int| 0 <= i < values.len() ==> #[trigger] values_value(values)[i] == values[i].deep(),
    decreases values.len(),
{
    if values.len() > 0 {
        lemma_values_value(values.drop_last());
        assert forall|i: int| 0 <= i < values.len() implies #[trigger] values_value(values)[i] == values[i].deep() by {
            if i < values.len() - 1 {
                assert(values.drop_last()[i] == values[i]);
            }
        }
    }
}

pub open spec fn not_ws() -> spec_fn(u8) -> bool {
    |b: u8| !is_ascii_whitespace_byte(b)
}

/// The first position at or after `p` that is not ASCII white space.
pub open spec fn ws_end(v: Seq<u8>, p: int) -> int {
    scan_end(v, p, not_ws())
}

/// Bytes that end an unquoted value: `,`, `}`, `]`, space, tab, line feed
/// and carriage return.
pub open spec fn value_stops() -> spec_fn(u8) -> bool {
    |b: u8| b == 44 || b == 125 || b == 93 || b == 32 || b == 9 || b == 10 || b == 13
}

/// Bytes of an unquoted key: ASCII letters and digits, `_`, `-`, `.`, `+`, `/`.
pub open spec fn key_byte(b: u8) -> bool {
    (48 <= b <= 57) || (65 <= b <= 90) || (97 <= b <= 122) || b == 95 || b == 45 || b == 46 || b == 43 || b == 47
}

pub open spec fn key_stops() -> spec_fn(u8) -> bool {
    |b: u8| !key_byte(b)
}

pub open spec fn quote_stops(q: u8) -> spec_fn(u8) -> bool {
    |b: u8| b == q
}

pub open spec fn is_quote(b: u8) -> bool {
    b == 34 || b == 39
}

/// The state of reading decimal float text after the bytes: 0 at the
/// start, 1 after a sign, 2 in whole digits, 3 at a point with no digit
/// yet, 4 after a point with a digit, 5 after the exponent mark, 6 after
/// its sign, 7 in exponent digits, -1 once the text cannot be a float.
pub open spec fn float_state(s: Seq<u8>) -> int
    decreases s.len(),
{
    if s.len() == 0 {
        0
    } else {
        float_step(float_state(s.drop_last()), s.last())
    }
}

pub open spec fn float_step(state: int, b: u8) -> int {
    let digit = 48 <= b <= 57;
    let sign = b == 43 || b == 45;
    let point = b == 46;
    let mark = b == 101 || b == 69;
    if state == 0 {
        if sign { 1 } else if digit { 2 } else if point { 3 } else { -1 }
    } else if state == 1 {
        if digit { 2 } else if point { 3 } else { -1 }
    } else if state == 2 {
        if digit { 2 } else if point { 4 } else if mark { 5 } else { -1 }
    } else if state == 3 {
        if digit { 4 } else { -1 }
    } else if state == 4 {
        if digit { 4 } else if mark { 5 } else { -1 }
    } else if state == 5 {
        if sign { 6 } else if digit { 7 } else { -1 }
    } else if state == 6 || state == 7 {
        if digit { 7 } else { -1 }
    } else {
        -1
    }
}

/// Decimal float text as `str::parse::<f64>` reads it, where it is not a
/// name such as `inf`: a sign, digits with at most one point and at least
/// one digit, and an exponent with digits.
pub open spec fn float_text(s: Seq<u8>) -> bool {
    let st = float_state(s);
    st == 2 || st == 4 || st == 7
}

/// The value of an unquoted word: a byte with a `b` or `B` suffix, a long
/// with `l` or `L`, a double when it has a point, an integer that fits in
/// 32 bits, or else the word as a string.
pub open spec fn number_tag(raw: Seq<u8>) -> Result<TagValue, TagParseError> {
    if raw.len() > 0 && (raw.last() == 98u8 || raw.last() == 66u8) {
        match signed_decimal(raw.drop_last()) {
            Some(n) => if -128 <= n <= 127 { Ok(TagValue::Byte(n as i8)) } else { Err(TagParseError::InvalidNumber) },
            None => Err(TagParseError::InvalidNumber),
        }
    } else if raw.len() > 0 && (raw.last() == 108u8 || raw.last() == 76u8) {
        match signed_decimal(raw.drop_last()) {
            Some(n) => if i64::MIN <= n <= i64::MAX { Ok(TagValue::Long(n as i64)) } else { Err(TagParseError::InvalidNumber) },
            None => Err(TagParseError::InvalidNumber),
        }
    } else if raw.contains(46u8) {
        if float_text(raw) { Ok(TagValue::Double(decode_utf8(raw))) } else { Err(TagParseError::InvalidNumber) }
    } else {
        match signed_decimal(raw) {
            Some(n) => if i32::MIN <= n <= i32::MAX { Ok(TagValue::Int(n as i32)) } else { Ok(TagValue::Str(decode_utf8(raw))) },
            None => Ok(TagValue::Str(decode_utf8(raw))),
        }
    }
}

/// An unquoted value at `p`, and where the reader stops.
pub open spec fn unquoted_read(v: Seq<u8>, p: int) -> (Result<TagValue, TagParseError>, int) {
    let e = scan_end(v, p, value_stops());
    if e == p {
        (Err(TagParseError::ExpectedValue), p)
    } else {
        (number_tag(v.subrange(p, e)), e)
    }
}

/// A string quoted by the byte at `p`, and where the reader stops.
pub open spec fn quoted_read(v: Seq<u8>, p: int) -> (Result<Seq<char>, TagParseError>, int) {
    let e = scan_end(v, p + 1, quote_stops(v[p]));
    if e >= v.len() {
        (Err(TagParseError::ExpectedValue), e)
    } else {
        (Ok(decode_utf8(v.subrange(p + 1, e))), e + 1)
    }
}

/// A key at `p`, quoted or unquoted, and where the reader stops.
pub open spec fn key_read(v: Seq<u8>, p: int) -> (Result<Seq<char>, TagParseError>, int) {
    let q = ws_end(v, p);
    if q >= v.len() {
        (Err(TagParseError::ExpectedKey), q)
    } else if is_quote(v[q]) {
        quoted_read(v, q)
    } else {
        let e = scan_end(v, q, key_stops());
        if e == q {
            (Err(TagParseError::ExpectedKey), q)
        } else {
            (Ok(decode_utf8(v.subrange(q, e))), e)
        }
    }
}

/// A tag at `p`, after white space, and where the reader stops.
pub open spec fn tag_read(v: Seq<u8>, p: int) -> (Result<TagValue, TagParseError>, int)
    decreases v.len() - p, 1int,
{
    let q = ws_end(v, p);
    if q < p || q >= v.len() {
        (Err(TagParseError::ExpectedValue), q)
    } else if v[q] == 123u8 {
        let c = compound_read(v, q);
        (
            match c.0 {
                Ok(fields) => Ok(TagValue::Compound(fields)),
                Err(e) => Err(e),
            },
            c.1,
        )
    } else if v[q] == 91u8 {
        let l = list_read(v, q);
        (
            match l.0 {
                Ok(values) => Ok(TagValue::List(values)),
                Err(e) => Err(e),
            },
            l.1,
        )
    } else if is_quote(v[q]) {
        let t = quoted_read(v, q);
        (
            match t.0 {
                Ok(text) => Ok(TagValue::Str(text)),
                Err(e) => Err(e),
            },
            t.1,
        )
    } else {
        unquoted_read(v, q)
    }
}

/// A compound at `p`, after white space, and where the reader stops.
pub open spec fn compound_read(v: Seq<u8>, p: int) -> (Result<Seq<(Seq<char>, TagValue)>, TagParseError>, int)
    decreases v.len() - p, 0int,
{
    let q = ws_end(v, p);
    if q < p || q >= v.len() || v[q] != 123u8 {
        (Err(TagParseError::ExpectedCompound), q)
    } else {
        fields_read(v, q + 1, seq![])
    }
}

/// The fields of a compound from `p` on, after the `fields` read so far:
/// keys and values separated by `:` or `=`, each optionally followed by a
/// comma, up to `}`. (A field that is read always moves on, so the reading
/// ends.)
pub open spec fn fields_read(v: Seq<u8>, p: int, fields: Seq<(Seq<char>, TagValue)>)
    -> (Result<Seq<(Seq<char>, TagValue)>, TagParseError>, int)
    decreases v.len() - p, 2int,
{
    let q = ws_end(v, p);
    if q < p || q >= v.len() {
        (Err(TagParseError::UnclosedCompound), q)
    } else if v[q] == 125u8 {
        (Ok(fields), q + 1)
    } else {
        let key = key_read(v, q);
        match key.0 {
            Err(e) => (Err(e), key.1),
            Ok(name) => {
                let s = ws_end(v, key.1);
                if s < p || s >= v.len() || !(v[s] == 58u8 || v[s] == 61u8) {
                    (Err(TagParseError::ExpectedSeparator), s)
                } else {
                    let value = tag_read(v, s + 1);
                    match value.0 {
                        Err(e) => (Err(e), value.1),
                        Ok(x) => {
                            let t = ws_end(v, value.1);
                            let next = if t < v.len() && v[t] == 44u8 { t + 1 } else { t };
                            if p < next <= v.len() {
                                fields_read(v, next, fields.push((name, x)))
                            } else {
                                (Ok(fields.push((name, x))), next)
                            }
                        },
                    }
                }
            },
        }
    }
}

/// A list at `p`, after white space, and where the reader stops.
pub open spec fn list_read(v: Seq<u8>, p: int) -> (Result<Seq<TagValue>, TagParseError>, int)
    decreases v.len() - p, 0int,
{
    let q = ws_end(v, p);
    if q < p || q >= v.len() || v[q] != 91u8 {
        (Err(TagParseError::ExpectedValue), q)
    } else {
        elements_read(v, q + 1, seq![])
    }
}

/// The elements of a list from `p` on, after the `values` read so far,
/// each optionally followed by a comma, up to `]`. (An element that is read
/// always moves on, so the reading ends.)
pub open spec fn elements_read(v: Seq<u8>, p: int, values: Seq<TagValue>) -> (Result<Seq<TagValue>, TagParseError>, int)
    decreases v.len() - p, 2int,
{
    let q = ws_end(v, p);
    if q < p || q >= v.len() {
        (Err(TagParseError::UnclosedList), q)
    } else if v[q] == 93u8 {
        (Ok(values), q + 1)
    } else {
        let value = tag_read(v, q);
        match value.0 {
            Err(e) => (Err(e), value.1),
            Ok(x) => {
                let t = ws_end(v, value.1);
                let next = if t < v.len() && v[t] == 44u8 { t + 1 } else { t };
                if p < next <= v.len() {
                    elements_read(v, next, values.push(x))
                } else {
                    (Ok(values.push(x)), next)
                }
            },
        }
    }
}

/// The value of a tag reading.
pub open spec fn tag_result(r: Result<TagModel, TagParseError>) -> Result<TagValue, TagParseError> {
    match r {
        Ok(t) => Ok(t.deep()),
        Err(e) => Err(e),
    }
}

/// The value of a string reading.
pub open spec fn text_result(r: Result<String, TagParseError>) -> Result<Seq<char>, TagParseError> {
    match r {
        Ok(t) => Ok(t@),
        Err(e) => Err(e),
    }
}

pub open spec fn stops_of(kind: u8) -> spec_fn(u8) -> bool {
    if kind == 0 {
        not_ws()
    } else if kind == 1 {
        value_stops()
    } else if kind == 2 {
        key_stops()
    } else if kind == 3 {
        quote_stops(34u8)
    } else {
        quote_stops(39u8)
    }
}

fn is_stop(b: u8, kind: u8) -> (r: bool)
    ensures
        r == (stops_of(kind))(b),
{
    if kind == 0 {
        !(b == 32 || b == 9 || b == 10 || b == 12 || b == 13)
    } else if kind == 1 {
        b == 44 || b == 125 || b == 93 || b == 32 || b == 9 || b == 10 || b == 13
    } else if kind == 2 {
        !((48 <= b && b <= 57) || (65 <= b && b <= 90) || (97 <= b && b <= 122) || b == 95 || b == 45 || b == 46 || b == 43 || b == 47)
    } else if kind == 3 {
        b == 34
    } else {
        b == 39
    }
}

/// Moves the reader to the first stop byte of the kind (0: not white space,
/// 1: end of an unquoted value, 2: not a key byte, 3: `"`, 4: `'`) or the end.
fn scan(reader: &mut StringReaderModel, kind: u8)
    requires
        old(reader).at_cut(),
        kind <= 4,
    ensures
        advanced(*old(reader), *final(reader)),
        final(reader).pos() == scan_end(old(reader).bytes(), old(reader).pos(), stops_of(kind)),
{
    proof {
        reader.lemma_bytes();
    }
    let ghost v = reader.bytes();
    let ghost start = reader.pos();
    let ghost p = stops_of(kind);
    proof {
        lemma_first_index_from(v, p, start);
    }
    while reader.can_read() && !is_stop(reader.peek_byte(), kind)
        invariant
            reader.text() == old(reader).text(),
            reader.bytes() == v,
            0 <= start <= reader.pos() <= v.len(),
            first_index_from(v, p, reader.pos()) == first_index_from(v, p, start),
            reader.pos() > start ==> !p(v[reader.pos() - 1]),
        decreases v.len() - reader.pos(),
    {
        reader.skip();
    }
    proof {
        reader.lemma_bytes();
        lemma_first_index_from(v, p, reader.pos());
        if reader.pos() < v.len() && (kind == 1 || kind == 3 || kind == 4) {
            lemma_cut_at_ascii(v, reader.pos());
        } else if reader.pos() > start && reader.pos() < v.len() {
            let b = v[reader.pos() - 1];
            if kind == 0 {
                assert(is_ascii_whitespace_byte(b));
            } else {
                assert(key_byte(b));
            }
            lemma_cut_after_ascii(v, reader.pos());
        }
    }
}

fn parse_quoted_string(reader: &mut StringReaderModel) -> (r: Result<String, TagParseError>)
    requires
        old(reader).at_cut(),
        old(reader).pos() < old(reader).bytes().len(),
        is_quote(old(reader).bytes()[old(reader).pos()]),
    ensures
        advanced(*old(reader), *final(reader)),
        text_result(r) == quoted_read(old(reader).bytes(), old(reader).pos()).0,
        r is Ok ==> final(reader).pos() > old(reader).pos(),
        final(reader).pos() == quoted_read(old(reader).bytes(), old(reader).pos()).1,
{
    proof {
        reader.lemma_bytes();
    }
    let ghost v = reader.bytes();
    let quote = reader.peek_byte();
    reader.skip();
    proof {
        reader.lemma_bytes();
        lemma_cut_after_ascii(v, reader.pos());
    }
    let start = reader.cursor();
    scan(reader, if quote == 34 { 3 } else { 4 });
    proof {
        reader.lemma_bytes();
        lemma_first_index_from(v, quote_stops(quote), start as int);
    }
    if !reader.can_read() {
        return Err(TagParseError::ExpectedValue);
    }
    let value = reader.slice_string(start, reader.cursor());
    reader.skip();
    proof {
        reader.lemma_bytes();
        lemma_cut_after_ascii(v, reader.pos());
    }
    Ok(value)
}

fn parse_key(reader: &mut StringReaderModel) -> (r: Result<String, TagParseError>)
    requires
        old(reader).at_cut(),
    ensures
        advanced(*old(reader), *final(reader)),
        text_result(r) == key_read(old(reader).bytes(), old(reader).pos()).0,
        final(reader).pos() == key_read(old(reader).bytes(), old(reader).pos()).1,
{
    scan(reader, 0);
    proof {
        reader.lemma_bytes();
    }
    if !reader.can_read() {
        return Err(TagParseError::ExpectedKey);
    }
    let b = reader.peek_byte();
    if b == 34 || b == 39 {
        return parse_quoted_string(reader);
    }
    let start = reader.cursor();
    scan(reader, 2);
    if reader.cursor() == start {
        return Err(TagParseError::ExpectedKey);
    }
    Ok(reader.slice_string(start, reader.cursor()))
}

fn float_step_exec(state: i8, b: u8) -> (r: i8)
    requires
        -1 <= state <= 7,
    ensures
        r == float_step(state as int, b),
        -1 <= r <= 7,
{
    let digit = 48 <= b && b <= 57;
    let sign = b == 43 || b == 45;
    let point = b == 46;
    let mark = b == 101 || b == 69;
    if state == 0 {
        if sign { 1 } else if digit { 2 } else if point { 3 } else { -1 }
    } else if state == 1 {
        if digit { 2 } else if point { 3 } else { -1 }
    } else if state == 2 {
        if digit { 2 } else if point { 4 } else if mark { 5 } else { -1 }
    } else if state == 3 {
        if digit { 4 } else { -1 }
    } else if state == 4 {
        if digit { 4 } else if mark { 5 } else { -1 }
    } else if state == 5 {
        if sign { 6 } else if digit { 7 } else { -1 }
    } else if state == 6 || state == 7 {
        if digit { 7 } else { -1 }
    } else {
        -1
    }
}

fn is_float_text(s: &[u8]) -> (r: bool)
    ensures
        r == float_text(s@),
{
    let mut state: i8 = 0;
    let mut i: usize = 0;
    while i < s.len()
        invariant
            0 <= i <= s@.len(),
            -1 <= state <= 7,
            state == float_state(s@.subrange(0, i as int)),
        decreases s@.len() - i,
    {
        assert(s@.subrange(0, i + 1).drop_last() =~= s@.subrange(0, i as int));
        state = float_step_exec(state, s[i]);
        i = i + 1;
    }
    assert(s@.subrange(0, s@.len() as int) =~= s@);
    state == 2 || state == 4 || state == 7
}

fn contains_point(s: &[u8]) -> (r: bool)
    ensures
        r == s@.contains(46u8),
{
    let mut i: usize = 0;
    while i < s.len()
        invariant
            0 <= i <= s@.len(),
            forall|k: int| 0 <= k < i ==> s@[k] != 46u8,
        decreases s@.len() - i,
    {
        if s[i] == 46 {
            assert(s@[i as int] == 46u8);
            return true;
        }
        i = i + 1;
    }
    false
}

fn number_tag_exec(raw: &str) -> (r: Result<TagModel, TagParseError>)
    ensures
        tag_result(r) == number_tag(utf8(raw@)),
{
    let b = raw.as_bytes();
    let n = b.len();
    if n > 0 && (b[n - 1] == 98 || b[n - 1] == 66) {
        let digits = &b[0..n - 1];
        assert(digits@ =~= b@.drop_last());
        return match parse_i8(digits) {
            Some(v) => Ok(TagModel::Byte(v)),
            None => Err(TagParseError::InvalidNumber),
        };
    }
    if n > 0 && (b[n - 1] == 108 || b[n - 1] == 76) {
        let digits = &b[0..n - 1];
        assert(digits@ =~= b@.drop_last());
        return match parse_i64(digits) {
            Some(v) => Ok(TagModel::Long(v)),
            None => Err(TagParseError::InvalidNumber),
        };
    }
    if contains_point(b) {
        if is_float_text(b) {
            return Ok(TagModel::Double(raw.to_owned()));
        }
        return Err(TagParseError::InvalidNumber);
    }
    match parse_i32(b) {
        Some(v) => Ok(TagModel::Int(v)),
        None => Ok(TagModel::String(raw.to_owned())),
    }
}

/// An unquoted value: a number by its suffix and point, or a word.
fn parse_unquoted_tag(reader: &mut StringReaderModel) -> (r: Result<TagModel, TagParseError>)
    requires
        old(reader).at_cut(),
    ensures
        advanced(*old(reader), *final(reader)),
        tag_result(r) == unquoted_read(old(reader).bytes(), old(reader).pos()).0,
        r is Ok ==> final(reader).pos() > old(reader).pos(),
        final(reader).pos() == unquoted_read(old(reader).bytes(), old(reader).pos()).1,
{
    let start = reader.cursor();
    scan(reader, 1);
    if reader.cursor() == start {
        return Err(TagParseError::ExpectedValue);
    }
    let raw = reader.slice(start, reader.cursor());
    number_tag_exec(raw)
}

/// The value of a reading of fields.
pub open spec fn fields_result(r: Result<CompoundTagModel, TagParseError>) -> Result<Seq<(Seq<char>, TagValue)>, TagParseError> {
    match r {
        Ok(c) => Ok(c.fields_view()),
        Err(e) => Err(e),
    }
}

/// The value of a reading of list elements.
pub open spec fn values_result(r: Result<Vec<TagModel>, TagParseError>) -> Result<Seq<TagValue>, TagParseError> {
    match r {
        Ok(vs) => Ok(values_value(vs@)),
        Err(e) => Err(e),
    }
}

/// A tag: a compound, a list, a quoted string, or an unquoted value.
fn parse_tag(reader: &mut StringReaderModel) -> (r: Result<TagModel, TagParseError>)
    requires
        old(reader).at_cut(),
    ensures
        advanced(*old(reader), *final(reader)),
        tag_result(r) == tag_read(old(reader).bytes(), old(reader).pos()).0,
        r is Ok ==> final(reader).pos() > old(reader).pos(),
        final(reader).pos() == tag_read(old(reader).bytes(), old(reader).pos()).1,
    decreases old(reader).bytes().len() - old(reader).pos(), 1int,
{
    proof {
        reader.lemma_bytes();
    }
    let ghost v = reader.bytes();
    let ghost p = reader.pos();
    scan(reader, 0);
    proof {
        reader.lemma_bytes();
    }
    if !reader.can_read() {
        return Err(TagParseError::ExpectedValue);
    }
    let b = reader.peek_byte();
    if b == 123 {
        match parse_compound(reader) {
            Ok(c) => Ok(TagModel::Compound(c)),
            Err(e) => Err(e),
        }
    } else if b == 91 {
        match parse_list(reader) {
            Ok(values) => Ok(TagModel::List(values)),
            Err(e) => Err(e),
        }
    } else if b == 34 || b == 39 {
        match parse_quoted_string(reader) {
            Ok(text) => Ok(TagModel::String(text)),
            Err(e) => Err(e),
        }
    } else {
        parse_unquoted_tag(reader)
    }
}

/// A compound: `{`, then fields up to `}`.
fn parse_compound(reader: &mut StringReaderModel) -> (r: Result<CompoundTagModel, TagParseError>)
    requires
        old(reader).at_cut(),
    ensures
        advanced(*old(reader), *final(reader)),
        fields_result(r) == compound_read(old(reader).bytes(), old(reader).pos()).0,
        r is Ok ==> final(reader).pos() > old(reader).pos(),
        final(reader).pos() == compound_read(old(reader).bytes(), old(reader).pos()).1,
    decreases old(reader).bytes().len() - old(reader).pos(), 0int,
{
    proof {
        reader.lemma_bytes();
    }
    let ghost v = reader.bytes();
    let ghost p0 = reader.pos();
    scan(reader, 0);
    proof {
        reader.lemma_bytes();
    }
    if !reader.can_read() || reader.peek_byte() != 123 {
        return Err(TagParseError::ExpectedCompound);
    }
    reader.skip();
    proof {
        reader.lemma_bytes();
        lemma_cut_after_ascii(v, reader.pos());
    }
    let mut fields: Vec<(String, TagModel)> = Vec::new();
    loop
        invariant
            advanced(*old(reader), *reader),
            reader.bytes() == v,
            v == old(reader).bytes(),
            p0 == old(reader).pos(),
            p0 < reader.pos(),
            fields_read(v, reader.pos(), fields_value(fields@)) == compound_read(v, p0),
        decreases v.len() - reader.pos(),
    {
        let ghost p = reader.pos();
        scan(reader, 0);
        proof {
            reader.lemma_bytes();
        }
        if !reader.can_read() {
            return Err(TagParseError::UnclosedCompound);
        }
        if reader.peek_byte() == 125 {
            reader.skip();
            proof {
                reader.lemma_bytes();
                lemma_cut_after_ascii(v, reader.pos());
            }
            return Ok(CompoundTagModel { fields });
        }
        let key = match parse_key(reader) {
            Ok(key) => key,
            Err(e) => return Err(e),
        };
        scan(reader, 0);
        proof {
            reader.lemma_bytes();
        }
        if !reader.can_read() || !(reader.peek_byte() == 58 || reader.peek_byte() == 61) {
            return Err(TagParseError::ExpectedSeparator);
        }
        reader.skip();
        proof {
            reader.lemma_bytes();
            lemma_cut_after_ascii(v, reader.pos());
        }
        let value = match parse_tag(reader) {
            Ok(value) => value,
            Err(e) => return Err(e),
        };
        let ghost before = fields@;
        let ghost kv = key@;
        let ghost xv = value.deep();
        fields.push((key, value));
        proof {
            assert(fields@.drop_last() =~= before);
            assert(fields_value(fields@) =~= fields_value(before).push((kv, xv)));
        }
        scan(reader, 0);
        proof {
            reader.lemma_bytes();
        }
        if reader.can_read() && reader.peek_byte() == 44 {
            reader.skip();
            proof {
                reader.lemma_bytes();
                lemma_cut_after_ascii(v, reader.pos());
            }
        }
    }
}

/// A list: `[`, then elements up to `]`.
fn parse_list(reader: &mut StringReaderModel) -> (r: Result<Vec<TagModel>, TagParseError>)
    requires
        old(reader).at_cut(),
    ensures
        advanced(*old(reader), *final(reader)),
        values_result(r) == list_read(old(reader).bytes(), old(reader).pos()).0,
        r is Ok ==> final(reader).pos() > old(reader).pos(),
        final(reader).pos() == list_read(old(reader).bytes(), old(reader).pos()).1,
    decreases old(reader).bytes().len() - old(reader).pos(), 0int,
{
    proof {
        reader.lemma_bytes();
    }
    let ghost v = reader.bytes();
    let ghost p0 = reader.pos();
    scan(reader, 0);
    proof {
        reader.lemma_bytes();
    }
    if !reader.can_read() || reader.peek_byte() != 91 {
        return Err(TagParseError::ExpectedValue);
    }
    reader.skip();
    proof {
        reader.lemma_bytes();
        lemma_cut_after_ascii(v, reader.pos());
    }
    let mut values: Vec<TagModel> = Vec::new();
    loop
        invariant
            advanced(*old(reader), *reader),
            reader.bytes() == v,
            v == old(reader).bytes(),
            p0 == old(reader).pos(),
            p0 < reader.pos(),
            elements_read(v, reader.pos(), values_value(values@)) == list_read(v, p0),
        decreases v.len() - reader.pos(),
    {
        let ghost p = reader.pos();
        scan(reader, 0);
        proof {
            reader.lemma_bytes();
        }
        if !reader.can_read() {
            return Err(TagParseError::UnclosedList);
        }
        if reader.peek_byte() == 93 {
            reader.skip();
            proof {
                reader.lemma_bytes();
                lemma_cut_after_ascii(v, reader.pos());
            }
            return Ok(values);
        }
        let value = match parse_tag(reader) {
            Ok(value) => value,
            Err(e) => return Err(e),
        };
        let ghost before = values@;
        let ghost xv = value.deep();
        values.push(value);
        proof {
            assert(values@.drop_last() =~= before);
            assert(values_value(values@) =~= values_value(before).push(xv));
        }
        scan(reader, 0);
        proof {
            reader.lemma_bytes();
        }
        if reader.can_read() && reader.peek_byte() == 44 {
            reader.skip();
            proof {
                reader.lemma_bytes();
                lemma_cut_after_ascii(v, reader.pos());
            }
        }
    }
}

/// A compound as an argument: when no compound starts here the reader is
/// left where it was; other errors leave it where reading stopped.
fn parse_compound_as_argument(reader: &mut StringReaderModel) -> (r: Result<CompoundTagModel, TagParseError>)
    requires
        old(reader).at_cut(),
    ensures
        advanced(*old(reader), *final(reader)),
        fields_result(r) == compound_read(old(reader).bytes(), old(reader).pos()).0,
        final(reader).pos() == if r == Err::<CompoundTagModel, TagParseError>(TagParseError::ExpectedCompound) {
            old(reader).pos()
        } else {
            compound_read(old(reader).bytes(), old(reader).pos()).1
        },
{
    let start = reader.cursor();
    match parse_compound(reader) {
        Ok(value) => Ok(value),
        Err(error) => {
            if error == TagParseError::ExpectedCompound {
                reader.set_cursor(start);
            }
            Err(error)
        },
    }
}

impl TagModel {
    /// A copy of the tag with the same value.
    pub fn copy(&self) -> (r: Self)
        ensures
            r.deep() == self.deep(),
        decreases self,
    {
        match self {
            TagModel::Byte(b) => TagModel::Byte(*b),
            TagModel::Int(i) => TagModel::Int(*i),
            TagModel::Long(l) => TagModel::Long(*l),
            TagModel::Double(t) => TagModel::Double(t.clone()),
            TagModel::String(t) => TagModel::String(t.clone()),
            TagModel::Compound(c) => {
                let mut out: Vec<(String, TagModel)> = Vec::new();
                let mut i: usize = 0;
                while i < c.fields.len()
                    invariant
                        0 <= i <= c.fields@.len(),
                        out@.len() == i,
                        forall|k: int| 0 <= k < i ==> (#[trigger] out@[k]).0@ == c.fields@[k].0@ && out@[k].1.deep() == c.fields@[k].1.deep(),
                    decreases c.fields@.len() - i,
                {
                    let field = &c.fields[i];
                    assert(decreases_to!(self => field.1));
                    out.push((field.0.clone(), field.1.copy()));
                    i = i + 1;
                }
                proof {
                    lemma_fields_value(out@);
                    lemma_fields_value(c.fields@);
                    assert(fields_value(out@) =~= fields_value(c.fields@));
                }
                TagModel::Compound(CompoundTagModel { fields: out })
            },
            TagModel::List(values) => {
                let mut out: Vec<TagModel> = Vec::new();
                let mut i: usize = 0;
                while i < values.len()
                    invariant
                        0 <= i <= values@.len(),
                        out@.len() == i,
                        forall|k: int| 0 <= k < i ==> (#[trigger] out@[k]).deep() == values@[k].deep(),
                    decreases values@.len() - i,
                {
                    let value = &values[i];
                    assert(decreases_to!(self => *value));
                    out.push(value.copy());
                    i = i + 1;
                }
                proof {
                    lemma_values_value(out@);
                    lemma_values_value(values@);
                    assert(values_value(out@) =~= values_value(values@));
                }
                TagModel::List(out)
            },
        }
    }
}

impl Clone for TagModel {
    fn clone(&self) -> (r: Self)
        ensures
            r.deep() == self.deep(),
    {
        self.copy()
    }
}

impl CompoundTagModel {
    /// A copy of the compound with the same fields.
    pub fn copy(&self) -> (r: Self)
        ensures
            r.fields_view() == self.fields_view(),
    {
            let mut out: Vec<(String, TagModel)> = Vec::new();
        let mut i: usize = 0;
        while i < self.fields.len()
            invariant
                0 <= i <= self.fields@.len(),
                out@.len() == i,
                forall|k: int| 0 <= k < i ==> (#[trigger] out@[k]).0@ == self.fields@[k].0@ && out@[k].1.deep() == self.fields@[k].1.deep(),
            decreases self.fields@.len() - i,
        {
            let field = &self.fields[i];
            out.push((field.0.clone(), field.1.copy()));
            i = i + 1;
        }
        proof {
            lemma_fields_value(out@);
            lemma_fields_value(self.fields@);
            assert(fields_value(out@) =~= fields_value(self.fields@));
        }
        CompoundTagModel { fields: out }
    }

    /// The value of the first field with the name.
    pub fn get(&self, name: &str) -> (r: Option<&TagModel>)
        ensures
            ({
                let i = first_index_from(self.fields_view(), named_field(name@), 0);
                if i >= 0 { r matches Some(t) && t.deep() == self.fields_view()[i].1 } else { r is None }
            }),
    {
        let ghost fv = self.fields_view();
        let ghost p = named_field(name@);
        proof {
            lemma_fields_value(self.fields@);
            lemma_first_index_from(fv, p, 0);
        }
        let mut i: usize = 0;
        while i < self.fields.len()
            invariant
                0 <= i <= self.fields@.len(),
                fv == self.fields_view(),
                fv == fields_value(self.fields@),
                fv.len() == self.fields@.len(),
                first_index_from(fv, p, i as int) == first_index_from(fv, p, 0),
            decreases self.fields@.len() - i,
        {
            if crate::text::str_eq(self.fields[i].0.as_str(), name) {
                assert(p(fv[i as int]));
                return Some(&self.fields[i].1);
            }
            proof {
                assert(!p(fv[i as int]));
            }
            i = i + 1;
        }
        None
    }

    pub fn len(&self) -> (r: usize)
        ensures
            r == self.fields_view().len(),
    {
        proof {
            lemma_fields_value(self.fields@);
        }
        self.fields.len()
    }

    pub fn is_empty(&self) -> (r: bool)
        ensures
            r == (self.fields_view().len() == 0),
    {
        proof {
            lemma_fields_value(self.fields@);
        }
        self.fields.len() == 0
    }
}

pub open spec fn named_field(name: Seq<char>) -> spec_fn((Seq<char>, TagValue)) -> bool {
    |f: (Seq<char>, TagValue)| f.0 == name
}

impl Clone for CompoundTagModel {
    fn clone(&self) -> (r: Self)
        ensures
            r.fields_view() == self.fields_view(),
    {
        self.copy()
    }
}

#[derive(Debug, Clone, PartialEq, Eq)]
pub struct CompoundTagArgumentModel;

impl CompoundTagArgumentModel {
    pub fn compound_tag() -> (r: Self) {
        CompoundTagArgumentModel
    }

    /// A compound; when none starts here the reader is left where it was.
    pub fn parse(&self, reader: &mut StringReaderModel) -> (r: Result<CompoundTagModel, TagParseError>)
        requires
            old(reader).at_cut(),
        ensures
            advanced(*old(reader), *final(reader)),
            fields_result(r) == compound_read(old(reader).bytes(), old(reader).pos()).0,
            final(reader).pos() == if r == Err::<CompoundTagModel, TagParseError>(TagParseError::ExpectedCompound) {
                old(reader).pos()
            } else {
                compound_read(old(reader).bytes(), old(reader).pos()).1
            },
    {
        parse_compound_as_argument(reader)
    }

    pub fn examples(&self) -> (r: [&'static str; 2])
        ensures
            r@[0]@ == "{}"@,
            r@[1]@ == "{foo=bar}"@,
    {
        ["{}", "{foo=bar}"]
    }
}

#[derive(Debug, Clone, PartialEq, Eq)]
pub struct NbtTagArgumentModel;

impl NbtTagArgumentModel {
    pub fn nbt_tag() -> (r: Self) {
        NbtTagArgumentModel
    }

    /// A tag of any kind; an error leaves the reader where reading stopped.
    pub fn parse(&self, reader: &mut StringReaderModel) -> (r: Result<TagModel, TagParseError>)
        requires
            old(reader).at_cut(),
        ensures
            advanced(*old(reader), *final(reader)),
            tag_result(r) == tag_read(old(reader).bytes(), old(reader).pos()).0,
            final(reader).pos() == tag_read(old(reader).bytes(), old(reader).pos()).1,
    {
        parse_tag(reader)
    }

    /// The tag parser offers no completions.
    pub fn list_suggestions(&self, _remaining: &str) -> (r: Vec<String>)
        ensures
            r@.len() == 0,
    {
        Vec::new()
    }

    pub fn examples(&self) -> (r: [&'static str; 7])
        ensures
            r@[0]@ == "0"@,
            r@[1]@ == "0b"@,
            r@[2]@ == "0l"@,
            r@[3]@ == "0.0"@,
            r@[4]@ == "\"foo\""@,
            r@[5]@ == "{foo=bar}"@,
            r@[6]@ == "[0]"@,
    {
        ["0", "0b", "0l", "0.0", "\"foo\"", "{foo=bar}", "[0]"]
    }
}

/// The bound compound and tag arguments, by name.
pub struct CommandContextModel {
    compounds: ArgMap<CompoundTagModel>,
    tags: ArgMap<TagModel>,
}

impl CommandContextModel {
    pub closed spec fn compounds_view(&self) -> Map<Seq<char>, CompoundTagModel> {
        self.compounds.view()
    }

    pub closed spec fn tags_view(&self) -> Map<Seq<char>, TagModel> {
        self.tags.view()
    }

    pub fn with_compound(self, name: &str, value: CompoundTagModel) -> (r: Self)
        ensures
            r.compounds_view() == self.compounds_view().insert(name@, value),
            r.tags_view() == self.tags_view(),
    {
        let mut compounds = self.compounds;
        compounds.insert(name.to_owned(), value);
        CommandContextModel { compounds, tags: self.tags }
    }

    pub fn with_tag(self, name: &str, value: TagModel) -> (r: Self)
        ensures
            r.tags_view() == self.tags_view().insert(name@, value),
            r.compounds_view() == self.compounds_view(),
    {
        let mut tags = self.tags;
        tags.insert(name.to_owned(), value);
        CommandContextModel { compounds: self.compounds, tags }
    }
}

impl Default for CommandContextModel {
    fn default() -> (r: Self)
        ensures
            r.compounds_view() == Map::<Seq<char>, CompoundTagModel>::empty(),
            r.tags_view() == Map::<Seq<char>, TagModel>::empty(),
    {
        CommandContextModel { compounds: ArgMap::new(), tags: ArgMap::new() }
    }
}

/// A copy of the compound bound to `name`.
pub fn get_compound_tag(context: &CommandContextModel, name: &str) -> (r: Option<CompoundTagModel>)
    ensures
        r is Some <==> context.compounds_view().contains_key(name@),
        r matches Some(c) ==> c.fields_view() == context.compounds_view()[name@].fields_view(),
{
    match context.compounds.get(name) {
        Some(c) => Some(c.copy()),
        None => None,
    }
}

/// A copy of the tag bound to `name`.
pub fn get_nbt_tag(context: &CommandContextModel, name: &str) -> (r: Option<TagModel>)
    ensures
        r is Some <==> context.tags_view().contains_key(name@),
        r matches Some(t) ==> t.deep() == context.tags_view()[name@].deep(),
{
    match context.tags.get(name) {
        Some(t) => Some(t.copy()),
        None => None,
    }
}

} // verus!
