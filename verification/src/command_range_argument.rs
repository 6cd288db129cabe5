//! The integer range argument (`1`, `-5..10`, `3..`, `..100`): the bounds
//! text is read, each side converted, and the parse fails with the cursor back
//! at its start when the text is empty, a number is malformed, or the bounds
//! are swapped.

use vstd::prelude::*;
use crate::text::{utf8, bytes_of};
use crate::string_reader::{StringReaderModel, advanced, lemma_cut_after_ascii};
use crate::decimal::{signed_decimal, parse_i32};
use crate::criterion_min_max_bounds::{BoundsModel, IntsBoundsModel, swapped};
use crate::arg_map::ArgMap;

verus! {

#[derive(Debug, Clone, Copy, PartialEq, Eq)]
pub enum RangeParseError {
    Empty { cursor: usize },
    InvalidNumber { cursor: usize },
    Swapped { cursor: usize },
}

/// A byte that a bound's number may hold at this position: a digit, `-`, or
/// a `.` that does not start the `..` separator.
pub open spec fn allowed_at(b: Seq<u8>, p: int) -> bool {
    ||| 48 <= b[p] <= 57
    ||| b[p] == 45u8
    ||| (b[p] == 46u8 && !(p + 2 <= b.len() && b[p + 1] == 46u8))
}

/// The end of the number that starts at `p`.
pub open spec fn number_end(b: Seq<u8>, p: int) -> int
    decreases b.len() - p,
{
    if 0 <= p < b.len() && allowed_at(b, p) {
        number_end(b, p + 1)
    } else {
        p
    }
}

/// The `..` separator stands at `e`.
pub open spec fn dots_at(b: Seq<u8>, e: int) -> bool {
    e + 2 <= b.len() && b[e] == 46u8 && b[e + 1] == 46u8
}

/// The texts of the bounds read at `p`: the first number, the second number
/// when `..` follows the first, and the position after them. `None` when
/// nothing is left to read.
pub open spec fn bounds_scan(b: Seq<u8>, p: int) -> Option<(Seq<u8>, Option<Seq<u8>>, int)> {
    if p >= b.len() {
        None
    } else {
        let e1 = number_end(b, p);
        if dots_at(b, e1) {
            let e2 = number_end(b, e1 + 2);
            Some((b.subrange(p, e1), Some(b.subrange(e1 + 2, e2)), e2))
        } else {
            Some((b.subrange(p, e1), None, e1))
        }
    }
}

/// An integer bound's text: empty for an open bound, else `str::parse::<i32>`.
pub open spec fn int_bound(t: Seq<u8>) -> Option<Option<i32>> {
    if t.len() == 0 {
        Some(None)
    } else {
        match signed_decimal(t) {
            Some(v) => if i32::MIN <= v <= i32::MAX { Some(Some(v as i32)) } else { None },
            None => None,
        }
    }
}

/// What the integer range parser gives at byte position `p`: the bounds and
/// the position after them, or the error.
pub open spec fn int_range_read(b: Seq<u8>, p: int) -> Result<(BoundsModel<i32>, int), RangeParseError> {
    match bounds_scan(b, p) {
        None => Err(RangeParseError::Empty { cursor: p as usize }),
        Some((first, second, end)) => match int_bound(first) {
            None => Err(RangeParseError::InvalidNumber { cursor: p as usize }),
            Some(min) => {
                let max_text = match second { Some(t) => int_bound(t), None => Some(min) };
                match max_text {
                    None => Err(RangeParseError::InvalidNumber { cursor: p as usize }),
                    Some(max) => if end == p || (min is None && max is None) {
                        Err(RangeParseError::Empty { cursor: p as usize })
                    } else if swapped(min, max) {
                        Err(RangeParseError::Swapped { cursor: p as usize })
                    } else {
                        Ok((BoundsModel { min, max }, end))
                    },
                }
            },
        },
    }
}

proof fn lemma_number_end(b: Seq<u8>, p: int)
    requires
        0 <= p <= b.len(),
    ensures
        p <= number_end(b, p) <= b.len(),
        forall|i: int| p <= i < number_end(b, p) ==> #[trigger] allowed_at(b, i),
        number_end(b, p) < b.len() ==> !allowed_at(b, number_end(b, p)),
    decreases b.len() - p,
{
    if p < b.len() && allowed_at(b, p) {
        lemma_number_end(b, p + 1);
    }
}

/// The text of the bounds, read up to the position after them.
pub struct BoundsText {
    pub min: String,
    pub max: Option<String>,
}

/// Reads the text of the number that starts at the cursor.
fn read_number_text(reader: &mut StringReaderModel) -> (r: String)
    requires
        old(reader).at_cut(),
    ensures
        final(reader).text() == old(reader).text(),
        final(reader).bytes() == old(reader).bytes(),
        final(reader).pos() == number_end(old(reader).bytes(), old(reader).pos()),
        old(reader).pos() <= final(reader).pos() <= old(reader).bytes().len(),
        final(reader).at_cut(),
        utf8(r@) == old(reader).bytes().subrange(old(reader).pos(), final(reader).pos()),
{
    let ghost b = reader.bytes();
    let start = reader.cursor();
    proof {
        reader.lemma_bytes();
        lemma_number_end(b, start as int);
    }
    loop
        invariant
            reader.text() == old(reader).text(),
            reader.bytes() == b,
            start <= reader.pos() <= number_end(b, start as int),
            number_end(b, reader.pos()) == number_end(b, start as int),
        decreases b.len() - reader.pos(),
    {
        if !reader.can_read() {
            break;
        }
        let c = reader.peek_byte();
        let ok = if c >= 48 && c <= 57 || c == 45 {
            true
        } else if c == 46 {
            let p = reader.cursor();
            let n = reader.total_len();
            !(p + 1 < n && reader.byte_at(p + 1) == 46)
        } else {
            false
        };
        if !ok {
            break;
        }
        reader.skip();
    }
    let end = reader.cursor();
    proof {
        if end > start {
            assert(allowed_at(b, end - 1));
            lemma_cut_after_ascii(b, end as int);
        }
    }
    reader.slice_string(start, end)
}

/// Reads the bounds text at the cursor: the first number, then, after `..`,
/// the second. Fails with `Empty` at the cursor when nothing is left to read,
/// leaving the reader where it was.
pub fn read_bounds_text(reader: &mut StringReaderModel) -> (r: Result<BoundsText, RangeParseError>)
    requires
        old(reader).at_cut(),
    ensures
        match bounds_scan(old(reader).bytes(), old(reader).pos()) {
            None => r == Err::<BoundsText, RangeParseError>(RangeParseError::Empty { cursor: old(reader).pos() as usize })
                && *final(reader) == *old(reader),
            Some((first, second, end)) => r is Ok
                && utf8(r->Ok_0.min@) == first
                && (match second {
                    None => r->Ok_0.max is None,
                    Some(t) => r->Ok_0.max is Some && utf8(r->Ok_0.max->Some_0@) == t,
                })
                && final(reader).pos() == end
                && advanced(*old(reader), *final(reader)),
        },
{
    let ghost b = reader.bytes();
    if !reader.can_read() {
        return Err(RangeParseError::Empty { cursor: reader.cursor() });
    }
    let min = read_number_text(reader);
    let e1 = reader.cursor();
    if e1 < reader.total_len() && reader.total_len() - e1 >= 2 && reader.byte_at(e1) == 46
        && reader.byte_at(e1 + 1) == 46 {
        reader.skip();
        reader.skip();
        proof {
            reader.lemma_bytes();
            lemma_cut_after_ascii(b, e1 + 2);
        }
        let max = read_number_text(reader);
        Ok(BoundsText { min, max: Some(max) })
    } else {
        Ok(BoundsText { min, max: None })
    }
}

/// Converts an integer bound's text.
fn int_bound_of(text: &String) -> (r: Option<Option<i32>>)
    ensures
        r == int_bound(utf8(text@)),
{
    let bytes = bytes_of(text.as_str());
    if bytes.len() == 0 {
        Some(None)
    } else {
        match parse_i32(bytes.as_slice()) {
            Some(v) => Some(Some(v)),
            None => None,
        }
    }
}

#[derive(Debug, Clone, PartialEq, Eq)]
pub struct IntRangeArgumentModel;

impl IntRangeArgumentModel {
    pub fn int_range() -> (r: Self) {
        IntRangeArgumentModel
    }

    /// Parses integer bounds at the cursor. On success the reader stands after
    /// them; on any error it is back where it started.
    pub fn parse(&self, reader: &mut StringReaderModel) -> (r: Result<IntsBoundsModel, RangeParseError>)
        requires
            old(reader).at_cut(),
        ensures
            match int_range_read(old(reader).bytes(), old(reader).pos()) {
                Ok((bounds, end)) => r is Ok && r->Ok_0@ == bounds && final(reader).pos() == end
                    && advanced(*old(reader), *final(reader)),
                Err(e) => r == Err::<IntsBoundsModel, RangeParseError>(e)
                    && final(reader).pos() == old(reader).pos()
                    && final(reader).bytes() == old(reader).bytes()
                    && final(reader).text() == old(reader).text(),
            },
    {
        let start = reader.cursor();
        let text = match read_bounds_text(reader) {
            Ok(t) => t,
            Err(e) => {
                return Err(e);
            },
        };
        let min = match int_bound_of(&text.min) {
            Some(v) => v,
            None => {
                reader.set_cursor(start);
                return Err(RangeParseError::InvalidNumber { cursor: start });
            },
        };
        let max = match &text.max {
            Some(t) => match int_bound_of(t) {
                Some(v) => v,
                None => {
                    reader.set_cursor(start);
                    return Err(RangeParseError::InvalidNumber { cursor: start });
                },
            },
            None => min,
        };
        if reader.cursor() == start || (min.is_none() && max.is_none()) {
            reader.set_cursor(start);
            return Err(RangeParseError::Empty { cursor: start });
        }
        let bounds = BoundsModel::new(min, max);
        if bounds.are_swapped() {
            reader.set_cursor(start);
            return Err(RangeParseError::Swapped { cursor: start });
        }
        Ok(IntsBoundsModel::new(bounds))
    }

    pub fn examples(&self) -> (r: [&'static str; 5])
        ensures
            r@[0]@ == "0..5"@,
            r@[1]@ == "0"@,
            r@[2]@ == "-5"@,
            r@[3]@ == "-100.."@,
            r@[4]@ == "..100"@,
    {
        ["0..5", "0", "-5", "-100..", "..100"]
    }
}

/// The parsed integer ranges of a command, by argument name.
pub struct CommandContextModel {
    int_arguments: ArgMap<IntsBoundsModel>,
}

impl CommandContextModel {
    pub closed spec fn int_view(&self) -> Map<Seq<char>, IntsBoundsModel> {
        self.int_arguments@
    }

    pub fn new() -> (r: Self)
        ensures
            r.int_view() == Map::<Seq<char>, IntsBoundsModel>::empty(),
    {
        CommandContextModel { int_arguments: ArgMap::new() }
    }

    pub fn with_int_range(self, name: &str, value: IntsBoundsModel) -> (r: Self)
        ensures
            r.int_view() == self.int_view().insert(name@, value),
    {
        let mut args = self.int_arguments;
        args.insert(name.to_string(), value);
        CommandContextModel { int_arguments: args }
    }
}

impl Default for CommandContextModel {
    fn default() -> (r: Self)
        ensures
            r.int_view() == Map::<Seq<char>, IntsBoundsModel>::empty(),
    {
        CommandContextModel::new()
    }
}

/// The integer range argument of that name, if the command has one.
pub fn get_int_range(context: &CommandContextModel, name: &str) -> (r: Option<IntsBoundsModel>)
    ensures
        r == (if context.int_view().contains_key(name@) { Some(context.int_view()[name@]) } else { None }),
{
    match context.int_arguments.get(name) {
        Some(v) => Some(*v),
        None => None,
    }
}


/// A parsed integer range is never swapped nor open at both ends, and the
/// reader stops after at least one byte of it, within the text.
pub proof fn lemma_int_range_well_formed(b: Seq<u8>, p: int)
    requires
        0 <= p <= b.len(),
    ensures
        int_range_read(b, p) matches Ok((bounds, end)) ==> !swapped(bounds.min, bounds.max)
            && !(bounds.min is None && bounds.max is None) && p < end <= b.len(),
{
    if p < b.len() {
        lemma_number_end(b, p);
        let e1 = number_end(b, p);
        if dots_at(b, e1) {
            lemma_number_end(b, e1 + 2);
        }
    }
}
} // verus!
