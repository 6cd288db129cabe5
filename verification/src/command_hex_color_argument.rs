//! The `hex_color` argument: three or six hexadecimal digits, read as an
//! opaque RGB color.

use vstd::prelude::*;
use vstd::string::StringSliceAdditionalSpecFns;
use crate::text::{utf8, cut_point};
use crate::string_reader::{unquoted_end, lemma_unquoted_end};
use crate::arg_map::ArgMap;
use crate::command_shared_suggestion_provider::{suggest, SuggestionModel, SuggestionsBuilderModel, offered};
pub use crate::string_reader::StringReaderModel;

verus! {

#[derive(Debug, Clone, PartialEq, Eq)]
pub struct HexColorArgumentModel;

#[derive(Debug, Clone, PartialEq, Eq)]
pub enum HexColorParseError {
    InvalidHex { value: String },
    NumberFormat { value: String },
}

pub struct CommandContextModel {
    arguments: ArgMap<i32>,
}

/// The value of a hexadecimal digit byte.
pub open spec fn hex_digit(b: u8) -> Option<int> {
    if 48 <= b <= 57 {
        Some(b - 48)
    } else if 65 <= b <= 70 {
        Some(b - 55)
    } else if 97 <= b <= 102 {
        Some(b - 87)
    } else {
        None
    }
}

/// The value of a non-empty run of hexadecimal digits.
pub open spec fn hex_value(digits: Seq<u8>) -> Option<int>
    decreases digits.len(),
{
    if digits.len() == 0 {
        Some(0)
    } else {
        match (hex_value(digits.drop_last()), hex_digit(digits.last())) {
            (Some(h), Some(d)) => Some(h * 16 + d),
            _ => None,
        }
    }
}

/// Java's `Integer.parseInt(component, 16)` on a short component: an
/// optional sign, then at least one hexadecimal digit.
pub open spec fn component_value(c: Seq<u8>) -> Option<int> {
    if c.len() == 0 {
        None
    } else {
        let signed = c[0] == 43 || c[0] == 45;
        let digits = if signed { c.drop_first() } else { c };
        if digits.len() == 0 {
            None
        } else {
            match hex_value(digits) {
                Some(v) => Some(if c[0] == 45 { -v } else { v }),
                None => None,
            }
        }
    }
}

/// The opaque ARGB color of three channel values (each taken modulo 256).
pub open spec fn argb(r: int, g: int, b: int) -> int {
    -16777216 + (r % 256) * 65536 + (g % 256) * 256 + (b % 256)
}

/// The token that `parse` reads: the bytes up to whitespace.
pub open spec fn token_at(bytes: Seq<u8>, pos: int) -> Seq<u8> {
    bytes.subrange(pos, unquoted_end(bytes, pos))
}

/// The token can be cut into its channel components without splitting a character.
pub open spec fn channels_cuttable(tok: Seq<u8>) -> bool {
    &&& tok.len() == 3 ==> cut_point(tok, 1) && cut_point(tok, 2)
    &&& tok.len() == 6 ==> cut_point(tok, 2) && cut_point(tok, 4)
}

/// What `parse` gives for a token.
pub open spec fn parse_result(tok: Seq<u8>) -> Result<int, (bool, Seq<u8>)> {
    if tok.len() == 3 {
        let (r, g, b) = (tok.subrange(0, 1), tok.subrange(1, 2), tok.subrange(2, 3));
        if component_value(r) is None {
            Err((false, r))
        } else if component_value(g) is None {
            Err((false, g))
        } else if component_value(b) is None {
            Err((false, b))
        } else {
            Ok(argb(component_value(r).unwrap() * 17, component_value(g).unwrap() * 17, component_value(b).unwrap() * 17))
        }
    } else if tok.len() == 6 {
        let (r, g, b) = (tok.subrange(0, 2), tok.subrange(2, 4), tok.subrange(4, 6));
        if component_value(r) is None {
            Err((false, r))
        } else if component_value(g) is None {
            Err((false, g))
        } else if component_value(b) is None {
            Err((false, b))
        } else {
            Ok(argb(component_value(r).unwrap(), component_value(g).unwrap(), component_value(b).unwrap()))
        }
    } else {
        Err((true, tok))
    }
}

/// A byte that may stand in a hexadecimal number: `0`-`9`, `a`-`f` or `A`-`F`.
pub open spec fn hex_char(b: u8) -> bool {
    ('0' as u8 <= b && b <= '9' as u8) || ('a' as u8 <= b && b <= 'f' as u8) || ('A' as u8 <= b && b <= 'F' as u8)
}

/// Every byte `0`-`9`, `a`-`f` and `A`-`F` is a hexadecimal digit, and no
/// other byte is; the digits count up from 0 in that order, so `9` is 9,
/// `a` and `A` are 10, and `f` and `F` are 15.
pub proof fn lemma_hex_digit_values(b: u8)
    ensures
        hex_digit(b) is Some <==> hex_char(b),
        hex_digit(b) matches Some(v) ==> 0 <= v < 16,
        '0' as u8 <= b <= '9' as u8 ==> hex_digit(b) == Some(b - ('0' as u8)),
        'a' as u8 <= b <= 'f' as u8 ==> hex_digit(b) == Some(10 + (b - ('a' as u8))),
        'A' as u8 <= b <= 'F' as u8 ==> hex_digit(b) == Some(10 + (b - ('A' as u8))),
        hex_digit('f' as u8) == Some(15int) && hex_digit('F' as u8) == Some(15int),
{
}

/// A token of six hexadecimal digits is a color: opaque, with red, green
/// and blue each the value of its pair of digits, the first worth sixteen
/// times the second.
pub proof fn lemma_six_hex_digits_are_a_color(tok: Seq<u8>)
    requires
        tok.len() == 6,
        forall|i: int| 0 <= i < 6 ==> hex_char(#[trigger] tok[i]),
    ensures
        ({
            let d = |i: int| hex_digit(tok[i])->0;
            parse_result(tok) == Ok::<int, (bool, Seq<u8>)>(argb(16 * d(0) + d(1), 16 * d(2) + d(3), 16 * d(4) + d(5)))
        }),
{
    let d = |i: int| hex_digit(tok[i])->0;
    lemma_hex_pair(tok.subrange(0, 2));
    lemma_hex_pair(tok.subrange(2, 4));
    lemma_hex_pair(tok.subrange(4, 6));
    assert(tok.subrange(0, 2)[0] == tok[0] && tok.subrange(0, 2)[1] == tok[1]);
    assert(tok.subrange(2, 4)[0] == tok[2] && tok.subrange(2, 4)[1] == tok[3]);
    assert(tok.subrange(4, 6)[0] == tok[4] && tok.subrange(4, 6)[1] == tok[5]);
}

proof fn lemma_hex_pair(c: Seq<u8>)
    requires
        c.len() == 2,
        hex_char(c[0]),
        hex_char(c[1]),
    ensures
        component_value(c) == Some(16 * hex_digit(c[0])->0 + hex_digit(c[1])->0),
{
    lemma_hex_digit_values(c[0]);
    lemma_hex_digit_values(c[1]);
    assert(c.drop_last() =~= seq![c[0]]);
    let one = seq![c[0]];
    assert(one.drop_last() =~= Seq::<u8>::empty());
    assert(one.last() == c[0]);
    assert(hex_value(Seq::<u8>::empty()) == Some(0int));
    assert(hex_value(one.drop_last()) == Some(0int));
    assert(hex_value(one) == Some(hex_digit(c[0])->0));
    assert(c.last() == c[1]);
}

fn hex_digit_exec(b: u8) -> (r: Option<i32>)
    ensures
        r matches Some(v) ==> hex_digit(b) == Some(v as int),
        r is None ==> hex_digit(b) is None,
{
    if 48 <= b && b <= 57 {
        Some((b - 48) as i32)
    } else if 65 <= b && b <= 70 {
        Some((b - 55) as i32)
    } else if 97 <= b && b <= 102 {
        Some((b - 87) as i32)
    } else {
        None
    }
}

proof fn lemma_hex_value_bound(d: Seq<u8>)
    requires
        hex_value(d) is Some,
    ensures
        0 <= hex_value(d).unwrap() < pow16(d.len()),
    decreases d.len(),
{
    if d.len() > 0 {
        lemma_hex_value_bound(d.drop_last());
    }
}

pub open spec fn pow16(n: nat) -> int
    decreases n,
{
    if n == 0 { 1 } else { 16 * pow16((n - 1) as nat) }
}

/// Parses one channel component (`Integer.parseInt(component, 16)`).
fn parse_java_hex_component(input: &str, begin: usize, end: usize) -> (r: Result<i32, HexColorParseError>)
    requires
        begin < end,
        end - begin <= 2,
        cut_point(input.spec_bytes(), begin as int),
        cut_point(input.spec_bytes(), end as int),
    ensures
        r matches Ok(v) ==> component_value(input.spec_bytes().subrange(begin as int, end as int)) == Some(v as int),
        r matches Err(e) ==> component_value(input.spec_bytes().subrange(begin as int, end as int)) is None
            && (e matches HexColorParseError::NumberFormat { value } && utf8(value@) == input.spec_bytes().subrange(begin as int, end as int)),
{
    let component = crate::text::substring(input, begin, end);
    let c = component.as_bytes();
    let ghost cb = c@;
    assert(cb == input.spec_bytes().subrange(begin as int, end as int));
    let signed = c[0] == 43 || c[0] == 45;
    let start: usize = if signed { 1 } else { 0 };
    let ghost digits = if signed { cb.drop_first() } else { cb };
    assert(digits =~= cb.subrange(start as int, cb.len() as int));
    if start == c.len() {
        return Err(HexColorParseError::NumberFormat { value: component.to_owned() });
    }
    let mut value: i32 = 0;
    let mut i: usize = start;
    while i < c.len()
        invariant
            c@ == cb,
            component.spec_bytes() == cb,
            digits == cb.subrange(start as int, cb.len() as int),
            start == 1 <==> (cb[0] == 43 || cb[0] == 45),
            cb.len() <= 2,
            start <= i <= cb.len(),
            hex_value(cb.subrange(start as int, i as int)) == Some(value as int),
            0 <= value < pow16((i - start) as nat),
        decreases cb.len() - i,
    {
        assert(cb.subrange(start as int, i + 1).drop_last() =~= cb.subrange(start as int, i as int));
        match hex_digit_exec(c[i]) {
            Some(d) => {
                reveal_with_fuel(pow16, 3);
                assert(i - start <= 1);
                assert(pow16((i + 1 - start) as nat) == 16 * pow16((i - start) as nat));
                value = value * 16 + d;
            },
            None => {
                proof {
                    assert(cb.subrange(start as int, i + 1).last() == cb[i as int]);
                    assert(hex_value(cb.subrange(start as int, i + 1)) is None);
                    assert(cb.subrange(start as int, cb.len() as int).subrange(0, i - start + 1) =~= cb.subrange(start as int, i + 1));
                    lemma_hex_value_none_extends(cb.subrange(start as int, cb.len() as int), (i - start) as int);
                }
                return Err(HexColorParseError::NumberFormat { value: component.to_owned() });
            },
        }
        i = i + 1;
    }
    if c[0] == 45 {
        Ok(-value)
    } else {
        Ok(value)
    }
}

/// A run that has a non-digit within its first `k + 1` bytes has no value.
proof fn lemma_hex_value_none_extends(d: Seq<u8>, k: int)
    requires
        0 <= k < d.len(),
        hex_value(d.subrange(0, k + 1)) is None,
    ensures
        hex_value(d) is None,
    decreases d.len(),
{
    if d.len() == k + 1 {
        assert(d.subrange(0, k + 1) =~= d);
    } else {
        assert(d.drop_last().subrange(0, k + 1) =~= d.subrange(0, k + 1));
        lemma_hex_value_none_extends(d.drop_last(), k);
    }
}

fn channel(v: i32) -> (r: i32)
    requires
        -8192 <= v <= 8192,
    ensures
        r == v as int % 256,
{
    let m = v % 256;
    if m < 0 { m + 256 } else { m }
}

fn argb_color(red: i32, green: i32, blue: i32) -> (r: i32)
    requires
        -8192 <= red <= 8192,
        -8192 <= green <= 8192,
        -8192 <= blue <= 8192,
    ensures
        r == argb(red as int, green as int, blue as int),
{
    -16777216 + channel(red) * 65536 + channel(green) * 256 + channel(blue)
}

fn duplicate_digit(digit: i32) -> (r: i32)
    requires
        -255 <= digit <= 255,
    ensures
        r == digit * 17,
{
    digit * 17
}

proof fn lemma_component_bound(c: Seq<u8>)
    requires
        component_value(c) is Some,
        c.len() <= 2,
    ensures
        -256 < component_value(c).unwrap() < 256,
{
    let signed = c[0] == 43 || c[0] == 45;
    let digits = if signed { c.drop_first() } else { c };
    lemma_hex_value_bound(digits);
    reveal_with_fuel(pow16, 3);
}

impl HexColorArgumentModel {
    pub fn hex_color() -> (r: Self) {
        HexColorArgumentModel
    }

    /// Reads a token up to whitespace and parses it as `RGB` or `RRGGBB`.
    pub fn parse(&self, reader: &mut StringReaderModel) -> (r: Result<i32, HexColorParseError>)
        requires
            old(reader).at_cut(),
            channels_cuttable(token_at(old(reader).bytes(), old(reader).pos())),
        ensures
            final(reader).text() == old(reader).text(),
            final(reader).pos() == unquoted_end(old(reader).bytes(), old(reader).pos()),
            ({
                let tok = token_at(old(reader).bytes(), old(reader).pos());
                match (r, parse_result(tok)) {
                    (Ok(v), Ok(w)) => v == w,
                    (Err(HexColorParseError::InvalidHex { value }), Err((true, t))) => utf8(value@) == t,
                    (Err(HexColorParseError::NumberFormat { value }), Err((false, t))) => utf8(value@) == t,
                    _ => false,
                }
            }),
    {
        let ghost b = old(reader).bytes();
        let ghost p = old(reader).pos();
        let color_string = reader.read_unquoted_string();
        let s = color_string.as_str();
        let ghost tok = token_at(b, p);
        assert(s.spec_bytes() == tok);
        proof {
            lemma_unquoted_end(b, p);
        }
        let n = s.as_bytes().len();
        if n == 3 {
            let r = parse_java_hex_component(s, 0, 1);
            let red = match r { Ok(v) => v, Err(e) => { return Err(e); } };
            let g = parse_java_hex_component(s, 1, 2);
            let green = match g { Ok(v) => v, Err(e) => { return Err(e); } };
            let bl = parse_java_hex_component(s, 2, 3);
            let blue = match bl { Ok(v) => v, Err(e) => { return Err(e); } };
            proof {
                lemma_component_bound(tok.subrange(0, 1));
                lemma_component_bound(tok.subrange(1, 2));
                lemma_component_bound(tok.subrange(2, 3));
            }
            Ok(argb_color(duplicate_digit(red), duplicate_digit(green), duplicate_digit(blue)))
        } else if n == 6 {
            let r = parse_java_hex_component(s, 0, 2);
            let red = match r { Ok(v) => v, Err(e) => { return Err(e); } };
            let g = parse_java_hex_component(s, 2, 4);
            let green = match g { Ok(v) => v, Err(e) => { return Err(e); } };
            let bl = parse_java_hex_component(s, 4, 6);
            let blue = match bl { Ok(v) => v, Err(e) => { return Err(e); } };
            proof {
                lemma_component_bound(tok.subrange(0, 2));
                lemma_component_bound(tok.subrange(2, 4));
                lemma_component_bound(tok.subrange(4, 6));
            }
            Ok(argb_color(red, green, blue))
        } else {
            Err(HexColorParseError::InvalidHex { value: color_string })
        }
    }

    /// Suggests the examples that match the builder's remaining text.
    pub fn list_suggestions(&self, builder: &mut SuggestionsBuilderModel) -> (r: Vec<SuggestionModel>)
        ensures
            final(builder).values() == old(builder).values() + offered(seq!["F00"@, "FF0000"@], old(builder).remaining_view()),
            r@.map_values(|s: SuggestionModel| s.value@) == final(builder).values(),
    {
        let mut values: Vec<String> = Vec::new();
        values.push("F00".to_owned());
        values.push("FF0000".to_owned());
        assert(values@.map_values(|v: String| v@) =~= seq!["F00"@, "FF0000"@]);
        suggest(values, builder);
        builder.build()
    }

    pub fn examples() -> (r: [&'static str; 2])
        ensures
            r@[0]@ == "F00"@,
            r@[1]@ == "FF0000"@,
    {
        ["F00", "FF0000"]
    }
}

impl CommandContextModel {
    pub closed spec fn view(&self) -> Map<Seq<char>, i32> {
        self.arguments.view()
    }

    pub fn with_hex_color(self, name: &str, value: i32) -> (r: Self)
        ensures
            r.view() == self.view().insert(name@, value),
    {
        let mut arguments = self.arguments;
        arguments.insert(name.to_owned(), value);
        CommandContextModel { arguments }
    }
}

impl Default for CommandContextModel {
    fn default() -> (r: Self)
        ensures
            r.view() == Map::<Seq<char>, i32>::empty(),
    {
        CommandContextModel { arguments: ArgMap::new() }
    }
}

/// The color bound to `name`, if any.
pub fn get_hex_color(context: &CommandContextModel, name: &str) -> (r: Option<i32>)
    ensures
        r matches Some(v) ==> context.view().contains_key(name@) && context.view()[name@] == v,
        r is None ==> !context.view().contains_key(name@),
{
    match context.arguments.get(name) {
        Some(v) => Some(*v),
        None => None,
    }
}

} // verus!
