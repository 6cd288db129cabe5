//! Text helpers shared by the argument readers: UTF-8 byte views of strings,
//! slicing at ASCII boundaries, string comparison, and decimal conversion.

use vstd::prelude::*;
use vstd::utf8::*;
use vstd::string::*;

verus! {

broadcast use vstd::utf8::encode_utf8_valid_utf8, vstd::utf8::encode_utf8_decode_utf8;

/// The UTF-8 bytes of a character sequence.
pub open spec fn utf8(s: Seq<char>) -> Seq<u8> {
    encode_utf8(s)
}

/// Distinct character sequences have distinct encodings.
pub proof fn lemma_utf8_injective(a: Seq<char>, b: Seq<char>)
    requires
        utf8(a) == utf8(b),
    ensures
        a == b,
{
    assert(decode_utf8(encode_utf8(a)) == a);
    assert(decode_utf8(encode_utf8(b)) == b);
}

/// The encoding of joined text is the joined encodings.
pub proof fn lemma_utf8_concat(a: Seq<char>, b: Seq<char>)
    ensures
        utf8(a + b) == utf8(a) + utf8(b),
    decreases a.len(),
{
    if a.len() == 0 {
        assert(a + b =~= b);
        assert(utf8(a) =~= Seq::<u8>::empty());
        assert(utf8(a) + utf8(b) =~= utf8(b));
    } else {
        lemma_utf8_concat(a.drop_first(), b);
        assert((a + b).drop_first() =~= a.drop_first() + b);
        assert((a + b)[0] == a[0]);
        let head = encode_scalar(a[0] as u32);
        assert(head + (utf8(a.drop_first()) + utf8(b)) =~= (head + utf8(a.drop_first())) + utf8(b));
    }
}

/// An ASCII byte stands in the encoding of a character only where the
/// character is that byte.
pub proof fn lemma_ascii_byte_of_char(c: char, b: u8)
    requires
        b < 0x80,
        encode_scalar(c as u32).contains(b),
    ensures
        c as u32 == b as u32,
{
    let s = c as u32;
    let e = encode_scalar(s);
    let k = choose|k: int| 0 <= k < e.len() && e[k] == b;
    if has_width_1_encoding(s) {
        assert(e[0] == (s & 0x7F) as u8);
        assert(s <= 0x7F ==> ((s & 0x7F) as u8) as u32 == s) by (bit_vector);
    } else {
        assert(forall|x: u8| #[trigger] (0xC0u8 | x) >= 0x80) by (bit_vector);
        assert(forall|x: u8| #[trigger] (0xE0u8 | x) >= 0x80) by (bit_vector);
        assert(forall|x: u8| #[trigger] (0xF0u8 | x) >= 0x80) by (bit_vector);
        assert(forall|x: u8| #[trigger] (0x80u8 | x) >= 0x80) by (bit_vector);
        assert(e[k] >= 0x80);
    }
}

/// Text without the ASCII character `c` has no byte `c` in its encoding.
pub proof fn lemma_utf8_lacks_ascii(s: Seq<char>, c: char)
    requires
        (c as u32) < 0x80,
        !s.contains(c),
    ensures
        !utf8(s).contains(c as u32 as u8),
    decreases s.len(),
{
    if s.len() > 0 {
        assert(!s.drop_first().contains(c)) by {
            if s.drop_first().contains(c) {
                let k = choose|k: int| 0 <= k < s.drop_first().len() && s.drop_first()[k] == c;
                assert(s[k + 1] == c);
            }
        }
        lemma_utf8_lacks_ascii(s.drop_first(), c);
        let head = encode_scalar(s[0] as u32);
        let b = c as u32 as u8;
        let x = c as u32;
        assert(x < 0x80 ==> (x as u8) as u32 == x) by (bit_vector);
        if head.contains(b) {
            lemma_ascii_byte_of_char(s[0], b);
            char_u32_cast(s[0], s[0] as u32);
            char_u32_cast(c, c as u32);
            assert(s[0] == c);
        }
        if utf8(s).contains(b) {
            let k = choose|k: int| 0 <= k < utf8(s).len() && utf8(s)[k] == b;
            assert(utf8(s) == head + utf8(s.drop_first()));
            if k < head.len() {
                assert(head[k] == b);
            } else {
                assert(utf8(s.drop_first())[k - head.len()] == b);
            }
        }
    }
}

/// The encoding of a one-character ASCII text is that byte.
pub proof fn lemma_utf8_ascii_char(c: char)
    requires
        (c as u32) < 0x80,
    ensures
        utf8(seq![c]) == seq![c as u32 as u8],
{
    let s = seq![c];
    assert(s.drop_first() =~= Seq::<char>::empty());
    assert(s[0] == c);
    let x = c as u32;
    assert(x < 0x80 ==> (x & 0x7F) as u8 == x as u8) by (bit_vector);
    assert(utf8(s) =~= encode_scalar(x) + utf8(s.drop_first()));
}

/// A byte position at which a reader may cut the text: the start, the end,
/// or a byte that does not continue a multi-byte character.
pub open spec fn cut_point(bytes: Seq<u8>, pos: int) -> bool {
    &&& 0 <= pos <= bytes.len()
    &&& (pos == 0 || pos == bytes.len() || !is_continuation_byte(bytes[pos]))
}

/// The character that a reader sees for a single byte (Latin-1 reading of the byte).
pub open spec fn byte_char(b: u8) -> char {
    (b as u32) as char
}

/// `char::is_ascii_whitespace` on a byte.
pub open spec fn is_ascii_whitespace_byte(b: u8) -> bool {
    b == 32 || b == 9 || b == 10 || b == 12 || b == 13
}

pub open spec fn is_ascii_digit_byte(b: u8) -> bool {
    48 <= b <= 57
}

pub open spec fn is_ascii_lowercase_byte(b: u8) -> bool {
    97 <= b <= 122
}

pub open spec fn is_ascii_uppercase_byte(b: u8) -> bool {
    65 <= b <= 90
}

pub open spec fn is_ascii_alphabetic_byte(b: u8) -> bool {
    is_ascii_lowercase_byte(b) || is_ascii_uppercase_byte(b)
}

pub proof fn lemma_cut_point_is_char_boundary(bytes: Seq<u8>, pos: int)
    requires
        valid_utf8(bytes),
        cut_point(bytes, pos),
    ensures
        is_char_boundary(bytes, pos),
{
    is_char_boundary_start_end_of_seq(bytes);
    if 0 < pos < bytes.len() {
        is_char_boundary_iff_not_is_continuation_byte(bytes, pos);
    }
}

/// In valid UTF-8, the byte after an ASCII byte never continues a character.
pub proof fn lemma_after_ascii_not_continuation(bytes: Seq<u8>, p: int)
    requires
        valid_utf8(bytes),
        0 < p < bytes.len(),
        bytes[p - 1] < 0x80,
    ensures
        !is_continuation_byte(bytes[p]),
{
    is_char_boundary_iff_not_is_continuation_byte(bytes, p - 1);
    lemma_boundary_step_ascii(bytes, p - 1);
    is_char_boundary_iff_not_is_continuation_byte(bytes, p);
}

proof fn lemma_boundary_step_ascii(bytes: Seq<u8>, i: int)
    requires
        valid_utf8(bytes),
        0 <= i < bytes.len(),
        is_char_boundary(bytes, i),
        bytes[i] < 0x80,
    ensures
        is_char_boundary(bytes, i + 1),
    decreases bytes.len(),
{
    reveal_with_fuel(is_char_boundary, 2);
    if i == 0 {
        assert(length_of_first_scalar(bytes) == 1);
        assert(is_char_boundary(pop_first_scalar(bytes), 0));
    } else {
        let n = length_of_first_scalar(bytes);
        let t = pop_first_scalar(bytes);
        assert(is_char_boundary(t, i - n));
        assert(i - n >= 0) by {
            if i - n < 0 {
                assert(!is_char_boundary(t, i - n));
            }
        }
        assert(t.len() == bytes.len() - n) by {
            reveal_with_fuel(valid_utf8, 2);
        }
        assert(t[i - n] == bytes[i]);
        lemma_boundary_step_ascii(t, i - n);
    }
}

/// The bytes of `s` between two cut points, as a string slice.
pub fn substring(s: &str, start: usize, end: usize) -> (r: &str)
    requires
        start <= end,
        cut_point(s.spec_bytes(), start as int),
        cut_point(s.spec_bytes(), end as int),
    ensures
        r.spec_bytes() == s.spec_bytes().subrange(start as int, end as int),
        r@ == decode_utf8(s.spec_bytes().subrange(start as int, end as int)),
{
    let ghost b = s.spec_bytes();
    proof {
        lemma_cut_point_is_char_boundary(b, start as int);
        valid_utf8_split(b, start as int);
    }
    let (_, tail) = s.split_at(start);
    let ghost t = tail.spec_bytes();
    assert(t =~= b.subrange(start as int, b.len() as int));
    proof {
        is_char_boundary_start_end_of_seq(t);
        if end < b.len() && end > start {
            assert(t[end - start] == b[end as int]);
            is_char_boundary_iff_not_is_continuation_byte(t, end - start);
        }
    }
    let (mid, _) = tail.split_at(end - start);
    assert(mid.spec_bytes() =~= b.subrange(start as int, end as int));
    mid
}

/// Equality of two string slices.
pub fn str_eq(a: &str, b: &str) -> (r: bool)
    ensures
        r == (a@ == b@),
{
    let x = a.as_bytes();
    let y = b.as_bytes();
    if x.len() != y.len() {
        proof {
            if a@ == b@ {
                assert(a.spec_bytes() == b.spec_bytes());
            }
        }
        return false;
    }
    let mut i: usize = 0;
    while i < x.len()
        invariant
            x@ == a.spec_bytes(),
            y@ == b.spec_bytes(),
            x@.len() == y@.len(),
            0 <= i <= x@.len(),
            forall|j: int| 0 <= j < i ==> x@[j] == y@[j],
        decreases x@.len() - i,
    {
        if x[i] != y[i] {
            proof {
                if a@ == b@ {
                    assert(a.spec_bytes() == b.spec_bytes());
                }
            }
            return false;
        }
        i = i + 1;
    }
    proof {
        assert(x@ =~= y@);
        assert(decode_utf8(encode_utf8(a@)) == a@);
        assert(decode_utf8(encode_utf8(b@)) == b@);
    }
    true
}

/// Equality of an owned string and a string slice.
pub fn string_eq_str(a: &String, b: &str) -> (r: bool)
    ensures
        r == (a@ == b@),
{
    str_eq(a.as_str(), b)
}

/// Appends one character to a string (`String::push`).
#[verifier::external_body]
pub fn push_char(s: &mut String, c: char)
    ensures
        final(s)@ == old(s)@.push(c),
{
    s.push(c);
}

/// Appends a string slice to a string.
pub fn push_str(s: &mut String, t: &str)
    ensures
        final(s)@ == old(s)@ + t@,
{
    s.append(t);
}

/// The decimal digits of a natural number, most significant first.
pub open spec fn digits(n: nat) -> Seq<char>
    decreases n,
{
    if n < 10 {
        seq![((n + 48) as u32) as char]
    } else {
        digits(n / 10).push((((n % 10) + 48) as u32) as char)
    }
}

/// `Display` of an integer: an optional minus sign and the decimal digits.
pub open spec fn decimal(v: int) -> Seq<char> {
    if v < 0 {
        seq!['-'].add(digits((-v) as nat))
    } else {
        digits(v as nat)
    }
}

fn digit_char(d: u64) -> (c: char)
    requires
        d < 10,
    ensures
        c == ((d + 48) as u32) as char,
{
    if d == 0 { '0' } else if d == 1 { '1' } else if d == 2 { '2' } else if d == 3 { '3' }
    else if d == 4 { '4' } else if d == 5 { '5' } else if d == 6 { '6' } else if d == 7 { '7' }
    else if d == 8 { '8' } else { '9' }
}

fn push_digits(s: &mut String, n: u64)
    ensures
        final(s)@ == old(s)@ + digits(n as nat),
    decreases n,
{
    if n < 10 {
        push_char(s, digit_char(n));
        assert(digits(n as nat) =~= seq![((n + 48) as u32) as char]);
    } else {
        push_digits(s, n / 10);
        push_char(s, digit_char(n % 10));
        assert(old(s)@ + digits(n as nat) =~= old(s)@ + digits((n / 10) as nat) + seq![(((n % 10) + 48) as u32) as char]);
    }
}

/// `u64::to_string`.
pub fn u64_to_string(n: u64) -> (r: String)
    ensures
        r@ == decimal(n as int),
{
    let mut s = String::new();
    push_digits(&mut s, n);
    assert(s@ =~= digits(n as nat));
    s
}

/// `i64::to_string`.
pub fn i64_to_string(v: i64) -> (r: String)
    ensures
        r@ == decimal(v as int),
{
    let mut s = String::new();
    if v < 0 {
        push_char(&mut s, '-');
        let m: u64 = if v == i64::MIN { 9223372036854775808u64 } else { (-v) as u64 };
        push_digits(&mut s, m);
        assert(s@ =~= seq!['-'].add(digits((-v) as nat)));
    } else {
        push_digits(&mut s, v as u64);
        assert(s@ =~= digits(v as nat));
    }
    s
}

/// The UTF-8 bytes of a string, as a vector.
pub fn bytes_of(s: &str) -> (r: Vec<u8>)
    ensures
        r@ == s.spec_bytes(),
{
    let b = s.as_bytes();
    let mut v: Vec<u8> = Vec::new();
    let mut i: usize = 0;
    while i < b.len()
        invariant
            0 <= i <= b@.len(),
            v@ == b@.subrange(0, i as int),
            b@ == s.spec_bytes(),
        decreases b@.len() - i,
    {
        v.push(b[i]);
        i = i + 1;
        assert(v@ =~= b@.subrange(0, i as int));
    }
    assert(b@.subrange(0, b@.len() as int) =~= b@);
    v
}

} // verus!
