//! Text handled as a sequence of characters: splitting at a character,
//! trimming white space, and reading numbers, as `str`'s methods do.

use vstd::prelude::*;
use vstd::string::StringSliceAdditionalSpecFns;
use crate::text::{utf8, push_char, bytes_of};
use crate::decimal::{signed_decimal, unsigned_decimal, parse_i32, parse_usize};

verus! {

broadcast use vstd::string::axiom_spec_iter;

/// `char::is_whitespace`: the characters with the Unicode `White_Space` property.
pub open spec fn is_white_space(c: char) -> bool {
    let u = c as u32;
    ||| 0x09 <= u <= 0x0D
    ||| u == 0x20
    ||| u == 0x85
    ||| u == 0xA0
    ||| u == 0x1680
    ||| 0x2000 <= u <= 0x200A
    ||| u == 0x2028
    ||| u == 0x2029
    ||| u == 0x202F
    ||| u == 0x205F
    ||| u == 0x3000
}

pub fn white_space(c: char) -> (r: bool)
    ensures
        r == is_white_space(c),
{
    let u = c as u32;
    (0x09 <= u && u <= 0x0D) || u == 0x20 || u == 0x85 || u == 0xA0 || u == 0x1680 || (0x2000 <= u
        && u <= 0x200A) || u == 0x2028 || u == 0x2029 || u == 0x202F || u == 0x205F || u == 0x3000
}

/// The first position at or after `i` that holds no white space.
pub open spec fn skip_white(t: Seq<char>, i: int) -> int
    decreases t.len() - i,
{
    if 0 <= i < t.len() && is_white_space(t[i]) {
        skip_white(t, i + 1)
    } else {
        i
    }
}

/// The end, at or before `j` and not before `lo`, after which only white space stands.
pub open spec fn back_white(t: Seq<char>, lo: int, j: int) -> int
    decreases j - lo,
{
    if lo < j && is_white_space(t[j - 1]) {
        back_white(t, lo, j - 1)
    } else {
        j
    }
}

/// `str::trim`: the text without white space at either end.
pub open spec fn trim(t: Seq<char>) -> Seq<char> {
    let a = skip_white(t, 0);
    t.subrange(a, back_white(t, a, t.len() as int))
}

/// The first position at or after `i` that holds `c`, or -1.
pub open spec fn find_from(t: Seq<char>, c: char, i: int) -> int
    decreases t.len() - i,
{
    if 0 <= i < t.len() {
        if t[i] == c { i } else { find_from(t, c, i + 1) }
    } else {
        -1
    }
}

/// `str::split_once` at a character: the text before its first occurrence and after it.
pub open spec fn split_once(t: Seq<char>, c: char) -> Option<(Seq<char>, Seq<char>)> {
    let k = find_from(t, c, 0);
    if k >= 0 { Some((t.subrange(0, k), t.subrange(k + 1, t.len() as int))) } else { None }
}

/// The first position at or after `i` where `..` starts, or -1.
pub open spec fn find_dots_from(t: Seq<char>, i: int) -> int
    decreases t.len() - i,
{
    if 0 <= i && i + 1 < t.len() {
        if t[i] == '.' && t[i + 1] == '.' { i } else { find_dots_from(t, i + 1) }
    } else {
        -1
    }
}

/// `str::split_once("..")`.
pub open spec fn split_once_dots(t: Seq<char>) -> Option<(Seq<char>, Seq<char>)> {
    let k = find_dots_from(t, 0);
    if k >= 0 { Some((t.subrange(0, k), t.subrange(k + 2, t.len() as int))) } else { None }
}

/// `str::parse::<i32>` on the text.
pub open spec fn int_text(t: Seq<char>) -> Option<i32> {
    match signed_decimal(utf8(t)) {
        Some(v) => if i32::MIN <= v <= i32::MAX { Some(v as i32) } else { None },
        None => None,
    }
}

/// `str::parse::<usize>` on the text.
pub open spec fn usize_text(t: Seq<char>) -> Option<usize> {
    match unsigned_decimal(utf8(t)) {
        Some(v) => if v <= usize::MAX { Some(v as usize) } else { None },
        None => None,
    }
}

pub open spec fn is_digit_char(c: char) -> bool {
    '0' <= c <= '9'
}

pub open spec fn all_digit_chars(t: Seq<char>) -> bool {
    forall|i: int| 0 <= i < t.len() ==> is_digit_char(#[trigger] t[i])
}

/// ASCII letters in lower case, other characters unchanged.
pub open spec fn ascii_lower(c: char) -> char {
    if 'A' <= c <= 'Z' { ((c as u32) + 32) as char } else { c }
}

/// The text equals `w` when its ASCII letters are put in lower case.
pub open spec fn lower_eq(t: Seq<char>, w: Seq<char>) -> bool {
    t.len() == w.len() && forall|i: int| 0 <= i < t.len() ==> ascii_lower(#[trigger] t[i]) == w[i]
}

/// The text without one leading `+` or `-`.
pub open spec fn unsigned_part(t: Seq<char>) -> Seq<char> {
    if t.len() > 0 && (t[0] == '+' || t[0] == '-') { t.subrange(1, t.len() as int) } else { t }
}

/// Digits with at most one `.` among them, and at least one digit.
pub open spec fn mantissa_ok(m: Seq<char>) -> bool {
    let d = find_from(m, '.', 0);
    if d >= 0 {
        m.len() >= 2 && all_digit_chars(m.subrange(0, d)) && all_digit_chars(m.subrange(d + 1, m.len() as int))
    } else {
        m.len() >= 1 && all_digit_chars(m)
    }
}

/// An exponent after `e`: an optional sign and at least one digit.
pub open spec fn exponent_ok(x: Seq<char>) -> bool {
    let u = unsigned_part(x);
    u.len() >= 1 && all_digit_chars(u)
}

/// The first `e` or `E` at or after `i`, or -1.
pub open spec fn find_exp_from(t: Seq<char>, i: int) -> int
    decreases t.len() - i,
{
    if 0 <= i < t.len() {
        if t[i] == 'e' || t[i] == 'E' { i } else { find_exp_from(t, i + 1) }
    } else {
        -1
    }
}

/// Text that `str::parse::<f64>` accepts: an optional sign, then `inf`,
/// `infinity` or `nan` in any case, or digits with an optional `.` and an
/// optional exponent.
pub open spec fn float_text(t: Seq<char>) -> bool {
    let u = unsigned_part(t);
    let k = find_exp_from(u, 0);
    ||| lower_eq(u, seq!['i', 'n', 'f'])
    ||| lower_eq(u, seq!['i', 'n', 'f', 'i', 'n', 'i', 't', 'y'])
    ||| lower_eq(u, seq!['n', 'a', 'n'])
    ||| (k < 0 && mantissa_ok(u))
    ||| (k >= 0 && mantissa_ok(u.subrange(0, k)) && exponent_ok(u.subrange(k + 1, u.len() as int)))
}

/// The characters of a string slice.
pub fn chars_of(s: &str) -> (r: Vec<char>)
    ensures
        r@ == s@,
{
    let mut v: Vec<char> = Vec::new();
    for c in it: s.chars()
        invariant
            v@ == it.seq().take(it.index() as int),
            it.seq() == s@,
    {
        v.push(c);
    }
    v
}

/// The characters from `a` to `b`, as a string.
pub fn string_of(t: &Vec<char>, a: usize, b: usize) -> (r: String)
    requires
        a <= b <= t@.len(),
    ensures
        r@ == t@.subrange(a as int, b as int),
{
    let mut s = String::new();
    let mut i = a;
    while i < b
        invariant
            a <= i <= b,
            s@ == t@.subrange(a as int, i as int),
        decreases b - i,
    {
        push_char(&mut s, t[i]);
        assert(t@.subrange(a as int, i + 1) == t@.subrange(a as int, i as int).push(t@[i as int]));
        i = i + 1;
    }
    s
}

/// The characters from `a` to `b`.
pub fn slice_chars(t: &Vec<char>, a: usize, b: usize) -> (r: Vec<char>)
    requires
        a <= b <= t@.len(),
    ensures
        r@ == t@.subrange(a as int, b as int),
{
    let mut v: Vec<char> = Vec::new();
    let mut i = a;
    while i < b
        invariant
            a <= i <= b,
            v@ == t@.subrange(a as int, i as int),
        decreases b - i,
    {
        v.push(t[i]);
        assert(t@.subrange(a as int, i + 1) == t@.subrange(a as int, i as int).push(t@[i as int]));
        i = i + 1;
    }
    v
}

/// The characters of a vector, as a string.
pub fn to_string(t: &Vec<char>) -> (r: String)
    ensures
        r@ == t@,
{
    let r = string_of(t, 0, t.len());
    assert(t@.subrange(0, t@.len() as int) == t@);
    r
}

proof fn lemma_skip_white(t: Seq<char>, i: int)
    requires
        0 <= i <= t.len(),
    ensures
        i <= skip_white(t, i) <= t.len(),
    decreases t.len() - i,
{
    if i < t.len() && is_white_space(t[i]) {
        lemma_skip_white(t, i + 1);
    }
}

proof fn lemma_back_white(t: Seq<char>, lo: int, j: int)
    requires
        0 <= lo <= j <= t.len(),
    ensures
        lo <= back_white(t, lo, j) <= j,
    decreases j - lo,
{
    if lo < j && is_white_space(t[j - 1]) {
        lemma_back_white(t, lo, j - 1);
    }
}

/// `str::trim`.
pub fn trim_chars(t: &Vec<char>) -> (r: Vec<char>)
    ensures
        r@ == trim(t@),
{
    let mut a: usize = 0;
    proof {
        lemma_skip_white(t@, 0);
    }
    while a < t.len() && white_space(t[a])
        invariant
            0 <= a <= t@.len(),
            skip_white(t@, a as int) == skip_white(t@, 0),
        decreases t@.len() - a,
    {
        a = a + 1;
    }
    let mut b: usize = t.len();
    proof {
        lemma_back_white(t@, a as int, t@.len() as int);
    }
    while b > a && white_space(t[b - 1])
        invariant
            a <= b <= t@.len(),
            back_white(t@, a as int, b as int) == back_white(t@, a as int, t@.len() as int),
        decreases b - a,
    {
        b = b - 1;
    }
    slice_chars(t, a, b)
}

/// The first position at or after `i` holding `c`, or `None`.
pub fn find_char(t: &Vec<char>, c: char, i: usize) -> (r: Option<usize>)
    requires
        i <= t@.len(),
    ensures
        match r {
            Some(k) => find_from(t@, c, i as int) == k as int && k < t@.len() && t@[k as int] == c,
            None => find_from(t@, c, i as int) == -1,
        },
{
    let mut k = i;
    while k < t.len()
        invariant
            i <= k <= t@.len(),
            find_from(t@, c, k as int) == find_from(t@, c, i as int),
        decreases t@.len() - k,
    {
        if t[k] == c {
            return Some(k);
        }
        k = k + 1;
    }
    None
}

/// `str::split_once` at a character.
pub fn split_once_char(t: &Vec<char>, c: char) -> (r: Option<(Vec<char>, Vec<char>)>)
    ensures
        match split_once(t@, c) {
            Some((a, b)) => r matches Some((x, y)) && x@ == a && y@ == b,
            None => r is None,
        },
{
    let n = t.len();
    match find_char(t, c, 0) {
        Some(k) => Some((slice_chars(t, 0, k), slice_chars(t, k + 1, n))),
        None => None,
    }
}

/// `str::split_once("..")`.
pub fn split_once_dots_chars(t: &Vec<char>) -> (r: Option<(Vec<char>, Vec<char>)>)
    ensures
        match split_once_dots(t@) {
            Some((a, b)) => r matches Some((x, y)) && x@ == a && y@ == b,
            None => r is None,
        },
{
    let mut k: usize = 0;
    let n = t.len();
    while k < n && n - k > 1
        invariant
            n == t@.len(),
            0 <= k,
            k <= t@.len(),
            find_dots_from(t@, k as int) == find_dots_from(t@, 0),
        decreases t@.len() - k,
    {
        if t[k] == '.' && t[k + 1] == '.' {
            return Some((slice_chars(t, 0, k), slice_chars(t, k + 2, t.len())));
        }
        k = k + 1;
    }
    None
}

/// `str::parse::<i32>`.
pub fn int_of(t: &Vec<char>) -> (r: Option<i32>)
    ensures
        r == int_text(t@),
{
    let s = to_string(t);
    let bytes = bytes_of(s.as_str());
    parse_i32(bytes.as_slice())
}

/// `str::parse::<usize>`.
pub fn usize_of(t: &Vec<char>) -> (r: Option<usize>)
    ensures
        r == usize_text(t@),
{
    let s = to_string(t);
    let bytes = bytes_of(s.as_str());
    parse_usize(bytes.as_slice())
}

fn digits_only(t: &Vec<char>, a: usize, b: usize) -> (r: bool)
    requires
        a <= b <= t@.len(),
    ensures
        r == all_digit_chars(t@.subrange(a as int, b as int)),
{
    let mut i = a;
    while i < b
        invariant
            a <= i <= b,
            all_digit_chars(t@.subrange(a as int, i as int)),
        decreases b - i,
    {
        if !('0' <= t[i] && t[i] <= '9') {
            assert(!is_digit_char(t@.subrange(a as int, b as int)[i - a]));
            return false;
        }
        assert(t@.subrange(a as int, i + 1) == t@.subrange(a as int, i as int).push(t@[i as int]));
        i = i + 1;
    }
    true
}

fn mantissa_check(m: &Vec<char>) -> (r: bool)
    ensures
        r == mantissa_ok(m@),
{
    match find_char(m, '.', 0) {
        Some(d) => m.len() >= 2 && digits_only(m, 0, d) && digits_only(m, d + 1, m.len()),
        None => {
            assert(m@.subrange(0, m@.len() as int) == m@);
            m.len() >= 1 && digits_only(m, 0, m.len())
        },
    }
}

fn unsigned_part_of(t: &Vec<char>) -> (r: Vec<char>)
    ensures
        r@ == unsigned_part(t@),
{
    if t.len() > 0 && (t[0] == '+' || t[0] == '-') {
        slice_chars(t, 1, t.len())
    } else {
        slice_chars(t, 0, t.len())
    }
}

fn lower_equals(t: &Vec<char>, w: &Vec<char>) -> (r: bool)
    ensures
        r == lower_eq(t@, w@),
{
    if t.len() != w.len() {
        return false;
    }
    let mut i: usize = 0;
    while i < t.len()
        invariant
            t@.len() == w@.len(),
            0 <= i <= t@.len(),
            forall|j: int| 0 <= j < i ==> ascii_lower(#[trigger] t@[j]) == w@[j],
        decreases t@.len() - i,
    {
        let c = t[i];
        let l = if 'A' <= c && c <= 'Z' {
            ((c as u8) + 32) as char
        } else {
            c
        };
        if l != w[i] {
            return false;
        }
        i = i + 1;
    }
    true
}

/// Whether `str::parse::<f64>` accepts the text.
pub fn is_float_text(t: &Vec<char>) -> (r: bool)
    ensures
        r == float_text(t@),
{
    let u = unsigned_part_of(t);
    let inf: Vec<char> = vec!['i', 'n', 'f'];
    let infinity: Vec<char> = vec!['i', 'n', 'f', 'i', 'n', 'i', 't', 'y'];
    let nan: Vec<char> = vec!['n', 'a', 'n'];
    proof {
        assert(inf@ == seq!['i', 'n', 'f']);
        assert(infinity@ == seq!['i', 'n', 'f', 'i', 'n', 'i', 't', 'y']);
        assert(nan@ == seq!['n', 'a', 'n']);
    }
    if lower_equals(&u, &inf) || lower_equals(&u, &infinity) || lower_equals(&u, &nan) {
        return true;
    }
    let mut k: usize = 0;
    while k < u.len()
        invariant
            0 <= k <= u@.len(),
            find_exp_from(u@, k as int) == find_exp_from(u@, 0),
        decreases u@.len() - k,
    {
        if u[k] == 'e' || u[k] == 'E' {
            let m = slice_chars(&u, 0, k);
            let x = slice_chars(&u, k + 1, u.len());
            let xu = unsigned_part_of(&x);
            proof {
                assert(xu@.subrange(0, xu@.len() as int) == xu@);
            }
            return mantissa_check(&m) && xu.len() >= 1 && digits_only(&xu, 0, xu.len());
        }
        k = k + 1;
    }
    mantissa_check(&u)
}


/// `p` is a prefix of `t`.
pub open spec fn has_prefix(t: Seq<char>, p: Seq<char>) -> bool {
    p.len() <= t.len() && t.subrange(0, p.len() as int) == p
}

/// The values that start with `p`, in their order.
pub open spec fn with_prefix(vals: Seq<Seq<char>>, p: Seq<char>) -> Seq<Seq<char>>
    decreases vals.len(),
{
    if vals.len() == 0 {
        seq![]
    } else if has_prefix(vals[0], p) {
        seq![vals[0]] + with_prefix(vals.drop_first(), p)
    } else {
        with_prefix(vals.drop_first(), p)
    }
}

/// `str::starts_with`.
pub fn starts_with(t: &str, p: &str) -> (r: bool)
    ensures
        r == has_prefix(t@, p@),
{
    let tc = chars_of(t);
    let pc = chars_of(p);
    if pc.len() > tc.len() {
        return false;
    }
    let mut i: usize = 0;
    while i < pc.len()
        invariant
            pc@.len() <= tc@.len(),
            0 <= i <= pc@.len(),
            forall|j: int| 0 <= j < i ==> tc@[j] == pc@[j],
        decreases pc@.len() - i,
    {
        if tc[i] != pc[i] {
            assert(tc@.subrange(0, pc@.len() as int)[i as int] != pc@[i as int]);
            return false;
        }
        i = i + 1;
    }
    assert(tc@.subrange(0, pc@.len() as int) =~= pc@);
    true
}

/// The texts that start with `p`, in their order.
pub fn filter_prefix(vals: &Vec<String>, p: &str) -> (r: Vec<String>)
    ensures
        r@.map_values(|s: String| s@) == with_prefix(vals@.map_values(|s: String| s@), p@),
{
    let ghost vv = vals@.map_values(|s: String| s@);
    let mut acc: Vec<String> = Vec::new();
    let mut k: usize = 0;
    proof {
        assert(vv.subrange(0, vv.len() as int) == vv);
    }
    while k < vals.len()
        invariant
            0 <= k <= vals@.len(),
            vv == vals@.map_values(|s: String| s@),
            with_prefix(vv, p@) == acc@.map_values(|s: String| s@) + with_prefix(vv.subrange(k as int, vv.len() as int), p@),
        decreases vals@.len() - k,
    {
        let ghost rest = vv.subrange(k as int, vv.len() as int);
        proof {
            assert(rest[0] == vv[k as int]);
            assert(rest.drop_first() == vv.subrange(k + 1, vv.len() as int));
        }
        if starts_with(vals[k].as_str(), p) {
            let c = vals[k].clone();
            proof {
                assert(acc@.push(c).map_values(|s: String| s@) == acc@.map_values(|s: String| s@).push(c@));
                assert(acc@.map_values(|s: String| s@) + (seq![c@] + with_prefix(rest.drop_first(), p@))
                    == acc@.push(c).map_values(|s: String| s@) + with_prefix(rest.drop_first(), p@));
            }
            acc.push(c);
        }
        k = k + 1;
    }
    proof {
        assert(vv.subrange(k as int, vv.len() as int) == Seq::<Seq<char>>::empty());
        assert(acc@.map_values(|s: String| s@) + Seq::<Seq<char>>::empty() == acc@.map_values(|s: String| s@));
    }
    acc
}
} // verus!
