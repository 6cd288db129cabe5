//! The `operation` argument of `/scoreboard players operation`: an
//! assignment operator applied to two scores.

use vstd::prelude::*;
use crate::text::{utf8, str_eq, lemma_utf8_injective};
use crate::string_reader::{space_end};
use crate::arg_map::ArgMap;
use crate::command_shared_suggestion_provider::{suggest, SuggestionModel, SuggestionsBuilderModel, offered};
pub use crate::string_reader::StringReaderModel;

verus! {

broadcast use vstd::utf8::encode_utf8_decode_utf8;

#[derive(Debug, Clone, PartialEq, Eq)]
pub struct OperationArgumentModel;

#[derive(Debug, Clone, PartialEq, Eq)]
pub enum OperationArgumentError {
    InvalidOperation,
    DivideByZero,
}

#[derive(Debug, Clone, Copy, PartialEq, Eq)]
pub struct ScoreAccessModel {
    value: i32,
}

pub struct CommandContextModel {
    arguments: ArgMap<OperationModel>,
}

#[derive(Debug, Clone, Copy, PartialEq, Eq, Hash, Structural)]
pub enum OperationModel {
    Assign,
    AddAssign,
    SubtractAssign,
    MultiplyAssign,
    DivideAssign,
    ModuloAssign,
    Min,
    Max,
    Swap,
}

/// Floor division (rounding toward negative infinity).
pub open spec fn floor_div(a: int, b: int) -> int {
    if b > 0 { a / b } else { (-a) / (-b) }
}

/// Java's `Math.floorDiv` on `int`: floor division, where `MIN / -1` wraps to `MIN`.
pub open spec fn java_floor_div_spec(a: i32, b: i32) -> i32 {
    if a == i32::MIN && b == -1 { i32::MIN } else { floor_div(a as int, b as int) as i32 }
}

/// Java's `Math.floorMod` on `int`: the remainder of floor division (`MIN % -1` is 0).
pub open spec fn java_floor_mod_spec(a: i32, b: i32) -> i32 {
    if a == i32::MIN && b == -1 { 0 } else { (a - b * floor_div(a as int, b as int)) as i32 }
}

/// The value that an operation other than swap stores in the left score.
pub open spec fn apply_simple_spec(op: OperationModel, left: i32, right: i32) -> Result<i32, OperationArgumentError> {
    match op {
        OperationModel::Assign => Ok(right),
        OperationModel::AddAssign => Ok(vstd::wrapping::i32_specs::wrapping_add(left, right)),
        OperationModel::SubtractAssign => Ok(vstd::wrapping::i32_specs::wrapping_sub(left, right)),
        OperationModel::MultiplyAssign => Ok(vstd::wrapping::i32_specs::wrapping_mul(left, right)),
        OperationModel::DivideAssign => if right == 0 { Err(OperationArgumentError::DivideByZero) } else { Ok(java_floor_div_spec(left, right)) },
        OperationModel::ModuloAssign => if right == 0 { Err(OperationArgumentError::DivideByZero) } else { Ok(java_floor_mod_spec(left, right)) },
        OperationModel::Min => Ok(if left <= right { left } else { right }),
        OperationModel::Max => Ok(if left >= right { left } else { right }),
        OperationModel::Swap => Ok(left),
    }
}

/// What each operation other than swap stores in the left score: `=` the
/// right score; `<` the smaller of the two and `>` the larger (each one of
/// the two scores, below or above both); `+=`, `-=` and `*=` the sum,
/// difference and product whenever it fits in a score; `/=` and `%=` by zero
/// fail.
pub proof fn lemma_operation_results(left: i32, right: i32)
    ensures
        apply_simple_spec(OperationModel::Assign, left, right) == Ok::<i32, OperationArgumentError>(right),
        apply_simple_spec(OperationModel::Max, left, right) matches Ok(x)
            && x >= left && x >= right && (x == left || x == right),
        apply_simple_spec(OperationModel::Min, left, right) matches Ok(x)
            && x <= left && x <= right && (x == left || x == right),
        i32::MIN <= left + right <= i32::MAX
            ==> (apply_simple_spec(OperationModel::AddAssign, left, right) matches Ok(x) && x == left + right),
        i32::MIN <= left - right <= i32::MAX
            ==> (apply_simple_spec(OperationModel::SubtractAssign, left, right) matches Ok(x) && x == left - right),
        i32::MIN <= left * right <= i32::MAX
            ==> (apply_simple_spec(OperationModel::MultiplyAssign, left, right) matches Ok(x) && x == left * right),
        right == 0 ==> apply_simple_spec(OperationModel::DivideAssign, left, right)
            == Err::<i32, OperationArgumentError>(OperationArgumentError::DivideByZero),
        right == 0 ==> apply_simple_spec(OperationModel::ModuloAssign, left, right)
            == Err::<i32, OperationArgumentError>(OperationArgumentError::DivideByZero),
{
    let p = left * right;
    if i32::MIN <= p <= i32::MAX {
        let range: int = 0x1_0000_0000;
        if p >= 0 {
            vstd::arithmetic::div_mod::lemma_fundamental_div_mod_converse(p, range, 0, p);
        } else {
            vstd::arithmetic::div_mod::lemma_fundamental_div_mod_converse(p, range, -1, p + range);
        }
    }
}

proof fn lemma_neg_div(m: int, d: int)
    requires
        m > 0,
        d > 0,
    ensures
        (-m) / d == -((m + d - 1) / d),
{
    let q = (m + d - 1) / d;
    let r = (m + d - 1) % d;
    vstd::arithmetic::div_mod::lemma_fundamental_div_mod(m + d - 1, d);
    vstd::arithmetic::div_mod::lemma_mod_bound(m + d - 1, d);
    assert(m + d - 1 == q * d + r && 0 <= r < d);
    assert(-m == (-q) * d + (d - 1 - r)) by (nonlinear_arith)
        requires m + d - 1 == q * d + r;
    vstd::arithmetic::div_mod::lemma_fundamental_div_mod_converse(-m, d, -q, d - 1 - r);
}

/// Floor division in 64 bits; the quotient of 32-bit operands.
fn floor_div64(a: i64, b: i64) -> (q: i64)
    requires
        b != 0,
        -2147483648 <= a <= 2147483647,
        -2147483648 <= b <= 2147483647,
    ensures
        q == floor_div(a as int, b as int),
{
    let (n, d) = if b > 0 { (a, b) } else { (-a, -b) };
    assert(floor_div(a as int, b as int) == (n as int) / (d as int));
    if n >= 0 {
        let q = (n as u64) / (d as u64);
        assert(q as int == (n as int) / (d as int));
        q as i64
    } else {
        let m = (-n) as u64;
        let dd = d as u64;
        let q = (m + dd - 1) / dd;
        proof {
            lemma_neg_div(m as int, dd as int);
            assert(q <= m) by (nonlinear_arith)
                requires q as int == (m as int + dd as int - 1) / (dd as int), dd >= 1, m >= 1;
        }
        -(q as i64)
    }
}

fn java_floor_div(left: i32, right: i32) -> (r: i32)
    requires
        right != 0,
    ensures
        r == java_floor_div_spec(left, right),
{
    if left == i32::MIN && right == -1 {
        return i32::MIN;
    }
    let q = floor_div64(left as i64, right as i64);
    proof {
        let a = left as int;
        let b = right as int;
        if b > 0 {
            assert(-2147483648 <= a / b <= 2147483647) by (nonlinear_arith)
                requires b > 0, -2147483648 <= a <= 2147483647;
        } else {
            assert(-2147483647 <= (-a) / (-b) <= 2147483648) by (nonlinear_arith)
                requires b < 0, -2147483648 <= a <= 2147483647, -b <= 2147483648;
            assert((-a) / (-b) != 2147483648) by (nonlinear_arith)
                requires b < 0, -2147483648 <= a <= 2147483647, -b <= 2147483648, !(a == -2147483648 && b == -1);
        }
    }
    q as i32
}

fn java_floor_mod(left: i32, right: i32) -> (r: i32)
    requires
        right != 0,
    ensures
        r == java_floor_mod_spec(left, right),
{
    if left == i32::MIN && right == -1 {
        return 0;
    }
    let q = floor_div64(left as i64, right as i64);
    proof {
        let a = left as int;
        let b = right as int;
        let f = floor_div(a, b);
        if b > 0 {
            assert(0 <= a - b * (a / b) < b) by (nonlinear_arith)
                requires b > 0;
        } else {
            assert(0 <= (-a) - (-b) * ((-a) / (-b)) < -b) by (nonlinear_arith)
                requires b < 0;
            assert(a - b * f == -((-a) - (-b) * f)) by (nonlinear_arith);
        }
        if b > 0 {
            assert(-2147483648 <= a / b <= 2147483647) by (nonlinear_arith)
                requires b > 0, -2147483648 <= a <= 2147483647;
        } else {
            assert(-2147483647 <= (-a) / (-b) <= 2147483648) by (nonlinear_arith)
                requires b < 0, -2147483648 <= a <= 2147483647, -b <= 2147483648;
        }
        assert(-4611686018427387904 <= f * b <= 4611686018427387904) by (nonlinear_arith)
            requires -2147483648 <= b <= 2147483648, -2147483648 <= f <= 2147483648;
    }
    let m = (left as i64) - q * (right as i64);
    m as i32
}

impl ScoreAccessModel {
    pub fn new(value: i32) -> (r: Self)
        ensures
            r.value_spec() == value,
    {
        ScoreAccessModel { value }
    }

    pub closed spec fn value_spec(&self) -> i32 {
        self.value
    }

    pub fn get(&self) -> (r: i32)
        ensures
            r == self.value_spec(),
    {
        self.value
    }

    pub fn set(&mut self, value: i32)
        ensures
            final(self).value_spec() == value,
    {
        self.value = value;
    }
}

impl OperationModel {
    pub open spec fn token_spec(self) -> Seq<char> {
        match self {
            OperationModel::Assign => "="@,
            OperationModel::AddAssign => "+="@,
            OperationModel::SubtractAssign => "-="@,
            OperationModel::MultiplyAssign => "*="@,
            OperationModel::DivideAssign => "/="@,
            OperationModel::ModuloAssign => "%="@,
            OperationModel::Min => "<"@,
            OperationModel::Max => ">"@,
            OperationModel::Swap => "><"@,
        }
    }

    fn parse_token(value: &str) -> (r: Option<OperationModel>)
        ensures
            r matches Some(v) ==> v.token_spec() == value@,
            r is None ==> forall|v: OperationModel| #[trigger] v.token_spec() != value@,
    {
        if str_eq(value, "=") {
            return Some(OperationModel::Assign);
        }
        if str_eq(value, "+=") {
            return Some(OperationModel::AddAssign);
        }
        if str_eq(value, "-=") {
            return Some(OperationModel::SubtractAssign);
        }
        if str_eq(value, "*=") {
            return Some(OperationModel::MultiplyAssign);
        }
        if str_eq(value, "/=") {
            return Some(OperationModel::DivideAssign);
        }
        if str_eq(value, "%=") {
            return Some(OperationModel::ModuloAssign);
        }
        if str_eq(value, "<") {
            return Some(OperationModel::Min);
        }
        if str_eq(value, ">") {
            return Some(OperationModel::Max);
        }
        if str_eq(value, "><") {
            return Some(OperationModel::Swap);
        }
        proof {
            assert forall|v: OperationModel| #[trigger] v.token_spec() != value@ by {
                match v {
                    OperationModel::Assign => {},
                    OperationModel::AddAssign => {},
                    OperationModel::SubtractAssign => {},
                    OperationModel::MultiplyAssign => {},
                    OperationModel::DivideAssign => {},
                    OperationModel::ModuloAssign => {},
                    OperationModel::Min => {},
                    OperationModel::Max => {},
                    OperationModel::Swap => {},
                }
            }
        }
        None
    }

    fn parse(value: &str) -> (r: Result<OperationModel, OperationArgumentError>)
        ensures
            r matches Ok(op) ==> op.token_spec() == value@,
            r is Err ==> r == Err::<OperationModel, OperationArgumentError>(OperationArgumentError::InvalidOperation)
                && forall|op: OperationModel| #[trigger] op.token_spec() != value@,
    {
        match Self::parse_token(value) {
            Some(op) => Ok(op),
            None => Err(OperationArgumentError::InvalidOperation),
        }
    }

    /// Applies the operation: swap exchanges the scores; every other
    /// operation stores its result in the left score, or fails without
    /// changing either score.
    pub fn apply(self, left: &mut ScoreAccessModel, right: &mut ScoreAccessModel) -> (r: Result<(), OperationArgumentError>)
        ensures
            self == OperationModel::Swap ==> r is Ok && final(left).value_spec() == old(right).value_spec() && final(right).value_spec() == old(left).value_spec(),
            self != OperationModel::Swap ==> match apply_simple_spec(self, old(left).value_spec(), old(right).value_spec()) {
                Ok(v) => r is Ok && final(left).value_spec() == v && final(right).value_spec() == old(right).value_spec(),
                Err(e) => r == Err::<(), OperationArgumentError>(e) && final(left).value_spec() == old(left).value_spec() && final(right).value_spec() == old(right).value_spec(),
            },
    {
        if self == OperationModel::Swap {
            let swap = left.get();
            left.set(right.get());
            right.set(swap);
            return Ok(());
        }
        match self.apply_simple(left.get(), right.get()) {
            Ok(value) => {
                left.set(value);
                Ok(())
            },
            Err(e) => Err(e),
        }
    }

    fn apply_simple(self, left: i32, right: i32) -> (r: Result<i32, OperationArgumentError>)
        requires
            self != OperationModel::Swap,
        ensures
            r == apply_simple_spec(self, left, right),
    {
        match self {
            OperationModel::Assign => Ok(right),
            OperationModel::AddAssign => Ok(left.wrapping_add(right)),
            OperationModel::SubtractAssign => Ok(left.wrapping_sub(right)),
            OperationModel::MultiplyAssign => Ok(left.wrapping_mul(right)),
            OperationModel::DivideAssign => {
                if right == 0 {
                    Err(OperationArgumentError::DivideByZero)
                } else {
                    Ok(java_floor_div(left, right))
                }
            },
            OperationModel::ModuloAssign => {
                if right == 0 {
                    Err(OperationArgumentError::DivideByZero)
                } else {
                    Ok(java_floor_mod(left, right))
                }
            },
            OperationModel::Min => Ok(if left <= right { left } else { right }),
            OperationModel::Max => Ok(if left >= right { left } else { right }),
            OperationModel::Swap => Ok(left),
        }
    }
}

pub open spec fn operation_tokens() -> Seq<Seq<char>> {
    seq!["="@, "+="@, "-="@, "*="@, "/="@, "%="@, "<"@, ">"@, "><"@]
}

impl OperationArgumentModel {
    pub fn operation() -> (r: Self) {
        OperationArgumentModel
    }

    /// Reads up to the next space; the token must be an operator. Empty input
    /// fails without moving; an unknown token leaves the cursor after it.
    pub fn parse(&self, reader: &mut StringReaderModel) -> (r: Result<OperationModel, OperationArgumentError>)
        requires
            old(reader).at_cut(),
        ensures
            final(reader).text() == old(reader).text(),
            old(reader).pos() >= old(reader).bytes().len() ==> r == Err::<OperationModel, OperationArgumentError>(OperationArgumentError::InvalidOperation)
                && final(reader).pos() == old(reader).pos(),
            old(reader).pos() < old(reader).bytes().len() ==> ({
                let end = space_end(old(reader).bytes(), old(reader).pos());
                let tok = old(reader).bytes().subrange(old(reader).pos(), end);
                &&& final(reader).pos() == end
                &&& match r {
                    Ok(op) => utf8(op.token_spec()) == tok,
                    Err(e) => e == OperationArgumentError::InvalidOperation && forall|op: OperationModel| #[trigger] utf8(op.token_spec()) != tok,
                }
            }),
    {
        if !reader.can_read() {
            return Err(OperationArgumentError::InvalidOperation);
        }
        let start = reader.cursor();
        reader.skip_to_space();
        let end = reader.cursor();
        let token = reader.slice(start, end);
        let r = OperationModel::parse(token);
        proof {
            if r is Err {
                assert forall|op: OperationModel| #[trigger] utf8(op.token_spec()) != utf8(token@) by {
                    if utf8(op.token_spec()) == utf8(token@) {
                        lemma_utf8_injective(op.token_spec(), token@);
                    }
                }
            }
        }
        r
    }

    /// Suggests the operators that match the remaining text, in source order.
    pub fn list_suggestions(&self, builder: &mut SuggestionsBuilderModel) -> (r: Vec<SuggestionModel>)
        ensures
            final(builder).values() == old(builder).values() + offered(operation_tokens(), old(builder).remaining_view()),
            r@.map_values(|s: SuggestionModel| s.value@) == final(builder).values(),
    {
        let mut values: Vec<String> = Vec::new();
        values.push("=".to_owned());
        values.push("+=".to_owned());
        values.push("-=".to_owned());
        values.push("*=".to_owned());
        values.push("/=".to_owned());
        values.push("%=".to_owned());
        values.push("<".to_owned());
        values.push(">".to_owned());
        values.push("><".to_owned());
        assert(values@.map_values(|v: String| v@) =~= operation_tokens());
        suggest(values, builder);
        builder.build()
    }

    pub fn examples(&self) -> (r: [&'static str; 3])
        ensures
            r@[0]@ == "="@,
            r@[1]@ == ">"@,
            r@[2]@ == "<"@,
    {
        ["=", ">", "<"]
    }
}

impl CommandContextModel {
    pub closed spec fn view(&self) -> Map<Seq<char>, OperationModel> {
        self.arguments.view()
    }

    pub fn with_operation(self, name: &str, value: OperationModel) -> (r: Self)
        ensures
            r.view() == self.view().insert(name@, value),
    {
        let mut arguments = self.arguments;
        arguments.insert(name.to_owned(), value);
        CommandContextModel { arguments }
    }
}

impl Default for CommandContextModel {
    fn default() -> (r: Self)
        ensures
            r.view() == Map::<Seq<char>, OperationModel>::empty(),
    {
        CommandContextModel { arguments: ArgMap::new() }
    }
}

/// The value bound to `name`, if any.
pub fn get_operation(context: &CommandContextModel, name: &str) -> (r: Option<OperationModel>)
    ensures
        r matches Some(v) ==> context.view().contains_key(name@) && context.view()[name@] == v,
        r is None ==> !context.view().contains_key(name@),
{
    match context.arguments.get(name) {
        Some(v) => Some(*v),
        None => None,
    }
}


/// Floor division and its remainder put the dividend back together, and the
/// remainder has the sign of the divisor and is smaller than it.
pub proof fn lemma_floor_div_mod(a: i32, b: i32)
    requires
        b != 0,
        !(a == i32::MIN && b == -1),
    ensures
        java_floor_div_spec(a, b) * b + java_floor_mod_spec(a, b) == a,
        b > 0 ==> 0 <= java_floor_mod_spec(a, b) < b,
        b < 0 ==> b < java_floor_mod_spec(a, b) <= 0,
{
    let q = floor_div(a as int, b as int);
    if b > 0 {
        vstd::arithmetic::div_mod::lemma_fundamental_div_mod(a as int, b as int);
        vstd::arithmetic::div_mod::lemma_mod_bound(a as int, b as int);
        assert(a - b * q == (a as int) % (b as int)) by (nonlinear_arith)
            requires
                q == (a as int) / (b as int),
                a as int == (b as int) * ((a as int) / (b as int)) + (a as int) % (b as int);
    } else {
        let m = -(a as int);
        let d = -(b as int);
        vstd::arithmetic::div_mod::lemma_fundamental_div_mod(m, d);
        vstd::arithmetic::div_mod::lemma_mod_bound(m, d);
        assert(a - b * q == -(m % d)) by (nonlinear_arith)
            requires
                q == m / d,
                m == d * (m / d) + m % d,
                m == -(a as int),
                d == -(b as int);
    }
    assert(i32::MIN <= q <= i32::MAX) by (nonlinear_arith)
        requires
            q * (b as int) + (a - b * q) == a,
            b > 0 ==> 0 <= a - b * q < b,
            b < 0 ==> b < a - b * q <= 0,
            i32::MIN <= a <= i32::MAX,
            i32::MIN <= b <= i32::MAX,
            b != 0,
            !(a == i32::MIN && b == -1);
}
} // verus!
