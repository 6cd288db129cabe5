//! Chat components as commands build them: literal text, or a translation
//! key with arguments, possibly styled; rendered as JSON text or, with a
//! translation table, as plain text.

use vstd::prelude::*;
use crate::text::{push_str, push_char, i64_to_string, decimal};
use crate::str_map::StrMap;

verus! {

#[derive(Debug, PartialEq, Eq)]
pub enum ComponentArgument {
    String(String),
    Number(i32),
    Component(Box<Component>),
}

#[derive(Debug, PartialEq, Eq)]
pub enum Component {
    Literal(String),
    Translatable { key: String, args: Vec<ComponentArgument> },
    Styled(Box<Component>, Style),
}

/// The sixteen named text colors.
#[derive(Debug, Clone, Copy, PartialEq, Eq, Structural)]
pub enum TextColor {
    Black,
    DarkBlue,
    DarkGreen,
    DarkAqua,
    DarkRed,
    DarkPurple,
    Gold,
    Gray,
    DarkGray,
    Blue,
    Green,
    Aqua,
    Red,
    LightPurple,
    Yellow,
    White,
}

/// The name of each color.
pub open spec fn color_name(c: TextColor) -> Seq<char> {
    match c {
        TextColor::Black => "black"@,
        TextColor::DarkBlue => "dark_blue"@,
        TextColor::DarkGreen => "dark_green"@,
        TextColor::DarkAqua => "dark_aqua"@,
        TextColor::DarkRed => "dark_red"@,
        TextColor::DarkPurple => "dark_purple"@,
        TextColor::Gold => "gold"@,
        TextColor::Gray => "gray"@,
        TextColor::DarkGray => "dark_gray"@,
        TextColor::Blue => "blue"@,
        TextColor::Green => "green"@,
        TextColor::Aqua => "aqua"@,
        TextColor::Red => "red"@,
        TextColor::LightPurple => "light_purple"@,
        TextColor::Yellow => "yellow"@,
        TextColor::White => "white"@,
    }
}

impl TextColor {
    /// The color's name.
    pub fn name(self) -> (r: &'static str)
        ensures
            r@ == color_name(self),
    {
        match self {
            TextColor::Black => "black",
            TextColor::DarkBlue => "dark_blue",
            TextColor::DarkGreen => "dark_green",
            TextColor::DarkAqua => "dark_aqua",
            TextColor::DarkRed => "dark_red",
            TextColor::DarkPurple => "dark_purple",
            TextColor::Gold => "gold",
            TextColor::Gray => "gray",
            TextColor::DarkGray => "dark_gray",
            TextColor::Blue => "blue",
            TextColor::Green => "green",
            TextColor::Aqua => "aqua",
            TextColor::Red => "red",
            TextColor::LightPurple => "light_purple",
            TextColor::Yellow => "yellow",
            TextColor::White => "white",
        }
    }

    /// The color with the name, if there is one.
    pub fn parse(name: &str) -> (r: Option<TextColor>)
        ensures
            match r {
                Some(c) => color_name(c) == name@,
                None => forall|c: TextColor| color_name(c) != name@,
            },
    {
        let all = [
            TextColor::Black,
            TextColor::DarkBlue,
            TextColor::DarkGreen,
            TextColor::DarkAqua,
            TextColor::DarkRed,
            TextColor::DarkPurple,
            TextColor::Gold,
            TextColor::Gray,
            TextColor::DarkGray,
            TextColor::Blue,
            TextColor::Green,
            TextColor::Aqua,
            TextColor::Red,
            TextColor::LightPurple,
            TextColor::Yellow,
            TextColor::White,
        ];
        let mut i: usize = 0;
        while i < 16
            invariant
                0 <= i <= 16,
                all@.len() == 16,
                forall|k: int| 0 <= k < i ==> color_name(#[trigger] all@[k]) != name@,
            decreases 16 - i,
        {
            let c = all[i];
            if crate::text::str_eq(c.name(), name) {
                return Some(c);
            }
            i = i + 1;
        }
        proof {
            assert forall|c: TextColor| color_name(c) != name@ by {
                let k: int = match c {
                    TextColor::Black => 0,
                    TextColor::DarkBlue => 1,
                    TextColor::DarkGreen => 2,
                    TextColor::DarkAqua => 3,
                    TextColor::DarkRed => 4,
                    TextColor::DarkPurple => 5,
                    TextColor::Gold => 6,
                    TextColor::Gray => 7,
                    TextColor::DarkGray => 8,
                    TextColor::Blue => 9,
                    TextColor::Green => 10,
                    TextColor::Aqua => 11,
                    TextColor::Red => 12,
                    TextColor::LightPurple => 13,
                    TextColor::Yellow => 14,
                    TextColor::White => 15,
                };
                assert(all@[k] == c);
            }
        }
        None
    }
}

/// How a component is styled: its color, if it has one.
#[derive(Debug, Clone, Copy, PartialEq, Eq, Structural)]
pub struct Style {
    pub color: Option<TextColor>,
}

impl Style {
    pub fn empty() -> (r: Style)
        ensures
            r.color is None,
    {
        Style { color: None }
    }

    pub fn with_color(self, color: TextColor) -> (r: Style)
        ensures
            r.color == Some(color),
    {
        Style { color: Some(color) }
    }
}

/// The JSON text of a string: quoted, with `"`, `\` and control characters
/// escaped.
pub open spec fn json_string(s: Seq<char>) -> Seq<char> {
    "\""@ + escaped(s) + "\""@
}

pub open spec fn escaped(s: Seq<char>) -> Seq<char>
    decreases s.len(),
{
    if s.len() == 0 {
        seq![]
    } else {
        escaped(s.drop_last()) + escaped_char(s.last())
    }
}

pub open spec fn hex_digit(n: u32) -> char {
    if n < 10 { ((n + 48) as u8) as char } else { ((n + 87) as u8) as char }
}

/// One character in a JSON string.
pub open spec fn escaped_char(c: char) -> Seq<char> {
    if c == '"' {
        "\\\""@
    } else if c == '\\' {
        "\\\\"@
    } else if c == '\n' {
        "\\n"@
    } else if c == '\r' {
        "\\r"@
    } else if c == '\t' {
        "\\t"@
    } else if (c as u32) < 32 {
        "\\u00"@ + seq![hex_digit((c as u32) / 16), hex_digit((c as u32) % 16)]
    } else {
        seq![c]
    }
}

fn push_escaped_char(out: &mut String, c: char)
    ensures
        final(out)@ == old(out)@ + escaped_char(c),
{
    if c == '"' {
        push_str(out, "\\\"");
    } else if c == '\\' {
        push_str(out, "\\\\");
    } else if c == '\n' {
        push_str(out, "\\n");
    } else if c == '\r' {
        push_str(out, "\\r");
    } else if c == '\t' {
        push_str(out, "\\t");
    } else if (c as u32) < 32 {
        push_str(out, "\\u00");
        let n = c as u32;
        let hi = n / 16;
        let lo = n % 16;
        push_char(out, if hi < 10 { ((hi + 48) as u8) as char } else { ((hi + 87) as u8) as char });
        push_char(out, if lo < 10 { ((lo + 48) as u8) as char } else { ((lo + 87) as u8) as char });
        assert(out@ =~= old(out)@ + escaped_char(c));
    } else {
        push_char(out, c);
    }
}

fn push_json_string(out: &mut String, s: &str)
    ensures
        final(out)@ == old(out)@ + json_string(s@),
{
    push_str(out, "\"");
    let n = s.unicode_len();
    let mut i: usize = 0;
    while i < n
        invariant
            n == s@.len(),
            0 <= i <= n,
            out@ == old(out)@ + "\""@ + escaped(s@.subrange(0, i as int)),
        decreases n - i,
    {
        let ghost before = out@;
        push_escaped_char(out, s.get_char(i));
        assert(s@.subrange(0, i + 1).drop_last() =~= s@.subrange(0, i as int));
        i = i + 1;
        assert(out@ =~= old(out)@ + "\""@ + escaped(s@.subrange(0, i as int)));
    }
    assert(s@.subrange(0, n as int) =~= s@);
    push_str(out, "\"");
    assert(out@ =~= old(out)@ + json_string(s@));
}

/// The JSON members of a component, without the braces.
pub open spec fn json_members(c: Component) -> Seq<char>
    decreases c,
{
    match c {
        Component::Literal(text) => "\"text\":"@ + json_string(text@),
        Component::Translatable { key, args } => "\"translate\":"@ + json_string(key@) + if args@.len() == 0 {
            Seq::<char>::empty()
        } else {
            ",\"with\":["@ + json_args(args@) + "]"@
        },
        Component::Styled(inner, style) => json_members(*inner) + match style.color {
            Some(color) => ",\"color\":"@ + json_string(color_name(color)),
            None => Seq::<char>::empty(),
        },
    }
}

/// The JSON values of arguments, separated by commas.
pub open spec fn json_args(args: Seq<ComponentArgument>) -> Seq<char>
    decreases args,
{
    if args.len() == 0 {
        seq![]
    } else {
        let rest = json_args(args.drop_last());
        (if args.len() == 1 { rest } else { rest + ","@ }) + json_arg(args.last())
    }
}

pub open spec fn json_arg(a: ComponentArgument) -> Seq<char>
    decreases a,
{
    match a {
        ComponentArgument::String(s) => json_string(s@),
        ComponentArgument::Number(n) => decimal(n as int),
        ComponentArgument::Component(c) => "{"@ + json_members(*c) + "}"@,
    }
}

/// The text of a translation pattern with each `%s` replaced by the next
/// argument; a `%s` with no argument left stays as it is.
pub open spec fn substituted(pattern: Seq<char>, args: Seq<Seq<char>>) -> Seq<char>
    decreases pattern.len(),
{
    if pattern.len() == 0 {
        seq![]
    } else if pattern.len() >= 2 && pattern[0] == '%' && pattern[1] == 's' && args.len() > 0 {
        args[0] + substituted(pattern.subrange(2, pattern.len() as int), args.drop_first())
    } else {
        seq![pattern[0]] + substituted(pattern.drop_first(), args)
    }
}

/// Translation patterns by key.
pub struct TranslationTable {
    patterns: StrMap<String>,
}

impl TranslationTable {
    pub closed spec fn patterns_view(&self) -> StrMap<String> {
        self.patterns
    }

    /// The table with the pattern for the key.
    pub fn with(self, key: &str, pattern: &str) -> (r: Self)
        ensures
            forall|k: Seq<char>| #[trigger] r.patterns_view().lookup(k) == if k == key@ {
                r.patterns_view().lookup(key@)
            } else {
                self.patterns_view().lookup(k)
            },
            r.patterns_view().lookup(key@) matches Some(p) && p@ == pattern@,
    {
        let mut patterns = self.patterns;
        patterns.insert(key.to_owned(), pattern.to_owned());
        TranslationTable { patterns }
    }
}

impl Default for TranslationTable {
    fn default() -> (r: Self)
        ensures
            r.patterns_view().entries().len() == 0,
    {
        TranslationTable { patterns: StrMap::new() }
    }
}

/// What resolving a component may draw on; plain rendering needs nothing
/// from it.
#[derive(Debug, Clone, Default, PartialEq, Eq)]
pub struct ResolutionContext;

/// The plain text of a component: literal text, or the key's pattern (the
/// key itself when the table has none) with the arguments substituted.
pub open spec fn plain(c: Component, table: TranslationTable) -> Seq<char>
    decreases c,
{
    match c {
        Component::Literal(text) => text@,
        Component::Translatable { key, args } => substituted(
            match table.patterns_view().lookup(key@) {
                Some(p) => p@,
                None => key@,
            },
            plain_args(args@, table),
        ),
        Component::Styled(inner, _) => plain(*inner, table),
    }
}

pub open spec fn plain_args(args: Seq<ComponentArgument>, table: TranslationTable) -> Seq<Seq<char>>
    decreases args,
{
    if args.len() == 0 {
        seq![]
    } else {
        plain_args(args.drop_last(), table).push(plain_arg(args.last(), table))
    }
}

pub open spec fn plain_arg(a: ComponentArgument, table: TranslationTable) -> Seq<char>
    decreases a,
{
    match a {
        ComponentArgument::String(s) => s@,
        ComponentArgument::Number(n) => decimal(n as int),
        ComponentArgument::Component(c) => plain(*c, table),
    }
}

impl Component {
    /// The text that `get_string` gives: the literal text, or the translation
    /// key itself (no translation table is loaded).
    pub open spec fn string_view(&self) -> Seq<char>
        decreases self,
    {
        match self {
            Component::Literal(s) => s@,
            Component::Translatable { key, .. } => key@,
            Component::Styled(inner, _) => inner.string_view(),
        }
    }

    pub fn literal(text: &str) -> (r: Self)
        ensures
            r.string_view() == text@,
            r matches Component::Literal(t) && t@ == text@,
    {
        Component::Literal(text.to_owned())
    }

    pub fn translatable(key: String, args: Vec<ComponentArgument>) -> (r: Self)
        ensures
            r == (Component::Translatable { key, args }),
    {
        Component::Translatable { key, args }
    }

    /// The component with the style's color, where it has one.
    pub fn styled(self, style: Style) -> (r: Self)
        ensures
            match self {
                Component::Styled(inner, old_style) => r == Component::Styled(
                    inner,
                    Style { color: if style.color is Some { style.color } else { old_style.color } },
                ),
                _ => r == Component::Styled(Box::new(self), style),
            },
    {
        match self {
            Component::Styled(inner, old_style) => {
                let color = match style.color {
                    Some(c) => Some(c),
                    None => old_style.color,
                };
                Component::Styled(inner, Style { color })
            },
            other => Component::Styled(Box::new(other), style),
        }
    }

    pub fn get_string(&self) -> (r: String)
        ensures
            r@ == self.string_view(),
        decreases self,
    {
        match self {
            Component::Literal(s) => s.clone(),
            Component::Translatable { key, .. } => key.clone(),
            Component::Styled(inner, _) => inner.get_string(),
        }
    }
}

fn substitute(pattern: &str, args: &Vec<String>) -> (r: String)
    ensures
        r@ == substituted(pattern@, args@.map_values(|a: String| a@)),
{
    let ghost all = args@.map_values(|a: String| a@);
    let n = pattern.unicode_len();
    let m = args.len();
    let mut out = String::new();
    let mut i: usize = 0;
    let mut j: usize = 0;
    assert(pattern@.subrange(0, n as int) =~= pattern@);
    assert(all.subrange(0, m as int) =~= all);
    assert(out@ + substituted(pattern@, all) =~= substituted(pattern@, all));
    while i < n
        invariant
            n == pattern@.len(),
            m == all.len(),
            0 <= i <= n,
            0 <= j <= m,
            all == args@.map_values(|a: String| a@),
            out@ + substituted(pattern@.subrange(i as int, n as int), all.subrange(j as int, m as int)) == substituted(pattern@, all),
        decreases n - i,
    {
        let ghost rest = pattern@.subrange(i as int, n as int);
        let ghost left = all.subrange(j as int, m as int);
        let c = pattern.get_char(i);
        if c == '%' && i + 1 < n && pattern.get_char(i + 1) == 's' && j < m {
            assert(rest[0] == '%' && rest[1] == 's');
            assert(rest.subrange(2, rest.len() as int) =~= pattern@.subrange(i + 2, n as int));
            assert(left.drop_first() =~= all.subrange(j + 1, m as int));
            assert(left[0] == args@[j as int]@);
            let ghost before = out@;
            push_str(&mut out, args[j].as_str());
            assert(before + (left[0] + substituted(rest.subrange(2, rest.len() as int), left.drop_first()))
                =~= out@ + substituted(pattern@.subrange(i + 2, n as int), all.subrange(j + 1, m as int)));
            i = i + 2;
            j = j + 1;
        } else {
            assert(rest.drop_first() =~= pattern@.subrange(i + 1, n as int));
            let ghost before = out@;
            push_char(&mut out, c);
            assert(before + (seq![rest[0]] + substituted(rest.drop_first(), left))
                =~= out@ + substituted(pattern@.subrange(i + 1, n as int), left));
            i = i + 1;
        }
    }
    assert(out@ + Seq::<char>::empty() =~= out@);
    out
}

impl Component {
    fn push_members(&self, out: &mut String)
        ensures
            final(out)@ == old(out)@ + json_members(*self),
        decreases self,
    {
        match self {
            Component::Literal(text) => {
                push_str(out, "\"text\":");
                push_json_string(out, text.as_str());
                assert(out@ =~= old(out)@ + json_members(*self));
            },
            Component::Translatable { key, args } => {
                push_str(out, "\"translate\":");
                push_json_string(out, key.as_str());
                if args.len() > 0 {
                    push_str(out, ",\"with\":[");
                    let ghost base = out@;
                    let mut i: usize = 0;
                    while i < args.len()
                        invariant
                            0 <= i <= args@.len(),
                            out@ == base + json_args(args@.subrange(0, i as int)),
                        decreases args@.len() - i,
                    {
                        let arg = &args[i];
                        assert(args@.subrange(0, i + 1).drop_last() =~= args@.subrange(0, i as int));
                        assert(args@.subrange(0, i + 1).last() == args@[i as int]);
                        let ghost before = out@;
                        if i > 0 {
                            push_str(out, ",");
                        }
                        match arg {
                            ComponentArgument::String(s) => push_json_string(out, s.as_str()),
                            ComponentArgument::Number(n) => {
                                let t = i64_to_string(*n as i64);
                                push_str(out, t.as_str());
                            },
                            ComponentArgument::Component(c) => {
                                assert(decreases_to!(self => *arg));
                                push_str(out, "{");
                                c.push_members(out);
                                push_str(out, "}");
                            },
                        }
                        assert(out@ =~= before + (if i > 0 { ","@ } else { Seq::<char>::empty() }) + json_arg(args@[i as int]));
                        i = i + 1;
                        assert(out@ =~= base + json_args(args@.subrange(0, i as int)));
                    }
                    assert(args@.subrange(0, args@.len() as int) =~= args@);
                    push_str(out, "]");
                }
                assert(out@ =~= old(out)@ + json_members(*self));
            },
            Component::Styled(inner, style) => {
                inner.push_members(out);
                match style.color {
                    Some(color) => {
                        push_str(out, ",\"color\":");
                        push_json_string(out, color.name());
                    },
                    None => {},
                }
                assert(out@ =~= old(out)@ + json_members(*self));
            },
        }
    }

    /// The component as JSON text.
    pub fn to_json(&self) -> (r: String)
        ensures
            r@ == "{"@ + json_members(*self) + "}"@,
    {
        let mut out = "{".to_owned();
        self.push_members(&mut out);
        push_str(&mut out, "}");
        out
    }

    /// The component as plain text, translated with the table.
    pub fn render_plain(&self, table: &TranslationTable, context: &ResolutionContext) -> (r: String)
        ensures
            r@ == plain(*self, *table),
        decreases self,
    {
        match self {
            Component::Literal(text) => text.clone(),
            Component::Translatable { key, args } => {
                let pattern = match table.patterns.get(key.as_str()) {
                    Some(p) => p.clone(),
                    None => key.clone(),
                };
                let mut rendered: Vec<String> = Vec::new();
                let mut i: usize = 0;
                while i < args.len()
                    invariant
                        0 <= i <= args@.len(),
                        rendered@.map_values(|a: String| a@) == plain_args(args@.subrange(0, i as int), *table),
                    decreases args@.len() - i,
                {
                    let arg = &args[i];
                    assert(args@.subrange(0, i + 1).drop_last() =~= args@.subrange(0, i as int));
                    assert(args@.subrange(0, i + 1).last() == args@[i as int]);
                    let text = match arg {
                        ComponentArgument::String(s) => s.clone(),
                        ComponentArgument::Number(n) => i64_to_string(*n as i64),
                        ComponentArgument::Component(c) => {
                            assert(decreases_to!(self => *arg));
                            c.render_plain(table, context)
                        },
                    };
                    let ghost before = rendered@;
                    assert(text@ == plain_arg(args@[i as int], *table));
                    rendered.push(text);
                    assert(rendered@.map_values(|a: String| a@) =~= before.map_values(|a: String| a@).push(text@));
                    i = i + 1;
                }
                assert(args@.subrange(0, args@.len() as int) =~= args@);
                substitute(pattern.as_str(), &rendered)
            },
            Component::Styled(inner, _) => inner.render_plain(table, context),
        }
    }
}

/// The value of a component: its texts as characters.
pub enum ComponentView {
    Literal(Seq<char>),
    Translatable(Seq<char>, Seq<ArgView>),
    Styled(Box<ComponentView>, Style),
}

/// The value of a component argument.
pub enum ArgView {
    String(Seq<char>),
    Number(i32),
    Component(Box<ComponentView>),
}

impl Component {
    pub open spec fn deep(&self) -> ComponentView
        decreases self,
    {
        match self {
            Component::Literal(text) => ComponentView::Literal(text@),
            Component::Translatable { key, args } => ComponentView::Translatable(key@, args_view(args@)),
            Component::Styled(inner, style) => ComponentView::Styled(Box::new(inner.deep()), *style),
        }
    }
}

pub open spec fn args_view(args: Seq<ComponentArgument>) -> Seq<ArgView>
    decreases args,
{
    if args.len() == 0 {
        seq![]
    } else {
        args_view(args.drop_last()).push(arg_view(args.last()))
    }
}

pub open spec fn arg_view(a: ComponentArgument) -> ArgView
    decreases a,
{
    match a {
        ComponentArgument::String(s) => ArgView::String(s@),
        ComponentArgument::Number(n) => ArgView::Number(n),
        ComponentArgument::Component(c) => ArgView::Component(Box::new(c.deep())),
    }
}

pub proof fn lemma_args_view(args: Seq<ComponentArgument>)
    ensures
        args_view(args).len() == args.len(),
        forall|i: int| 0 <= i < args.len() ==> #[trigger] args_view(args)[i] == arg_view(args[i]),
    decreases args.len(),
{
    if args.len() > 0 {
        lemma_args_view(args.drop_last());
        assert forall|i: int| 0 <= i < args.len() implies #[trigger] args_view(args)[i] == arg_view(args[i]) by {
            if i < args.len() - 1 {
                assert(args.drop_last()[i] == args[i]);
            }
        }
    }
}

impl ComponentArgument {
    /// A copy of the argument with the same value.
    pub fn copy(&self) -> (r: Self)
        ensures
            arg_view(r) == arg_view(*self),
    {
        match self {
            ComponentArgument::String(s) => ComponentArgument::String(s.clone()),
            ComponentArgument::Number(n) => ComponentArgument::Number(*n),
            ComponentArgument::Component(c) => ComponentArgument::Component(Box::new(c.copy())),
        }
    }
}

impl Component {
    /// A copy of the component with the same value.
    pub fn copy(&self) -> (r: Self)
        ensures
            r.deep() == self.deep(),
        decreases self,
    {
        match self {
            Component::Literal(text) => Component::Literal(text.clone()),
            Component::Translatable { key, args } => {
                let mut out: Vec<ComponentArgument> = Vec::new();
                let mut i: usize = 0;
                while i < args.len()
                    invariant
                        0 <= i <= args@.len(),
                        out@.len() == i,
                        forall|k: int| 0 <= k < i ==> arg_view(#[trigger] out@[k]) == arg_view(args@[k]),
                    decreases args@.len() - i,
                {
                    let arg = &args[i];
                    let copied = match arg {
                        ComponentArgument::String(s) => ComponentArgument::String(s.clone()),
                        ComponentArgument::Number(n) => ComponentArgument::Number(*n),
                        ComponentArgument::Component(c) => {
                            assert(decreases_to!(self => *arg));
                            ComponentArgument::Component(Box::new(c.copy()))
                        },
                    };
                    out.push(copied);
                    i = i + 1;
                }
                proof {
                    lemma_args_view(out@);
                    lemma_args_view(args@);
                    assert(args_view(out@) =~= args_view(args@));
                }
                Component::Translatable { key: key.clone(), args: out }
            },
            Component::Styled(inner, style) => Component::Styled(Box::new(inner.copy()), *style),
        }
    }
}

impl Clone for Component {
    fn clone(&self) -> (r: Self)
        ensures
            r.deep() == self.deep(),
    {
        self.copy()
    }
}

impl Clone for ComponentArgument {
    fn clone(&self) -> (r: Self)
        ensures
            arg_view(r) == arg_view(*self),
    {
        match self {
            ComponentArgument::String(s) => ComponentArgument::String(s.clone()),
            ComponentArgument::Number(n) => ComponentArgument::Number(*n),
            ComponentArgument::Component(c) => ComponentArgument::Component(Box::new(c.copy())),
        }
    }
}

} // verus!
