//! Suggestion lists for command arguments: a builder over the text that
//! remains to be completed, and the shared matching rule that offers a
//! candidate when the typed text starts it or starts one of its parts after
//! a `.`, `_` or `/`, ignoring ASCII case.

use vstd::prelude::*;
use vstd::string::*;
use crate::text::{utf8, bytes_of};
use crate::command_identifier_argument::CommandIdentifierModel;

verus! {

#[derive(Debug, Clone, PartialEq, Eq)]
pub struct SuggestionModel {
    pub value: String,
    pub tooltip: Option<String>,
}

pub struct SuggestionsBuilderModel {
    remaining: String,
    suggestions: Vec<SuggestionModel>,
}

/// ASCII lower-casing of UTF-8 bytes.
pub open spec fn ascii_lower_byte(b: u8) -> u8 {
    if 65 <= b <= 90 { (b + 32) as u8 } else { b }
}

pub open spec fn ascii_lower(s: Seq<u8>) -> Seq<u8> {
    s.map_values(|b: u8| ascii_lower_byte(b))
}

pub open spec fn is_splitter(b: u8) -> bool {
    b == 46 || b == 95 || b == 47
}

/// `input` holds `pattern` starting at byte `i`.
pub open spec fn starts_at(input: Seq<u8>, pattern: Seq<u8>, i: int) -> bool {
    &&& 0 <= i
    &&& i + pattern.len() <= input.len()
    &&& input.subrange(i, i + pattern.len()) == pattern
}

/// `pattern` starts `input`, or starts the part of `input` after some splitter.
pub open spec fn matches_sub_str_spec(pattern: Seq<u8>, input: Seq<u8>) -> bool {
    ||| starts_at(input, pattern, 0)
    ||| exists|j: int| 0 <= j < input.len() && is_splitter(input[j]) && #[trigger] starts_at(input, pattern, j + 1)
}

/// The values that the shared rule offers for the typed text `remaining`, in order.
pub open spec fn offered(values: Seq<Seq<char>>, remaining: Seq<char>) -> Seq<Seq<char>>
    decreases values.len(),
{
    if values.len() == 0 {
        seq![]
    } else {
        let rest = offered(values.drop_last(), remaining);
        if matches_sub_str_spec(ascii_lower(utf8(remaining)), ascii_lower(utf8(values.last()))) {
            rest.push(values.last())
        } else {
            rest
        }
    }
}

pub fn lower_bytes(s: &str) -> (r: Vec<u8>)
    ensures
        r@ == ascii_lower(s.spec_bytes()),
{
    let b = s.as_bytes();
    let mut out: Vec<u8> = Vec::new();
    let mut i: usize = 0;
    while i < b.len()
        invariant
            b@ == s.spec_bytes(),
            0 <= i <= b@.len(),
            out@ =~= ascii_lower(b@.subrange(0, i as int)),
        decreases b@.len() - i,
    {
        let x = b[i];
        let y = if 65 <= x && x <= 90 { x + 32 } else { x };
        out.push(y);
        i = i + 1;
        assert(out@ =~= ascii_lower(b@.subrange(0, i as int)));
    }
    assert(b@.subrange(0, b@.len() as int) =~= b@);
    out
}

fn starts_at_exec(input: &Vec<u8>, pattern: &Vec<u8>, i: usize) -> (r: bool)
    ensures
        r == starts_at(input@, pattern@, i as int),
{
    if pattern.len() > input.len() || i > input.len() - pattern.len() {
        return false;
    }
    let n = input.len();
    let mut k: usize = 0;
    while k < pattern.len()
        invariant
            n == input@.len(),
            i + pattern@.len() <= input@.len(),
            0 <= k <= pattern@.len(),
            forall|j: int| 0 <= j < k ==> input@[i + j] == pattern@[j],
        decreases pattern@.len() - k,
    {
        if input[i + k] != pattern[k] {
            assert(input@.subrange(i as int, i + pattern@.len())[k as int] != pattern@[k as int]);
            return false;
        }
        k = k + 1;
    }
    assert(input@.subrange(i as int, i + pattern@.len()) =~= pattern@);
    true
}

/// The shared substring rule on byte strings.
pub fn matches_sub_str(pattern: &Vec<u8>, input: &Vec<u8>) -> (r: bool)
    ensures
        r == matches_sub_str_spec(pattern@, input@),
{
    if starts_at_exec(input, pattern, 0) {
        return true;
    }
    let mut j: usize = 0;
    while j < input.len()
        invariant
            0 <= j <= input@.len(),
            !starts_at(input@, pattern@, 0),
            forall|k: int| 0 <= k < j && is_splitter(input@[k]) ==> !starts_at(input@, pattern@, k + 1),
        decreases input@.len() - j,
    {
        let c = input[j];
        if c == 46 || c == 95 || c == 47 {
            if starts_at_exec(input, pattern, j + 1) {
                return true;
            }
        }
        j = j + 1;
    }
    false
}

impl SuggestionsBuilderModel {
    /// The text that remains to be completed.
    pub closed spec fn remaining_view(&self) -> Seq<char> {
        self.remaining@
    }

    /// The values suggested so far, in order.
    pub closed spec fn values(&self) -> Seq<Seq<char>> {
        self.suggestions@.map_values(|s: SuggestionModel| s.value@)
    }

    /// Every suggestion so far has no tooltip.
    pub closed spec fn plain(&self) -> bool {
        forall|i: int| 0 <= i < self.suggestions@.len() ==> (#[trigger] self.suggestions@[i]).tooltip is None
    }

    pub fn new(remaining: &str) -> (r: Self)
        ensures
            r.remaining_view() == remaining@,
            r.values() == Seq::<Seq<char>>::empty(),
            r.plain(),
    {
        SuggestionsBuilderModel { remaining: remaining.to_owned(), suggestions: Vec::new() }
    }

    pub fn remaining(&self) -> (r: &str)
        ensures
            r@ == self.remaining_view(),
    {
        self.remaining.as_str()
    }

    /// Adds a suggestion without tooltip.
    pub fn suggest(&mut self, text: String)
        ensures
            final(self).remaining_view() == old(self).remaining_view(),
            final(self).values() == old(self).values().push(text@),
            old(self).plain() ==> final(self).plain(),
    {
        self.suggestions.push(SuggestionModel { value: text, tooltip: None });
        assert(self.values() =~= old(self).values().push(text@));
    }

    /// The suggestions built so far; the builder is left as it was.
    pub fn build(&self) -> (r: Vec<SuggestionModel>)
        ensures
            r@.map_values(|s: SuggestionModel| s.value@) == self.values(),
            self.plain() ==> forall|i: int| 0 <= i < r@.len() ==> (#[trigger] r@[i]).tooltip is None,
    {
        let mut out: Vec<SuggestionModel> = Vec::new();
        let mut i: usize = 0;
        while i < self.suggestions.len()
            invariant
                0 <= i <= self.suggestions@.len(),
                out@.len() == i,
                forall|k: int| 0 <= k < i ==> (#[trigger] out@[k]).value@ == self.suggestions@[k].value@,
                self.plain() ==> forall|k: int| 0 <= k < i ==> (#[trigger] out@[k]).tooltip is None,
            decreases self.suggestions@.len() - i,
        {
            let s = &self.suggestions[i];
            out.push(SuggestionModel { value: s.value.clone(), tooltip: None });
            proof {
                if !self.plain() {
                }
            }
            i = i + 1;
        }
        assert(out@.map_values(|s: SuggestionModel| s.value@) =~= self.values());
        out
    }
}

/// Offers each value that the shared rule matches against the builder's remaining text.
pub fn suggest(values: Vec<String>, builder: &mut SuggestionsBuilderModel)
    ensures
        final(builder).remaining_view() == old(builder).remaining_view(),
        final(builder).values() == old(builder).values() + offered(
            values@.map_values(|v: String| v@),
            old(builder).remaining_view(),
        ),
        old(builder).plain() ==> final(builder).plain(),
{
    let pattern = lower_bytes(builder.remaining());
    let ghost vs = values@.map_values(|v: String| v@);
    let mut i: usize = 0;
    while i < values.len()
        invariant
            0 <= i <= values@.len(),
            vs == values@.map_values(|v: String| v@),
            pattern@ == ascii_lower(utf8(old(builder).remaining_view())),
            builder.remaining_view() == old(builder).remaining_view(),
            builder.values() == old(builder).values() + offered(vs.subrange(0, i as int), old(builder).remaining_view()),
            old(builder).plain() ==> builder.plain(),
        decreases values@.len() - i,
    {
        let v = &values[i];
        let lowered = lower_bytes(v.as_str());
        let ok = matches_sub_str(&pattern, &lowered);
        assert(vs.subrange(0, i + 1).drop_last() =~= vs.subrange(0, i as int));
        if ok {
            builder.suggest(v.clone());
        }
        i = i + 1;
    }
    assert(vs.subrange(0, values@.len() as int) =~= vs);
}


/// Lower-cased typed bytes match an identifier given by its namespace and
/// path: against the whole `namespace:path` when they hold a colon, else
/// against the namespace or the path.
pub open spec fn resource_bytes_match(contents: Seq<u8>, ns: Seq<char>, path: Seq<char>) -> bool {
    if contents.contains(58u8) {
        matches_sub_str_spec(contents, utf8(ns + ":"@ + path))
    } else {
        matches_sub_str_spec(contents, utf8(ns)) || matches_sub_str_spec(contents, utf8(path))
    }
}

/// The typed text matches an identifier given by its namespace and path.
pub open spec fn resource_text_matches(remaining: Seq<char>, ns: Seq<char>, path: Seq<char>) -> bool {
    resource_bytes_match(ascii_lower(utf8(remaining)), ns, path)
}

fn holds_colon(contents: &Vec<u8>) -> (r: bool)
    ensures
        r == contents@.contains(58u8),
{
    let mut j: usize = 0;
    while j < contents.len()
        invariant
            0 <= j <= contents@.len(),
            forall|k: int| 0 <= k < j ==> contents@[k] != 58u8,
        decreases contents@.len() - j,
    {
        if contents[j] == 58 {
            return true;
        }
        j = j + 1;
    }
    false
}

/// The matching rule of resource suggestions on lower-cased typed bytes.
pub fn resource_matches(contents: &Vec<u8>, id: &CommandIdentifierModel) -> (r: bool)
    ensures
        r == resource_bytes_match(contents@, id.namespace_view(), id.path_view()),
{
    if holds_colon(contents) {
        let full = id.to_string();
        matches_sub_str(contents, &bytes_of(full.as_str()))
    } else {
        matches_sub_str(contents, &bytes_of(id.namespace())) || matches_sub_str(contents, &bytes_of(id.path()))
    }
}

/// The `namespace:path` texts offered for the typed text, in order.
pub open spec fn resources_offered(ids: Seq<(Seq<char>, Seq<char>)>, remaining: Seq<char>) -> Seq<Seq<char>>
    decreases ids.len(),
{
    if ids.len() == 0 {
        seq![]
    } else {
        let rest = resources_offered(ids.drop_last(), remaining);
        let (ns, path) = ids.last();
        if resource_text_matches(remaining, ns, path) { rest.push(ns + ":"@ + path) } else { rest }
    }
}

/// The namespace and path of each identifier.
pub open spec fn id_parts(ids: Seq<CommandIdentifierModel>) -> Seq<(Seq<char>, Seq<char>)> {
    ids.map_values(|i: CommandIdentifierModel| (i.namespace_view(), i.path_view()))
}

/// `suggestResource`: the identifiers that the typed text matches, as texts.
pub fn suggest_identifiers(ids: &Vec<CommandIdentifierModel>, remaining: &str) -> (r: Vec<String>)
    ensures
        r@.map_values(|s: String| s@) == resources_offered(id_parts(ids@), remaining@),
{
    let contents = lower_bytes(remaining);
    let ghost parts = id_parts(ids@);
    let mut out: Vec<String> = Vec::new();
    let mut i: usize = 0;
    while i < ids.len()
        invariant
            0 <= i <= ids@.len(),
            parts == id_parts(ids@),
            contents@ == ascii_lower(utf8(remaining@)),
            out@.map_values(|s: String| s@) == resources_offered(parts.subrange(0, i as int), remaining@),
        decreases ids@.len() - i,
    {
        let id = &ids[i];
        assert(parts.subrange(0, i + 1).drop_last() =~= parts.subrange(0, i as int));
        assert(parts.subrange(0, i + 1).last() == (id.namespace_view(), id.path_view()));
        if resource_matches(&contents, id) {
            let s = id.to_string();
            let ghost before = out@;
            out.push(s);
            assert(out@.map_values(|s: String| s@) =~= before.map_values(|s: String| s@).push(s@));
        }
        i = i + 1;
    }
    assert(parts.subrange(0, ids@.len() as int) =~= parts);
    out
}

} // verus!
