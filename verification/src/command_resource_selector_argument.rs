//! The `resource_selector` argument: a pattern with `*` and `?` wildcards
//! (in the default namespace unless it names one) that selects the
//! elements of a registry whose identifiers it matches.

use vstd::prelude::*;
use vstd::string::StringSliceAdditionalSpecFns;
use crate::text::{utf8, push_str};
use crate::search::{scan_end, first_index_from, lemma_first_index_from};
use crate::string_reader::{lemma_cut_at_ascii, lemma_cut_after_ascii, advanced};
use crate::command_identifier_argument::{CommandIdentifierModel, parse_identifier};
use crate::command_shared_suggestion_provider::{suggest_identifiers, resources_offered, id_parts};
use crate::arg_map::ArgMap;
pub use crate::string_reader::StringReaderModel;

verus! {

broadcast use vstd::utf8::encode_utf8_decode_utf8, vstd::utf8::encode_utf8_valid_utf8;

/// Whether the first `i` bytes of the input match the first `j` bytes of
/// the pattern, where `*` matches any run of bytes and `?` any one byte.
pub open spec fn wildcard_prefix(input: Seq<u8>, pattern: Seq<u8>, i: int, j: int) -> bool
    decreases i + j,
{
    if i < 0 || j < 0 {
        false
    } else if j == 0 {
        i == 0
    } else if pattern[j - 1] == 42u8 {
        wildcard_prefix(input, pattern, i, j - 1) || (i > 0 && wildcard_prefix(input, pattern, i - 1, j))
    } else if i == 0 {
        false
    } else if pattern[j - 1] == 63u8 {
        wildcard_prefix(input, pattern, i - 1, j - 1)
    } else {
        pattern[j - 1] == input[i - 1] && wildcard_prefix(input, pattern, i - 1, j - 1)
    }
}

/// Whether the whole input matches the whole pattern.
pub open spec fn wildcard_matches(input: Seq<u8>, pattern: Seq<u8>) -> bool {
    wildcard_prefix(input, pattern, input.len() as int, pattern.len() as int)
}

/// Matches the input against the pattern, row by row over the input.
pub fn wildcard_match(input: &str, pattern: &str) -> (r: bool)
    ensures
        r == wildcard_matches(input.spec_bytes(), pattern.spec_bytes()),
{
    let a = input.as_bytes();
    let p = pattern.as_bytes();
    let ghost iv = a@;
    let ghost pv = p@;
    let n = a.len();
    let m = p.len();
    let mut prev: Vec<bool> = Vec::new();
    prev.push(true);
    let mut j: usize = 0;
    while j < m
        invariant
            0 <= j <= m,
            m == pv.len(),
            prev@.len() == j + 1,
            forall|k: int| 0 <= k <= j ==> prev@[k] == wildcard_prefix(iv, pv, 0, k),
        decreases m - j,
    {
        let v = p[j] == 42 && prev[j];
        prev.push(v);
        j = j + 1;
    }
    let mut i: usize = 0;
    while i < n
        invariant
            0 <= i <= n,
            n == iv.len(),
            m == pv.len(),
            iv == a@,
            pv == p@,
            prev@.len() == m + 1,
            forall|k: int| 0 <= k <= m ==> prev@[k] == wildcard_prefix(iv, pv, i as int, k),
        decreases n - i,
    {
        let mut cur: Vec<bool> = Vec::new();
        cur.push(false);
        let mut j: usize = 0;
        while j < m
            invariant
                0 <= i < n,
                0 <= j <= m,
                n == iv.len(),
                m == pv.len(),
                iv == a@,
                pv == p@,
                prev@.len() == m + 1,
                forall|k: int| 0 <= k <= m ==> prev@[k] == wildcard_prefix(iv, pv, i as int, k),
                cur@.len() == j + 1,
                forall|k: int| 0 <= k <= j ==> cur@[k] == wildcard_prefix(iv, pv, i + 1, k),
            decreases m - j,
        {
            let c = p[j];
            let v = if c == 42 {
                cur[j] || prev[j + 1]
            } else if c == 63 {
                prev[j]
            } else {
                c == a[i] && prev[j]
            };
            cur.push(v);
            j = j + 1;
        }
        prev = cur;
        i = i + 1;
    }
    prev[m]
}

/// Bytes of a selector pattern: ASCII digits and lower-case letters, `_`,
/// `:`, `/`, `.`, `-`, `*` and `?`.
pub open spec fn pattern_byte(b: u8) -> bool {
    (48 <= b <= 57) || (97 <= b <= 122) || b == 95 || b == 58 || b == 47 || b == 46 || b == 45 || b == 42 || b == 63
}

pub open spec fn pattern_stops() -> spec_fn(u8) -> bool {
    |b: u8| !pattern_byte(b)
}

/// The pattern in the default namespace unless it names one.
pub open spec fn namespaced(t: Seq<char>) -> Seq<char> {
    if t.contains(':') { t } else { "minecraft:"@ + t }
}

/// A registry key: the registry and the element's identifier.
#[derive(Debug, PartialEq, Eq)]
pub struct ResourceKeyModel {
    registry: CommandIdentifierModel,
    identifier: CommandIdentifierModel,
}

/// An element of a registry, by its key.
#[derive(Debug, PartialEq, Eq)]
pub struct HolderReferenceModel {
    pub key: ResourceKeyModel,
}

/// The elements of a registry, in order.
#[derive(Debug, Default, PartialEq, Eq)]
pub struct HolderLookupModel {
    elements: Vec<HolderReferenceModel>,
}

/// The value of an element: its registry and identifier as `namespace:path`.
pub open spec fn holder_view(h: HolderReferenceModel) -> (Seq<char>, Seq<char>) {
    (h.key.registry_view().display(), h.key.identifier_view().display())
}

pub open spec fn holders_view(hs: Seq<HolderReferenceModel>) -> Seq<(Seq<char>, Seq<char>)> {
    hs.map_values(|h: HolderReferenceModel| holder_view(h))
}

/// The elements whose identifiers the pattern matches, in order.
pub open spec fn matching(hs: Seq<(Seq<char>, Seq<char>)>, pattern: Seq<char>) -> Seq<(Seq<char>, Seq<char>)>
    decreases hs.len(),
{
    if hs.len() == 0 {
        seq![]
    } else {
        let rest = matching(hs.drop_last(), pattern);
        if wildcard_matches(utf8(hs.last().1), utf8(pattern)) { rest.push(hs.last()) } else { rest }
    }
}

impl ResourceKeyModel {
    pub closed spec fn registry_view(&self) -> CommandIdentifierModel {
        self.registry
    }

    pub closed spec fn identifier_view(&self) -> CommandIdentifierModel {
        self.identifier
    }

    /// The key of the element in the registry, both given as identifier text.
    pub fn create(registry: &str, identifier: &str) -> (r: Self)
        requires
            parse_identifier(registry.spec_bytes()) is Some,
            parse_identifier(identifier.spec_bytes()) is Some,
        ensures
            r.registry_view().parses_to(registry.spec_bytes()),
            r.identifier_view().parses_to(identifier.spec_bytes()),
    {
        let registry = match CommandIdentifierModel::parse(registry) {
            Ok(id) => id,
            Err(_) => CommandIdentifierModel::of("minecraft", ""),
        };
        let identifier = match CommandIdentifierModel::parse(identifier) {
            Ok(id) => id,
            Err(_) => CommandIdentifierModel::of("minecraft", ""),
        };
        ResourceKeyModel { registry, identifier }
    }

    pub fn registry(&self) -> (r: &CommandIdentifierModel)
        ensures
            *r == self.registry_view(),
    {
        &self.registry
    }

    pub fn identifier(&self) -> (r: &CommandIdentifierModel)
        ensures
            *r == self.identifier_view(),
    {
        &self.identifier
    }

    pub fn copy(&self) -> (r: Self)
        ensures
            r.registry_view().same(&self.registry_view()),
            r.identifier_view().same(&self.identifier_view()),
    {
        ResourceKeyModel { registry: self.registry.copy(), identifier: self.identifier.copy() }
    }
}

impl HolderReferenceModel {
    pub fn key(&self) -> (r: &ResourceKeyModel)
        ensures
            *r == self.key,
    {
        &self.key
    }

    pub fn copy(&self) -> (r: Self)
        ensures
            holder_view(r) == holder_view(*self),
            r.key.identifier_view().same(&self.key.identifier_view()),
            r.key.registry_view().same(&self.key.registry_view()),
    {
        HolderReferenceModel { key: self.key.copy() }
    }
}

impl Clone for HolderReferenceModel {
    fn clone(&self) -> (r: Self)
        ensures
            holder_view(r) == holder_view(*self),
    {
        self.copy()
    }
}

/// The identifier of each element.
pub open spec fn element_ids(hs: Seq<HolderReferenceModel>) -> Seq<CommandIdentifierModel> {
    hs.map_values(|h: HolderReferenceModel| h.key.identifier_view())
}

fn copy_holders(hs: &Vec<HolderReferenceModel>) -> (r: Vec<HolderReferenceModel>)
    ensures
        holders_view(r@) == holders_view(hs@),
        id_parts(element_ids(r@)) == id_parts(element_ids(hs@)),
{
    let mut out: Vec<HolderReferenceModel> = Vec::new();
    let mut i: usize = 0;
    while i < hs.len()
        invariant
            0 <= i <= hs@.len(),
            holders_view(out@) == holders_view(hs@).subrange(0, i as int),
            id_parts(element_ids(out@)) == id_parts(element_ids(hs@)).subrange(0, i as int),
        decreases hs@.len() - i,
    {
        out.push(hs[i].copy());
        i = i + 1;
        assert(holders_view(out@) =~= holders_view(hs@).subrange(0, i as int));
        assert(id_parts(element_ids(out@)) =~= id_parts(element_ids(hs@)).subrange(0, i as int));
    }
    assert(holders_view(hs@).subrange(0, hs@.len() as int) =~= holders_view(hs@));
    assert(id_parts(element_ids(hs@)).subrange(0, hs@.len() as int) =~= id_parts(element_ids(hs@)));
    out
}

impl HolderLookupModel {
    pub closed spec fn elements_view(&self) -> Seq<(Seq<char>, Seq<char>)> {
        holders_view(self.elements@)
    }

    /// The identifiers of the elements, in order.
    pub closed spec fn identifiers(&self) -> Seq<CommandIdentifierModel> {
        element_ids(self.elements@)
    }

    /// The registry of each element's key, in order.
    pub closed spec fn registries(&self) -> Seq<CommandIdentifierModel> {
        self.elements@.map_values(|h: HolderReferenceModel| h.key.registry_view())
    }

    /// The registry's elements, from identifier texts.
    fn from_elements(registry: &str, elements: &[&str]) -> (r: Self)
        requires
            parse_identifier(registry.spec_bytes()) is Some,
            forall|i: int| 0 <= i < elements@.len() ==> parse_identifier((#[trigger] elements@[i]).spec_bytes()) is Some,
        ensures
            r.identifiers().len() == elements@.len(),
            r.elements_view().len() == elements@.len(),
            forall|i: int| 0 <= i < elements@.len() ==> (#[trigger] r.identifiers()[i]).parses_to(elements@[i].spec_bytes()),
            forall|i: int| 0 <= i < elements@.len() ==> (#[trigger] r.registries()[i]).parses_to(registry.spec_bytes()),
    {
        let mut out: Vec<HolderReferenceModel> = Vec::new();
        let mut i: usize = 0;
        while i < elements.len()
            invariant
                0 <= i <= elements@.len(),
                parse_identifier(registry.spec_bytes()) is Some,
                forall|k: int| 0 <= k < elements@.len() ==> parse_identifier((#[trigger] elements@[k]).spec_bytes()) is Some,
                out@.len() == i,
                forall|k: int| 0 <= k < i ==> (#[trigger] out@[k]).key.identifier_view().parses_to(elements@[k].spec_bytes())
                    && out@[k].key.registry_view().parses_to(registry.spec_bytes()),
            decreases elements@.len() - i,
        {
            out.push(HolderReferenceModel { key: ResourceKeyModel::create(registry, elements[i]) });
            i = i + 1;
        }
        HolderLookupModel { elements: out }
    }

    pub fn copy(&self) -> (r: Self)
        ensures
            r.elements_view() == self.elements_view(),
            id_parts(r.identifiers()) == id_parts(self.identifiers()),
    {
        HolderLookupModel { elements: copy_holders(&self.elements) }
    }
}

impl Clone for HolderLookupModel {
    fn clone(&self) -> (r: Self)
        ensures
            r.elements_view() == self.elements_view(),
    {
        self.copy()
    }
}

/// Whether an entry is the registry's.
pub open spec fn for_registry(reg: CommandIdentifierModel) -> spec_fn((CommandIdentifierModel, HolderLookupModel)) -> bool {
    |e: (CommandIdentifierModel, HolderLookupModel)| e.0.same(&reg)
}

/// The elements of the registry: from its latest entry, or none.
pub open spec fn registry_elements(regs: Seq<(CommandIdentifierModel, HolderLookupModel)>, reg: CommandIdentifierModel)
    -> Seq<(Seq<char>, Seq<char>)>
{
    let i = crate::search::last_index(regs, for_registry(reg));
    if i >= 0 { regs[i].1.elements_view() } else { seq![] }
}

/// The registry's elements among the entries, latest entry first found.
fn lookup_in(regs: &Vec<(CommandIdentifierModel, HolderLookupModel)>, reg: &CommandIdentifierModel) -> (r: Option<HolderLookupModel>)
    ensures
        match r {
            Some(l) => crate::search::last_index(regs@, for_registry(*reg)) >= 0
                && l.elements_view() == registry_elements(regs@, *reg)
                && id_parts(l.identifiers()) == id_parts(regs@[crate::search::last_index(regs@, for_registry(*reg))].1.identifiers()),
            None => crate::search::last_index(regs@, for_registry(*reg)) < 0,
        },
{
    let ghost p = for_registry(*reg);
    let mut i: usize = regs.len();
    proof {
        crate::search::lemma_last_index_whole(regs@, p);
    }
    while i > 0
        invariant
            0 <= i <= regs@.len(),
            crate::search::last_index(regs@.subrange(0, i as int), p) == crate::search::last_index(regs@, p),
        decreases i,
    {
        if regs[i - 1].0.equals(reg) {
            proof {
                crate::search::lemma_last_index_hit(regs@, p, i as int);
            }
            return Some(regs[i - 1].1.copy());
        }
        proof {
            crate::search::lemma_last_index_step(regs@, p, i as int);
        }
        i = i - 1;
    }
    None
}

/// The registries known to the commands.
pub struct CommandBuildContextModel {
    registries: Vec<(CommandIdentifierModel, HolderLookupModel)>,
}

impl CommandBuildContextModel {
    pub closed spec fn registries_view(&self) -> Seq<(CommandIdentifierModel, HolderLookupModel)> {
        self.registries@
    }

    /// The context with the registry's elements given as identifier texts.
    pub fn with_registry(self, registry: &str, elements: &[&str]) -> (r: Self)
        requires
            parse_identifier(registry.spec_bytes()) is Some,
            forall|i: int| 0 <= i < elements@.len() ==> parse_identifier((#[trigger] elements@[i]).spec_bytes()) is Some,
        ensures
            r.registries_view().len() == self.registries_view().len() + 1,
            r.registries_view().drop_last() == self.registries_view(),
            r.registries_view().last().0.parses_to(registry.spec_bytes()),
            r.registries_view().last().1.elements_view().len() == elements@.len(),
            forall|i: int| 0 <= i < elements@.len() ==> (#[trigger] r.registries_view().last().1.identifiers()[i]).parses_to(elements@[i].spec_bytes()),
    {
        let key = match CommandIdentifierModel::parse(registry) {
            Ok(id) => id,
            Err(_) => CommandIdentifierModel::of("minecraft", ""),
        };
        let mut registries = self.registries;
        let ghost before = registries@;
        registries.push((key, HolderLookupModel::from_elements(registry, elements)));
        assert(registries@.drop_last() == before);
        CommandBuildContextModel { registries }
    }

    /// The registry's elements, or none when it is not known.
    pub fn lookup_or_throw(&self, registry: &CommandIdentifierModel) -> (r: HolderLookupModel)
        ensures
            r.elements_view() == registry_elements(self.registries_view(), *registry),
    {
        match lookup_in(&self.registries, registry) {
            Some(l) => l,
            None => HolderLookupModel { elements: Vec::new() },
        }
    }
}

impl Default for CommandBuildContextModel {
    fn default() -> (r: Self)
        ensures
            r.registries_view().len() == 0,
    {
        CommandBuildContextModel { registries: Vec::new() }
    }
}

#[derive(Debug, Clone, Copy, PartialEq, Eq)]
pub enum ElementSuggestionType {
    Elements,
    Tags,
    All,
}

impl ElementSuggestionType {
    pub fn should_suggest_elements(self) -> (r: bool)
        ensures
            r == (self is Elements || self is All),
    {
        match self {
            ElementSuggestionType::Elements => true,
            ElementSuggestionType::Tags => false,
            ElementSuggestionType::All => true,
        }
    }
}

/// A suggestion provider with the registries it knows.
pub struct SharedSuggestionProviderModel {
    registries: Vec<(CommandIdentifierModel, HolderLookupModel)>,
}

impl SharedSuggestionProviderModel {
    pub closed spec fn registries_view(&self) -> Seq<(CommandIdentifierModel, HolderLookupModel)> {
        self.registries@
    }

    pub fn with_registry(self, registry: &str, elements: &[&str]) -> (r: Self)
        requires
            parse_identifier(registry.spec_bytes()) is Some,
            forall|i: int| 0 <= i < elements@.len() ==> parse_identifier((#[trigger] elements@[i]).spec_bytes()) is Some,
        ensures
            r.registries_view().len() == self.registries_view().len() + 1,
            r.registries_view().drop_last() == self.registries_view(),
            r.registries_view().last().0.parses_to(registry.spec_bytes()),
            r.registries_view().last().1.elements_view().len() == elements@.len(),
            forall|i: int| 0 <= i < elements@.len() ==> (#[trigger] r.registries_view().last().1.identifiers()[i]).parses_to(elements@[i].spec_bytes()),
    {
        let context = CommandBuildContextModel { registries: self.registries }.with_registry(registry, elements);
        SharedSuggestionProviderModel { registries: context.registries }
    }

    /// The identifiers of the registry's elements that the typed text
    /// matches, when elements are to be suggested.
    fn suggest_registry_elements(&self, registry: &CommandIdentifierModel, element_type: ElementSuggestionType, remaining: &str)
        -> (r: Vec<String>)
        ensures
            r@.map_values(|s: String| s@) == if element_type is Tags {
                Seq::<Seq<char>>::empty()
            } else {
                registry_offered(self.registries_view(), *registry, remaining@)
            },
    {
        if !element_type.should_suggest_elements() {
            let out: Vec<String> = Vec::new();
            assert(out@.map_values(|s: String| s@) =~= Seq::<Seq<char>>::empty());
            return out;
        }
        match lookup_in(&self.registries, registry) {
            Some(lookup) => {
                let ids = identifiers_of(&lookup.elements);
                suggest_identifiers(&ids, remaining)
            },
            None => {
                let out: Vec<String> = Vec::new();
                assert(out@.map_values(|s: String| s@) =~= Seq::<Seq<char>>::empty());
                out
            },
        }
    }
}

impl Default for SharedSuggestionProviderModel {
    fn default() -> (r: Self)
        ensures
            r.registries_view().len() == 0,
    {
        SharedSuggestionProviderModel { registries: Vec::new() }
    }
}

/// The identifiers of the registry's elements that the typed text matches,
/// in order; none for a registry that is not known.
pub open spec fn registry_offered(regs: Seq<(CommandIdentifierModel, HolderLookupModel)>, reg: CommandIdentifierModel, remaining: Seq<char>)
    -> Seq<Seq<char>>
{
    let i = crate::search::last_index(regs, for_registry(reg));
    if i >= 0 { resources_offered(id_parts(regs[i].1.identifiers()), remaining) } else { seq![] }
}

fn identifiers_of(hs: &Vec<HolderReferenceModel>) -> (r: Vec<CommandIdentifierModel>)
    ensures
        id_parts(r@) == id_parts(element_ids(hs@)),
{
    let ghost ids = element_ids(hs@);
    let mut out: Vec<CommandIdentifierModel> = Vec::new();
    let mut i: usize = 0;
    while i < hs.len()
        invariant
            0 <= i <= hs@.len(),
            ids == element_ids(hs@),
            id_parts(out@) == id_parts(ids).subrange(0, i as int),
        decreases hs@.len() - i,
    {
        let ghost before = out@;
        out.push(hs[i].key.identifier.copy());
        assert(out@.drop_last() == before);
        assert(id_parts(out@) =~= id_parts(ids).subrange(0, i + 1));
        i = i + 1;
    }
    assert(id_parts(ids).subrange(0, hs@.len() as int) =~= id_parts(ids));
    out
}

fn is_pattern_byte(b: u8) -> (r: bool)
    ensures
        r == pattern_byte(b),
{
    (48 <= b && b <= 57) || (97 <= b && b <= 122) || b == 95 || b == 58 || b == 47 || b == 46 || b == 45 || b == 42 || b == 63
}

/// Reads the longest run of pattern bytes.
fn read_pattern(reader: &mut StringReaderModel) -> (r: String)
    requires
        old(reader).at_cut(),
    ensures
        advanced(*old(reader), *final(reader)),
        final(reader).pos() == scan_end(old(reader).bytes(), old(reader).pos(), pattern_stops()),
        utf8(r@) == old(reader).bytes().subrange(old(reader).pos(), final(reader).pos()),
{
    proof {
        reader.lemma_bytes();
    }
    let ghost v = reader.bytes();
    let start = reader.cursor();
    let ghost p = pattern_stops();
    proof {
        lemma_first_index_from(v, p, start as int);
    }
    while reader.can_read() && is_pattern_byte(reader.peek_byte())
        invariant
            reader.text() == old(reader).text(),
            reader.bytes() == v,
            start == old(reader).pos(),
            0 <= start <= reader.pos() <= v.len(),
            first_index_from(v, p, reader.pos()) == first_index_from(v, p, start as int),
            reader.pos() > start ==> pattern_byte(v[reader.pos() - 1]),
        decreases v.len() - reader.pos(),
    {
        reader.skip();
    }
    proof {
        reader.lemma_bytes();
        lemma_first_index_from(v, p, reader.pos());
        if reader.pos() > start && reader.pos() < v.len() {
            lemma_cut_after_ascii(v, reader.pos());
        }
    }
    reader.slice_string(start, reader.cursor())
}

fn holds_colon(s: &str) -> (r: bool)
    ensures
        r == s@.contains(':'),
{
    let n = s.unicode_len();
    let mut i: usize = 0;
    while i < n
        invariant
            n == s@.len(),
            0 <= i <= n,
            forall|k: int| 0 <= k < i ==> s@[k] != ':',
        decreases n - i,
    {
        if s.get_char(i) == ':' {
            assert(s@[i as int] == ':');
            return true;
        }
        i = i + 1;
    }
    false
}

/// The pattern in the default namespace unless it names one.
fn ensure_namespaced(input: &str) -> (r: String)
    ensures
        r@ == namespaced(input@),
{
    if holds_colon(input) {
        input.to_owned()
    } else {
        let mut s = "minecraft:".to_owned();
        push_str(&mut s, input);
        s
    }
}

/// The elements whose identifiers the pattern matches, in order.
fn parse_with_registry_pattern(pattern: &str, registry: &HolderLookupModel) -> (r: Vec<HolderReferenceModel>)
    ensures
        holders_view(r@) == matching(registry.elements_view(), pattern@),
{
    let hs = &registry.elements;
    let ghost all = holders_view(hs@);
    let mut out: Vec<HolderReferenceModel> = Vec::new();
    let mut i: usize = 0;
    while i < hs.len()
        invariant
            0 <= i <= hs@.len(),
            all == holders_view(hs@),
            all == registry.elements_view(),
            holders_view(out@) == matching(all.subrange(0, i as int), pattern@),
        decreases hs@.len() - i,
    {
        let h = &hs[i];
        assert(all.subrange(0, i + 1).drop_last() =~= all.subrange(0, i as int));
        assert(all.subrange(0, i + 1).last() == holder_view(*h));
        let text = h.key.identifier.to_string();
        if wildcard_match(text.as_str(), pattern) {
            let ghost before = out@;
            out.push(h.copy());
            assert(holders_view(out@) =~= holders_view(before).push(holder_view(*h)));
        }
        i = i + 1;
    }
    assert(all.subrange(0, hs@.len() as int) =~= all);
    out
}

/// Reads a pattern and gives the registry's elements that it matches; no
/// match gives none rather than an error.
pub fn parse_with_registry(reader: &mut StringReaderModel, registry: &HolderLookupModel) -> (r: Vec<HolderReferenceModel>)
    requires
        old(reader).at_cut(),
    ensures
        advanced(*old(reader), *final(reader)),
        final(reader).pos() == scan_end(old(reader).bytes(), old(reader).pos(), pattern_stops()),
        holders_view(r@) == matching(
            registry.elements_view(),
            namespaced(vstd::utf8::decode_utf8(old(reader).bytes().subrange(old(reader).pos(), final(reader).pos()))),
        ),
{
    let raw = read_pattern(reader);
    let pattern = ensure_namespaced(raw.as_str());
    parse_with_registry_pattern(pattern.as_str(), registry)
}

#[derive(Debug, PartialEq, Eq)]
pub enum ResourceSelectorParseError {
    NoMatches { selector: String, registry: String, cursor: usize },
}

/// The argument, with the registry it selects from.
pub struct ResourceSelectorArgumentModel {
    registry_key: CommandIdentifierModel,
    registry_lookup: HolderLookupModel,
}

/// What the argument is serialized with: its registry.
#[derive(Debug, PartialEq, Eq)]
pub struct InfoTemplateModel {
    registry_key: CommandIdentifierModel,
}

impl ResourceSelectorArgumentModel {
    pub closed spec fn key_view(&self) -> CommandIdentifierModel {
        self.registry_key
    }

    pub closed spec fn elements_view(&self) -> Seq<(Seq<char>, Seq<char>)> {
        self.registry_lookup.elements_view()
    }

    /// The argument for the registry named by the text.
    pub fn resource_selector(context: &CommandBuildContextModel, registry: &str) -> (r: Self)
        requires
            parse_identifier(registry.spec_bytes()) is Some,
        ensures
            r.key_view().parses_to(registry.spec_bytes()),
            r.elements_view() == registry_elements(context.registries_view(), r.key_view()),
    {
        let registry_key = match CommandIdentifierModel::parse(registry) {
            Ok(id) => id,
            Err(_) => CommandIdentifierModel::of("minecraft", ""),
        };
        ResourceSelectorArgumentModel { registry_lookup: context.lookup_or_throw(&registry_key), registry_key }
    }

    /// Reads a pattern and gives the elements it matches; none is an error
    /// that names the pattern and the registry, with the reader after the
    /// pattern.
    pub fn parse(&self, reader: &mut StringReaderModel) -> (r: Result<Vec<HolderReferenceModel>, ResourceSelectorParseError>)
        requires
            old(reader).at_cut(),
        ensures
            advanced(*old(reader), *final(reader)),
            final(reader).pos() == scan_end(old(reader).bytes(), old(reader).pos(), pattern_stops()),
            ({
                let pattern = namespaced(vstd::utf8::decode_utf8(old(reader).bytes().subrange(old(reader).pos(), final(reader).pos())));
                let found = matching(self.elements_view(), pattern);
                if found.len() == 0 {
                    r matches Err(ResourceSelectorParseError::NoMatches { selector, registry, cursor })
                        && selector@ == pattern && registry@ == self.key_view().display() && cursor == final(reader).pos()
                } else {
                    r matches Ok(hs) && holders_view(hs@) == found
                }
            }),
    {
        let raw = read_pattern(reader);
        let pattern = ensure_namespaced(raw.as_str());
        let results = parse_with_registry_pattern(pattern.as_str(), &self.registry_lookup);
        if results.len() == 0 {
            Err(ResourceSelectorParseError::NoMatches {
                selector: pattern,
                registry: self.registry_key.to_string(),
                cursor: reader.cursor(),
            })
        } else {
            Ok(results)
        }
    }

    /// The registry's element identifiers that the typed text matches, from
    /// a source that suggests them.
    pub fn list_suggestions(&self, context: &CommandContextModel, remaining: &str) -> (r: Vec<String>)
        ensures
            r@.map_values(|s: String| s@) == match context.source_view() {
                CommandSourceModel::Shared(provider) => registry_offered(provider.registries_view(), self.key_view(), remaining@),
                CommandSourceModel::Other => Seq::<Seq<char>>::empty(),
            },
    {
        match &context.source {
            CommandSourceModel::Shared(provider) => provider.suggest_registry_elements(
                &self.registry_key,
                ElementSuggestionType::Elements,
                remaining,
            ),
            CommandSourceModel::Other => {
                let out: Vec<String> = Vec::new();
                assert(out@.map_values(|s: String| s@) =~= Seq::<Seq<char>>::empty());
                out
            },
        }
    }

    pub fn examples(&self) -> (r: [&'static str; 3])
        ensures
            r@[0]@ == "minecraft:*"@,
            r@[1]@ == "*:asset"@,
            r@[2]@ == "*"@,
    {
        ["minecraft:*", "*:asset", "*"]
    }

    pub fn info_template(&self) -> (r: InfoTemplateModel)
        ensures
            r.key_view().same(&self.key_view()),
    {
        InfoTemplateModel { registry_key: self.registry_key.copy() }
    }
}

impl InfoTemplateModel {
    pub closed spec fn key_view(&self) -> CommandIdentifierModel {
        self.registry_key
    }

    pub fn serialize_to_network(&self) -> (r: String)
        ensures
            r@ == self.key_view().display(),
    {
        self.registry_key.to_string()
    }

    pub fn serialize_to_json_registry(&self) -> (r: String)
        ensures
            r@ == self.key_view().display(),
    {
        self.registry_key.to_string()
    }

    /// The argument for the template's registry in the context.
    pub fn instantiate(&self, context: &CommandBuildContextModel) -> (r: ResourceSelectorArgumentModel)
        ensures
            r.key_view().same(&self.key_view()),
            r.elements_view() == registry_elements(context.registries_view(), self.key_view()),
    {
        ResourceSelectorArgumentModel {
            registry_lookup: context.lookup_or_throw(&self.registry_key),
            registry_key: self.registry_key.copy(),
        }
    }
}

pub enum CommandSourceModel {
    Shared(SharedSuggestionProviderModel),
    Other,
}

impl Default for CommandSourceModel {
    fn default() -> (r: Self)
        ensures
            r is Other,
    {
        CommandSourceModel::Other
    }
}

/// The bound selections, by name, and the source of the command.
pub struct CommandContextModel {
    arguments: ArgMap<Vec<HolderReferenceModel>>,
    source: CommandSourceModel,
}

impl CommandContextModel {
    pub closed spec fn view(&self) -> Map<Seq<char>, Vec<HolderReferenceModel>> {
        self.arguments.view()
    }

    pub closed spec fn source_view(&self) -> CommandSourceModel {
        self.source
    }

    pub fn with_selected_resources(self, name: &str, values: Vec<HolderReferenceModel>) -> (r: Self)
        ensures
            r.view() == self.view().insert(name@, values),
            r.source_view() == self.source_view(),
    {
        let mut arguments = self.arguments;
        arguments.insert(name.to_owned(), values);
        CommandContextModel { arguments, source: self.source }
    }

    pub fn with_source(self, source: CommandSourceModel) -> (r: Self)
        ensures
            r.view() == self.view(),
            r.source_view() == source,
    {
        CommandContextModel { arguments: self.arguments, source }
    }
}

impl Default for CommandContextModel {
    fn default() -> (r: Self)
        ensures
            r.view() == Map::<Seq<char>, Vec<HolderReferenceModel>>::empty(),
            r.source_view() is Other,
    {
        CommandContextModel { arguments: ArgMap::new(), source: CommandSourceModel::Other }
    }
}

/// A copy of the selection bound to `name`.
pub fn get_selected_resources(context: &CommandContextModel, name: &str) -> (r: Option<Vec<HolderReferenceModel>>)
    ensures
        r is Some <==> context.view().contains_key(name@),
        r matches Some(hs) ==> holders_view(hs@) == holders_view(context.view()[name@]@),
{
    match context.arguments.get(name) {
        Some(hs) => Some(copy_holders(hs)),
        None => None,
    }
}


proof fn lemma_star_prefix(input: Seq<u8>, i: int)
    requires
        0 <= i <= input.len(),
    ensures
        wildcard_prefix(input, seq![42u8], i, 1),
    decreases i,
{
    reveal_with_fuel(wildcard_prefix, 2);
    if i > 0 {
        lemma_star_prefix(input, i - 1);
    }
}

/// The pattern `*` matches every text.
pub proof fn lemma_star_matches_all(input: Seq<u8>)
    ensures
        wildcard_matches(input, seq![42u8]),
{
    lemma_star_prefix(input, input.len() as int);
}

proof fn lemma_literal_prefix(input: Seq<u8>, pattern: Seq<u8>, i: int, j: int)
    requires
        0 <= i <= input.len(),
        0 <= j <= pattern.len(),
        forall|k: int| 0 <= k < pattern.len() ==> pattern[k] != 42u8 && pattern[k] != 63u8,
    ensures
        wildcard_prefix(input, pattern, i, j) <==> (i == j && input.subrange(0, i) == pattern.subrange(0, j)),
    decreases i + j,
{
    if j == 0 {
        if i == 0 {
            assert(input.subrange(0, 0) =~= pattern.subrange(0, 0));
        }
    } else if i == 0 {
    } else {
        lemma_literal_prefix(input, pattern, i - 1, j - 1);
        if i == j && input.subrange(0, i) == pattern.subrange(0, j) {
            assert(input.subrange(0, i - 1) =~= input.subrange(0, i).drop_last());
            assert(pattern.subrange(0, j - 1) =~= pattern.subrange(0, j).drop_last());
            assert(input[i - 1] == input.subrange(0, i)[i - 1]);
            assert(pattern[j - 1] == pattern.subrange(0, j)[j - 1]);
        }
        if pattern[j - 1] == input[i - 1] && i - 1 == j - 1 && input.subrange(0, i - 1) == pattern.subrange(0, j - 1) {
            assert(input.subrange(0, i) =~= input.subrange(0, i - 1).push(input[i - 1]));
            assert(pattern.subrange(0, j) =~= pattern.subrange(0, j - 1).push(pattern[j - 1]));
        }
    }
}

/// A pattern without `*` or `?` matches exactly the text it spells.
pub proof fn lemma_literal_matches_itself(input: Seq<u8>, pattern: Seq<u8>)
    requires
        forall|k: int| 0 <= k < pattern.len() ==> pattern[k] != 42u8 && pattern[k] != 63u8,
    ensures
        wildcard_matches(input, pattern) <==> input == pattern,
{
    lemma_literal_prefix(input, pattern, input.len() as int, pattern.len() as int);
    assert(input.subrange(0, input.len() as int) =~= input);
    assert(pattern.subrange(0, pattern.len() as int) =~= pattern);
}
} // verus!
