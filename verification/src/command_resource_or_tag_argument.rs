//! The `resource_or_tag` argument: an element of a fixed registry, or a tag
//! of it written with a leading `#`, resolved against the registry's holders
//! when the command is parsed.

use vstd::prelude::*;
use vstd::string::StringSliceAdditionalSpecFns;
use crate::text::{utf8, push_str};
use crate::arg_map::ArgMap;
use crate::string_reader::lemma_cut_after_ascii;
use crate::search::{last_index, first_index, first_index_from, dedup, lemma_dedup_contains, lemma_dedup_push,
    lemma_last_index_step, lemma_last_index_hit, lemma_last_index_whole};
use crate::command_shared_suggestion_provider::lower_bytes;
use crate::command_identifier_argument::lemma_same_as_parsed;
use crate::command_resource_key_argument::key_same;
use crate::command_resource_or_tag_key_argument::{tag_same, ids_suggested, parts_of, suggest_ids, append_texts};
pub use crate::command_resource_key_argument::ResourceKeyModel;
pub use crate::command_resource_or_tag_key_argument::{TagKeyModel, ElementSuggestionType};
pub use crate::command_identifier_argument::{CommandIdentifierModel, IdentifierArgumentParseError, StringReaderModel,
    identifier_end, parse_identifier};

verus! {

#[derive(Debug, Clone, PartialEq, Eq)]
pub struct HolderReferenceModel {
    key: ResourceKeyModel,
    tags: Vec<TagKeyModel>,
}

#[derive(Debug, Clone, PartialEq, Eq)]
pub struct HolderSetNamedModel {
    key: TagKeyModel,
    values: Vec<HolderReferenceModel>,
}

/// The holders of one registry, in order; a tag names the holders that carry it.
#[derive(Debug, Clone, PartialEq, Eq)]
pub struct HolderLookupModel {
    elements: Vec<HolderReferenceModel>,
}

#[derive(Debug, Clone, PartialEq, Eq)]
pub struct ResourceOrTagArgumentModel {
    registry_key: CommandIdentifierModel,
    pub registry_lookup: HolderLookupModel,
}

/// The registries by key; a later one for a key replaces an earlier one.
#[derive(Debug, Clone, PartialEq, Eq)]
pub struct CommandBuildContextModel {
    registries: Vec<(CommandIdentifierModel, HolderLookupModel)>,
}

#[derive(Debug, Clone, PartialEq, Eq)]
pub struct SharedSuggestionProviderModel {
    registries: Vec<(CommandIdentifierModel, HolderLookupModel)>,
}

#[derive(Debug, Clone, PartialEq, Eq)]
pub enum CommandSourceModel {
    Shared(SharedSuggestionProviderModel),
    Other,
}

pub struct CommandContextModel {
    arguments: ArgMap<ResourceOrTagResultModel>,
    source: CommandSourceModel,
}

#[derive(Debug, Clone, PartialEq, Eq)]
pub enum ResourceOrTagResultModel {
    Resource(HolderReferenceModel),
    Tag(HolderSetNamedModel),
}

#[derive(Debug, Clone, PartialEq, Eq)]
pub struct InfoTemplateModel {
    registry_key: CommandIdentifierModel,
}

#[derive(Debug, Clone, PartialEq, Eq)]
pub enum ResourceOrTagParseError {
    Identifier(IdentifierArgumentParseError),
    UnknownResource { id: CommandIdentifierModel, registry: CommandIdentifierModel, cursor: usize },
    UnknownTag { id: CommandIdentifierModel, registry: CommandIdentifierModel, cursor: usize },
}

#[derive(Debug, Clone, PartialEq, Eq)]
pub enum ResourceOrTagLookupError {
    MissingArgument,
    InvalidResourceType {
        id: Box<CommandIdentifierModel>,
        actual_registry: Box<CommandIdentifierModel>,
        expected_registry: Box<CommandIdentifierModel>,
    },
    InvalidTagType {
        id: Box<CommandIdentifierModel>,
        actual_registry: Box<CommandIdentifierModel>,
        expected_registry: Box<CommandIdentifierModel>,
    },
}

/// Two holders have the same key and the same tags in the same order.
pub open spec fn holder_same(a: HolderReferenceModel, b: HolderReferenceModel) -> bool {
    &&& key_same(a.key_view(), b.key_view())
    &&& a.tags_view().len() == b.tags_view().len()
    &&& forall|k: int| 0 <= k < a.tags_view().len() ==> tag_same(#[trigger] a.tags_view()[k], b.tags_view()[k])
}

/// Two holder lists agree element by element.
pub open spec fn holders_same(a: Seq<HolderReferenceModel>, b: Seq<HolderReferenceModel>) -> bool {
    a.len() == b.len() && forall|i: int| 0 <= i < a.len() ==> holder_same(#[trigger] a[i], b[i])
}

/// The holder carries a tag equal to `key`.
pub open spec fn carries(h: HolderReferenceModel, key: TagKeyModel) -> bool {
    exists|j: int| 0 <= j < h.tags_view().len() && tag_same(#[trigger] h.tags_view()[j], key)
}

pub open spec fn tagged(key: TagKeyModel) -> spec_fn(HolderReferenceModel) -> bool {
    |h: HolderReferenceModel| carries(h, key)
}

pub open spec fn keyed(key: ResourceKeyModel) -> spec_fn(HolderReferenceModel) -> bool {
    |h: HolderReferenceModel| key_same(h.key_view(), key)
}

impl HolderReferenceModel {
    pub closed spec fn key_view(&self) -> ResourceKeyModel {
        self.key
    }

    pub closed spec fn tags_view(&self) -> Seq<TagKeyModel> {
        self.tags@
    }

    pub fn key(&self) -> (r: &ResourceKeyModel)
        ensures
            *r == self.key_view(),
    {
        &self.key
    }

    fn copy(&self) -> (r: Self)
        ensures
            holder_same(r, *self),
    {
        let mut tags: Vec<TagKeyModel> = Vec::new();
        let mut i: usize = 0;
        while i < self.tags.len()
            invariant
                0 <= i <= self.tags@.len(),
                tags@.len() == i,
                forall|k: int| 0 <= k < i ==> tag_same(#[trigger] tags@[k], self.tags@[k]),
            decreases self.tags@.len() - i,
        {
            tags.push(self.tags[i].copy());
            i = i + 1;
        }
        HolderReferenceModel { key: self.key.copy(), tags }
    }

    fn equals(&self, other: &HolderReferenceModel) -> (r: bool)
        ensures
            r == holder_same(*self, *other),
    {
        if !self.key.equals(&other.key) || self.tags.len() != other.tags.len() {
            return false;
        }
        let mut i: usize = 0;
        while i < self.tags.len()
            invariant
                0 <= i <= self.tags@.len(),
                self.tags@.len() == other.tags@.len(),
                forall|k: int| 0 <= k < i ==> tag_same(#[trigger] self.tags@[k], other.tags@[k]),
            decreases self.tags@.len() - i,
        {
            if !self.tags[i].equals(&other.tags[i]) {
                return false;
            }
            i = i + 1;
        }
        true
    }

    fn carries_tag(&self, key: &TagKeyModel) -> (r: bool)
        ensures
            r == carries(*self, *key),
    {
        let mut j: usize = 0;
        while j < self.tags.len()
            invariant
                0 <= j <= self.tags@.len(),
                forall|k: int| 0 <= k < j ==> !tag_same(#[trigger] self.tags@[k], *key),
            decreases self.tags@.len() - j,
        {
            if self.tags[j].equals(key) {
                assert(tag_same(self.tags_view()[j as int], *key));
                return true;
            }
            j = j + 1;
        }
        false
    }
}

fn copy_holders(values: &Vec<HolderReferenceModel>) -> (r: Vec<HolderReferenceModel>)
    ensures
        holders_same(r@, values@),
{
    let mut out: Vec<HolderReferenceModel> = Vec::new();
    let mut i: usize = 0;
    while i < values.len()
        invariant
            0 <= i <= values@.len(),
            out@.len() == i,
            forall|k: int| 0 <= k < i ==> holder_same(#[trigger] out@[k], values@[k]),
        decreases values@.len() - i,
    {
        out.push(values[i].copy());
        i = i + 1;
    }
    out
}

impl HolderSetNamedModel {
    pub closed spec fn key_view(&self) -> TagKeyModel {
        self.key
    }

    pub closed spec fn values_view(&self) -> Seq<HolderReferenceModel> {
        self.values@
    }

    pub fn key(&self) -> (r: &TagKeyModel)
        ensures
            *r == self.key_view(),
    {
        &self.key
    }

    fn contains(&self, holder: &HolderReferenceModel) -> (r: bool)
        ensures
            r == exists|i: int| 0 <= i < self.values_view().len() && holder_same(#[trigger] self.values_view()[i], *holder),
    {
        let mut i: usize = 0;
        while i < self.values.len()
            invariant
                0 <= i <= self.values@.len(),
                forall|k: int| 0 <= k < i ==> !holder_same(#[trigger] self.values@[k], *holder),
            decreases self.values@.len() - i,
        {
            if self.values[i].equals(holder) {
                assert(holder_same(self.values_view()[i as int], *holder));
                return true;
            }
            i = i + 1;
        }
        false
    }

    fn copy(&self) -> (r: Self)
        ensures
            tag_same(r.key_view(), self.key_view()),
            holders_same(r.values_view(), self.values_view()),
    {
        HolderSetNamedModel { key: self.key.copy(), values: copy_holders(&self.values) }
    }
}

impl HolderLookupModel {
    pub closed spec fn elements_view(&self) -> Seq<HolderReferenceModel> {
        self.elements@
    }

    /// The first holder under `key`.
    pub fn get_resource(&self, key: &ResourceKeyModel) -> (r: Option<HolderReferenceModel>)
        ensures
            ({
                let i = first_index(self.elements_view(), keyed(*key));
                if i >= 0 { r matches Some(h) && holder_same(h, self.elements_view()[i]) } else { r is None }
            }),
    {
        let ghost p = keyed(*key);
        let mut i: usize = 0;
        while i < self.elements.len()
            invariant
                0 <= i <= self.elements@.len(),
                first_index_from(self.elements@, p, i as int) == first_index(self.elements@, p),
            decreases self.elements@.len() - i,
        {
            if self.elements[i].key.equals(key) {
                return Some(self.elements[i].copy());
            }
            i = i + 1;
        }
        None
    }

    /// The tag `key`: the holders that carry it, in order; none when no holder does.
    fn get_tag(&self, key: &TagKeyModel) -> (r: Option<HolderSetNamedModel>)
        ensures
            ({
                let members = self.elements_view().filter(tagged(*key));
                if members.len() > 0 {
                    r matches Some(s) && tag_same(s.key_view(), *key) && holders_same(s.values_view(), members)
                } else {
                    r is None
                }
            }),
    {
        let ghost p = tagged(*key);
        let ghost elems = self.elements@;
        let mut values: Vec<HolderReferenceModel> = Vec::new();
        let mut i: usize = 0;
        while i < self.elements.len()
            invariant
                0 <= i <= elems.len(),
                elems == self.elements@,
                holders_same(values@, elems.subrange(0, i as int).filter(p)),
            decreases elems.len() - i,
        {
            proof {
                reveal_with_fuel(Seq::<HolderReferenceModel>::filter, 1);
                assert(elems.subrange(0, i + 1).drop_last() =~= elems.subrange(0, i as int));
            }
            if self.elements[i].carries_tag(key) {
                values.push(self.elements[i].copy());
            }
            i = i + 1;
        }
        assert(elems.subrange(0, elems.len() as int) =~= elems);
        if values.len() == 0 {
            None
        } else {
            Some(HolderSetNamedModel { key: key.copy(), values })
        }
    }

    fn copy(&self) -> (r: Self)
        ensures
            holders_same(r.elements_view(), self.elements_view()),
    {
        HolderLookupModel { elements: copy_holders(&self.elements) }
    }
}

/// The location parts of the tags, in order.
pub open spec fn tag_parts(tags: Seq<TagKeyModel>) -> Seq<(Seq<char>, Seq<char>)> {
    tags.map_values(|t: TagKeyModel| (t.location_view().namespace_view(), t.location_view().path_view()))
}

/// The location parts of every tag of every holder, in order.
pub open spec fn all_tag_parts(elems: Seq<HolderReferenceModel>) -> Seq<(Seq<char>, Seq<char>)>
    decreases elems.len(),
{
    if elems.len() == 0 {
        seq![]
    } else {
        all_tag_parts(elems.drop_last()) + tag_parts(elems.last().tags_view())
    }
}

/// The identifiers of the holders, in order.
pub open spec fn element_ids(elems: Seq<HolderReferenceModel>) -> Seq<CommandIdentifierModel> {
    elems.map_values(|h: HolderReferenceModel| h.key_view().identifier_view())
}

fn holds_location(ids: &Vec<CommandIdentifierModel>, loc: &CommandIdentifierModel) -> (r: bool)
    ensures
        r == parts_of(ids@).contains((loc.namespace_view(), loc.path_view())),
{
    let ghost x = (loc.namespace_view(), loc.path_view());
    let mut i: usize = 0;
    while i < ids.len()
        invariant
            0 <= i <= ids@.len(),
            forall|k: int| 0 <= k < i ==> parts_of(ids@)[k] != x,
        decreases ids@.len() - i,
    {
        if ids[i].equals(loc) {
            assert(parts_of(ids@)[i as int] == x);
            return true;
        }
        i = i + 1;
    }
    false
}

/// The distinct tag locations of the holders, in the order they first occur.
fn distinct_tag_locations(elems: &Vec<HolderReferenceModel>) -> (r: Vec<CommandIdentifierModel>)
    ensures
        parts_of(r@) == dedup(all_tag_parts(elems@)),
{
    let mut ids: Vec<CommandIdentifierModel> = Vec::new();
    let mut i: usize = 0;
    while i < elems.len()
        invariant
            0 <= i <= elems@.len(),
            parts_of(ids@) == dedup(all_tag_parts(elems@.subrange(0, i as int))),
        decreases elems@.len() - i,
    {
        let h = &elems[i];
        let ghost before = all_tag_parts(elems@.subrange(0, i as int));
        let mut j: usize = 0;
        assert(before + tag_parts(h.tags@.subrange(0, 0)) =~= before);
        while j < h.tags.len()
            invariant
                0 <= j <= h.tags@.len(),
                before == all_tag_parts(elems@.subrange(0, i as int)),
                parts_of(ids@) == dedup(before + tag_parts(h.tags@.subrange(0, j as int))),
            decreases h.tags@.len() - j,
        {
            let loc = h.tags[j].location();
            let ghost x = (loc.namespace_view(), loc.path_view());
            let ghost prefix = before + tag_parts(h.tags@.subrange(0, j as int));
            assert(before + tag_parts(h.tags@.subrange(0, j + 1)) =~= prefix.push(x));
            proof {
                lemma_dedup_push(prefix, x);
                lemma_dedup_contains(prefix, x);
            }
            if !holds_location(&ids, loc) {
                let ghost old_ids = ids@;
                ids.push(loc.copy());
                assert(parts_of(ids@) =~= parts_of(old_ids).push(x));
            }
            j = j + 1;
        }
        assert(elems@.subrange(0, i + 1).drop_last() =~= elems@.subrange(0, i as int));
        assert(h.tags@.subrange(0, h.tags@.len() as int) =~= h.tags@);
        i = i + 1;
    }
    assert(elems@.subrange(0, elems@.len() as int) =~= elems@);
    ids
}

/// The registry entries for `reg`.
pub open spec fn lookup_named(reg: CommandIdentifierModel) -> spec_fn((CommandIdentifierModel, HolderLookupModel)) -> bool {
    |e: (CommandIdentifierModel, HolderLookupModel)| e.0.same(&reg)
}

/// The holders of registry `reg`, or none when it is not there.
pub open spec fn registry_holders(entries: Seq<(CommandIdentifierModel, HolderLookupModel)>, reg: CommandIdentifierModel) -> Seq<HolderReferenceModel> {
    let i = last_index(entries, lookup_named(reg));
    if i >= 0 { entries[i].1.elements_view() } else { seq![] }
}

/// The suggestions of registry `reg` for the typed text: its tags, each once
/// in the order they first occur, when tags are asked for; then its
/// elements when elements are; none when the registry is not there.
pub open spec fn registry_suggestions(
    entries: Seq<(CommandIdentifierModel, HolderLookupModel)>,
    reg: CommandIdentifierModel,
    element_type: ElementSuggestionType,
    remaining: Seq<char>,
) -> Seq<Seq<char>> {
    let i = last_index(entries, lookup_named(reg));
    let contents = crate::command_shared_suggestion_provider::ascii_lower(utf8(remaining));
    if i < 0 {
        seq![]
    } else {
        let elems = entries[i].1.elements_view();
        let tags = if element_type.spec_should_suggest_tags() {
            ids_suggested(dedup(all_tag_parts(elems)), contents, true)
        } else {
            seq![]
        };
        let elements = if element_type.spec_should_suggest_elements() {
            ids_suggested(parts_of(element_ids(elems)), contents, false)
        } else {
            seq![]
        };
        tags + elements
    }
}

fn lookup_in<'a>(registries: &'a Vec<(CommandIdentifierModel, HolderLookupModel)>, reg: &CommandIdentifierModel) -> (r: Option<&'a HolderLookupModel>)
    ensures
        ({
            let i = last_index(registries@, lookup_named(*reg));
            if i >= 0 { r == Some(&registries@[i].1) } else { r is None }
        }),
{
    let ghost p = lookup_named(*reg);
    let ghost s = registries@;
    proof {
        lemma_last_index_whole(s, p);
    }
    let mut i: usize = registries.len();
    while i > 0
        invariant
            0 <= i <= s.len(),
            s == registries@,
            last_index(s.subrange(0, i as int), p) == last_index(s, p),
        decreases i,
    {
        if registries[i - 1].0.equals(reg) {
            proof {
                lemma_last_index_hit(s, p, i as int);
            }
            return Some(&registries[i - 1].1);
        }
        proof {
            lemma_last_index_step(s, p, i as int);
        }
        i = i - 1;
    }
    assert(s.subrange(0, 0) =~= Seq::<(CommandIdentifierModel, HolderLookupModel)>::empty());
    None
}

fn parse_or_root(value: &str) -> (r: CommandIdentifierModel)
    ensures
        parse_identifier(value.spec_bytes()) is Some ==> r.parses_to(value.spec_bytes()),
{
    match CommandIdentifierModel::parse(value) {
        Ok(id) => id,
        Err(_) => CommandIdentifierModel::of("minecraft", "root"),
    }
}

impl CommandBuildContextModel {
    pub closed spec fn entries(&self) -> Seq<(CommandIdentifierModel, HolderLookupModel)> {
        self.registries@
    }

    /// Adds the registry `registry` with holders given as identifiers with
    /// their tag locations; it replaces an earlier registry of that key.
    pub fn with_registry(self, registry: &str, elements: &[(&str, &[&str])]) -> (r: Self)
        requires
            parse_identifier(registry.spec_bytes()) is Some,
            forall|i: int| 0 <= i < elements@.len() ==> parse_identifier((#[trigger] elements@[i]).0.spec_bytes()) is Some,
            forall|i: int, k: int| 0 <= i < elements@.len() && 0 <= k < elements@[i].1@.len()
                ==> parse_identifier((#[trigger] elements@[i].1@[k]).spec_bytes()) is Some,
        ensures
            r.entries().len() == self.entries().len() + 1,
            r.entries().subrange(0, self.entries().len() as int) == self.entries(),
            r.entries().last().0.parses_to(registry.spec_bytes()),
            r.entries().last().1.elements_view().len() == elements@.len(),
            forall|i: int| 0 <= i < elements@.len() ==> {
                let h = #[trigger] r.entries().last().1.elements_view()[i];
                &&& h.key_view().registry_view().parses_to(registry.spec_bytes())
                &&& h.key_view().identifier_view().parses_to(elements@[i].0.spec_bytes())
                &&& h.tags_view().len() == elements@[i].1@.len()
                &&& forall|k: int| 0 <= k < elements@[i].1@.len() ==> {
                    &&& (#[trigger] h.tags_view()[k]).registry_view().parses_to(registry.spec_bytes())
                    &&& h.tags_view()[k].location_view().parses_to(elements@[i].1@[k].spec_bytes())
                }
            },
    {
        let registry_key = parse_or_root(registry);
        let mut holders: Vec<HolderReferenceModel> = Vec::new();
        let mut i: usize = 0;
        while i < elements.len()
            invariant
                0 <= i <= elements@.len(),
                registry_key.parses_to(registry.spec_bytes()),
                holders@.len() == i,
                forall|m: int| 0 <= m < i ==> {
                    let h = #[trigger] holders@[m];
                    &&& h.key_view().registry_view().parses_to(registry.spec_bytes())
                    &&& h.key_view().identifier_view().parses_to(elements@[m].0.spec_bytes())
                    &&& h.tags_view().len() == elements@[m].1@.len()
                    &&& forall|k: int| 0 <= k < elements@[m].1@.len() ==> {
                        &&& (#[trigger] h.tags_view()[k]).registry_view().parses_to(registry.spec_bytes())
                        &&& h.tags_view()[k].location_view().parses_to(elements@[m].1@[k].spec_bytes())
                    }
                },
            decreases elements@.len() - i,
        {
            let (id_text, tag_texts) = elements[i];
            let id = parse_or_root(id_text);
            let mut tags: Vec<TagKeyModel> = Vec::new();
            let mut k: usize = 0;
            while k < tag_texts.len()
                invariant
                    0 <= k <= tag_texts@.len(),
                    tag_texts@ == elements@[i as int].1@,
                    registry_key.parses_to(registry.spec_bytes()),
                    tags@.len() == k,
                    forall|n: int| 0 <= n < k ==> {
                        &&& (#[trigger] tags@[n]).registry_view().parses_to(registry.spec_bytes())
                        &&& tags@[n].location_view().parses_to(tag_texts@[n].spec_bytes())
                    },
                decreases tag_texts@.len() - k,
            {
                tags.push(TagKeyModel::create(registry_key.copy(), parse_or_root(tag_texts[k])));
                k = k + 1;
            }
            holders.push(HolderReferenceModel { key: ResourceKeyModel::create(registry_key.copy(), id), tags });
            i = i + 1;
        }
        let mut registries = self.registries;
        let ghost before = registries@;
        registries.push((registry_key, HolderLookupModel { elements: holders }));
        assert(registries@.subrange(0, before.len() as int) =~= before);
        CommandBuildContextModel { registries }
    }

    /// The holders of `registry`, or an empty lookup when it is not there.
    fn lookup_or_throw(&self, registry: &CommandIdentifierModel) -> (r: HolderLookupModel)
        ensures
            holders_same(r.elements_view(), registry_holders(self.entries(), *registry)),
    {
        match lookup_in(&self.registries, registry) {
            Some(lookup) => lookup.copy(),
            None => HolderLookupModel { elements: Vec::new() },
        }
    }
}

impl Default for CommandBuildContextModel {
    fn default() -> (r: Self)
        ensures
            r.entries().len() == 0,
    {
        CommandBuildContextModel { registries: Vec::new() }
    }
}

impl SharedSuggestionProviderModel {
    pub closed spec fn entries(&self) -> Seq<(CommandIdentifierModel, HolderLookupModel)> {
        self.registries@
    }

    /// A provider that offers the registries of a build context.
    pub fn from_build_context(context: CommandBuildContextModel) -> (r: Self)
        ensures
            r.entries() == context.entries(),
    {
        SharedSuggestionProviderModel { registries: context.registries }
    }

    fn suggest_registry_elements(&self, registry: &CommandIdentifierModel, element_type: ElementSuggestionType, remaining: &str) -> (r: Vec<String>)
        ensures
            r@.map_values(|s: String| s@) == registry_suggestions(self.entries(), *registry, element_type, remaining@),
    {
        let reg = match lookup_in(&self.registries, registry) {
            Some(reg) => reg,
            None => {
                let out: Vec<String> = Vec::new();
                assert(out@.map_values(|s: String| s@) =~= Seq::<Seq<char>>::empty());
                return out;
            },
        };
        let contents = lower_bytes(remaining);
        let mut suggestions: Vec<String> = Vec::new();
        assert(suggestions@.map_values(|s: String| s@) =~= Seq::<Seq<char>>::empty());
        if element_type.should_suggest_tags() {
            let locations = distinct_tag_locations(&reg.elements);
            let tags = suggest_ids(&locations, &contents, true);
            append_texts(&mut suggestions, tags);
        }
        let ghost mid = suggestions@.map_values(|s: String| s@);
        if element_type.should_suggest_elements() {
            let mut ids: Vec<CommandIdentifierModel> = Vec::new();
            let mut i: usize = 0;
            while i < reg.elements.len()
                invariant
                    0 <= i <= reg.elements@.len(),
                    ids@.len() == i,
                    forall|k: int| 0 <= k < i ==> (#[trigger] ids@[k]).same(&reg.elements@[k].key_view().identifier_view()),
                decreases reg.elements@.len() - i,
            {
                ids.push(reg.elements[i].key.identifier().copy());
                i = i + 1;
            }
            assert(parts_of(ids@) =~= parts_of(element_ids(reg.elements_view())));
            let elements = suggest_ids(&ids, &contents, false);
            append_texts(&mut suggestions, elements);
        }
        proof {
            if !element_type.spec_should_suggest_elements() {
                assert(mid + Seq::<Seq<char>>::empty() =~= mid);
            }
            if !element_type.spec_should_suggest_tags() {
                assert(Seq::<Seq<char>>::empty() + suggestions@.map_values(|s: String| s@) =~= suggestions@.map_values(|s: String| s@));
            }
        }
        suggestions
    }
}

impl Default for SharedSuggestionProviderModel {
    fn default() -> (r: Self)
        ensures
            r.entries().len() == 0,
    {
        SharedSuggestionProviderModel { registries: Vec::new() }
    }
}

/// Two results hold the same holder, or the same tag with the same holders.
pub open spec fn result_same(a: ResourceOrTagResultModel, b: ResourceOrTagResultModel) -> bool {
    match (a, b) {
        (ResourceOrTagResultModel::Resource(x), ResourceOrTagResultModel::Resource(y)) => holder_same(x, y),
        (ResourceOrTagResultModel::Tag(x), ResourceOrTagResultModel::Tag(y)) =>
            tag_same(x.key_view(), y.key_view()) && holders_same(x.values_view(), y.values_view()),
        _ => false,
    }
}

/// The registry of the result's key.
pub open spec fn result_registry(r: ResourceOrTagResultModel) -> CommandIdentifierModel {
    match r {
        ResourceOrTagResultModel::Resource(h) => h.key_view().registry_view(),
        ResourceOrTagResultModel::Tag(t) => t.key_view().registry_view(),
    }
}

/// `#namespace:path` of a tag, or `namespace:path` of a resource.
pub open spec fn printable(r: ResourceOrTagResultModel) -> Seq<char> {
    match r {
        ResourceOrTagResultModel::Resource(h) => h.key_view().identifier_view().display(),
        ResourceOrTagResultModel::Tag(t) => "#"@ + t.key_view().location_view().display(),
    }
}

impl ResourceOrTagResultModel {
    /// The holder, or the tag as the error.
    pub fn unwrap(&self) -> (r: Result<HolderReferenceModel, HolderSetNamedModel>)
        ensures
            *self matches ResourceOrTagResultModel::Resource(h) ==> r matches Ok(x) && holder_same(x, h),
            *self matches ResourceOrTagResultModel::Tag(t) ==> r matches Err(x) && tag_same(x.key_view(), t.key_view())
                && holders_same(x.values_view(), t.values_view()),
    {
        match self {
            ResourceOrTagResultModel::Resource(holder) => Ok(holder.copy()),
            ResourceOrTagResultModel::Tag(tag) => Err(tag.copy()),
        }
    }

    /// This result, when its key belongs to `registry_key`.
    pub fn cast(&self, registry_key: &CommandIdentifierModel) -> (r: Option<Self>)
        ensures
            r is Some <==> result_registry(*self).same(registry_key),
            r matches Some(x) ==> result_same(x, *self),
    {
        match self {
            ResourceOrTagResultModel::Resource(holder) => {
                if holder.key.is_for(registry_key) {
                    Some(ResourceOrTagResultModel::Resource(holder.copy()))
                } else {
                    None
                }
            },
            ResourceOrTagResultModel::Tag(tag) => {
                if tag.key().is_for(registry_key) {
                    Some(ResourceOrTagResultModel::Tag(tag.copy()))
                } else {
                    None
                }
            },
        }
    }

    /// A holder admits itself; a tag admits the holders in it.
    pub fn test(&self, holder: &HolderReferenceModel) -> (r: bool)
        ensures
            *self matches ResourceOrTagResultModel::Resource(v) ==> r == holder_same(*holder, v),
            *self matches ResourceOrTagResultModel::Tag(t) ==> r == exists|i: int|
                0 <= i < t.values_view().len() && holder_same(#[trigger] t.values_view()[i], *holder),
    {
        match self {
            ResourceOrTagResultModel::Resource(value) => holder.equals(value),
            ResourceOrTagResultModel::Tag(tag) => tag.contains(holder),
        }
    }

    pub fn as_printable(&self) -> (r: String)
        ensures
            r@ == printable(*self),
    {
        match self {
            ResourceOrTagResultModel::Resource(holder) => holder.key.identifier().to_string(),
            ResourceOrTagResultModel::Tag(tag) => {
                let mut s = "#".to_owned();
                let text = tag.key().location().to_string();
                push_str(&mut s, text.as_str());
                s
            },
        }
    }
}

impl CommandContextModel {
    pub closed spec fn view(&self) -> Map<Seq<char>, ResourceOrTagResultModel> {
        self.arguments.view()
    }

    pub closed spec fn source_view(&self) -> CommandSourceModel {
        self.source
    }

    pub fn with_result(self, name: &str, result: ResourceOrTagResultModel) -> (r: Self)
        ensures
            r.view() == self.view().insert(name@, result),
            r.source_view() == self.source_view(),
    {
        let mut arguments = self.arguments;
        arguments.insert(name.to_owned(), result);
        CommandContextModel { arguments, source: self.source }
    }

    pub fn with_source(self, source: CommandSourceModel) -> (r: Self)
        ensures
            r.view() == self.view(),
            r.source_view() == source,
    {
        CommandContextModel { arguments: self.arguments, source }
    }
}

impl Default for CommandContextModel {
    fn default() -> (r: Self)
        ensures
            r.view() == Map::<Seq<char>, ResourceOrTagResultModel>::empty(),
            r.source_view() is Other,
    {
        CommandContextModel { arguments: ArgMap::new(), source: CommandSourceModel::Other }
    }
}

/// A holder under a key of registry `reg` with identifier `id`.
pub open spec fn holder_named(reg: CommandIdentifierModel, id: CommandIdentifierModel) -> spec_fn(HolderReferenceModel) -> bool {
    |h: HolderReferenceModel| h.key_view().registry_view().same(&reg) && h.key_view().identifier_view().same(&id)
}

/// A holder carrying a tag of registry `reg` at location `loc`.
pub open spec fn holder_in_tag(reg: CommandIdentifierModel, loc: CommandIdentifierModel) -> spec_fn(HolderReferenceModel) -> bool {
    |h: HolderReferenceModel| exists|j: int| 0 <= j < h.tags_view().len()
        && (#[trigger] h.tags_view()[j]).registry_view().same(&reg) && h.tags_view()[j].location_view().same(&loc)
}

impl ResourceOrTagArgumentModel {
    pub closed spec fn registry_view(&self) -> CommandIdentifierModel {
        self.registry_key
    }

    pub closed spec fn holders(&self) -> Seq<HolderReferenceModel> {
        self.registry_lookup.elements_view()
    }

    /// The argument for registry `registry_key`, holding that registry's
    /// holders from the build context.
    pub fn resource_or_tag(context: &CommandBuildContextModel, registry_key: &str) -> (r: Self)
        requires
            parse_identifier(registry_key.spec_bytes()) is Some,
        ensures
            r.registry_view().parses_to(registry_key.spec_bytes()),
            holders_same(r.holders(), registry_holders(context.entries(), r.registry_view())),
    {
        let registry_key = parse_or_root(registry_key);
        let registry_lookup = context.lookup_or_throw(&registry_key);
        ResourceOrTagArgumentModel { registry_lookup, registry_key }
    }

    /// With a leading `#`, reads a tag of the registry (on any failure the
    /// cursor goes back to the `#`); else reads an element of it. An unknown
    /// element or tag is an error that records the cursor after the identifier.
    pub fn parse(&self, reader: &mut StringReaderModel) -> (r: Result<ResourceOrTagResultModel, ResourceOrTagParseError>)
        requires
            old(reader).at_cut(),
        ensures
            final(reader).text() == old(reader).text(),
            final(reader).at_cut(),
            ({
                let v = old(reader).bytes();
                let p = old(reader).pos();
                if p < v.len() && v[p] == 35u8 {
                    let end = identifier_end(v, p + 1);
                    let tok = v.subrange(p + 1, end);
                    match r {
                        Ok(t) => t matches ResourceOrTagResultModel::Tag(s)
                            && s.key_view().location_view().parses_to(tok)
                            && s.key_view().registry_view().same(&self.registry_view())
                            && s.values_view().len() > 0
                            && holders_same(s.values_view(), self.holders().filter(tagged(s.key_view())))
                            && final(reader).pos() == end,
                        Err(ResourceOrTagParseError::UnknownTag { id, registry, cursor }) =>
                            id.parses_to(tok) && registry.same(&self.registry_view()) && cursor == end
                            && self.holders().filter(holder_in_tag(self.registry_view(), id)).len() == 0
                            && final(reader).pos() == p,
                        Err(ResourceOrTagParseError::Identifier(_)) => parse_identifier(tok) is None && final(reader).pos() == p,
                        _ => false,
                    }
                } else {
                    let end = identifier_end(v, p);
                    let tok = v.subrange(p, end);
                    match r {
                        Ok(t) => t matches ResourceOrTagResultModel::Resource(h)
                            && h.key_view().identifier_view().parses_to(tok)
                            && h.key_view().registry_view().same(&self.registry_view())
                            && ({
                                let i = first_index(self.holders(), keyed(h.key_view()));
                                i >= 0 && holder_same(h, self.holders()[i])
                            })
                            && final(reader).pos() == end,
                        Err(ResourceOrTagParseError::UnknownResource { id, registry, cursor }) =>
                            id.parses_to(tok) && registry.same(&self.registry_view()) && cursor == end
                            && first_index(self.holders(), holder_named(self.registry_view(), id)) < 0
                            && final(reader).pos() == end,
                        Err(ResourceOrTagParseError::Identifier(_)) => parse_identifier(tok) is None && final(reader).pos() == p,
                        _ => false,
                    }
                }
            }),
    {
        proof {
            reader.lemma_bytes();
        }
        if reader.can_read() && reader.peek_byte() == 35 {
            let cursor = reader.cursor();
            reader.skip();
            proof {
                reader.lemma_bytes();
                lemma_cut_after_ascii(reader.bytes(), reader.pos());
            }
            match CommandIdentifierModel::read(reader) {
                Ok(tag_id) => {
                    let tag_key = TagKeyModel::create(self.registry_key.copy(), tag_id.copy());
                    let end = reader.cursor();
                    match self.registry_lookup.get_tag(&tag_key) {
                        Some(set) => {
                            proof {
                                assert(tagged(set.key_view()) =~= tagged(tag_key));
                            }
                            Ok(ResourceOrTagResultModel::Tag(set))
                        },
                        None => {
                            reader.set_cursor(cursor);
                            proof {
                                reader.lemma_bytes();
                                assert(tagged(tag_key) =~= holder_in_tag(self.registry_view(), tag_id));
                            }
                            Err(ResourceOrTagParseError::UnknownTag { id: tag_id, registry: self.registry_key.copy(), cursor: end })
                        },
                    }
                },
                Err(error) => {
                    reader.set_cursor(cursor);
                    proof {
                        reader.lemma_bytes();
                    }
                    Err(ResourceOrTagParseError::Identifier(error))
                },
            }
        } else {
            let resource_id = match CommandIdentifierModel::read(reader) {
                Ok(id) => id,
                Err(error) => {
                    return Err(ResourceOrTagParseError::Identifier(error));
                },
            };
            let resource_key = ResourceKeyModel::create(self.registry_key.copy(), resource_id.copy());
            match self.registry_lookup.get_resource(&resource_key) {
                Some(holder) => {
                    proof {
                        crate::search::lemma_first_index_from(self.holders(), keyed(resource_key), 0);
                        assert(keyed(holder.key_view()) =~= keyed(resource_key));
                    }
                    Ok(ResourceOrTagResultModel::Resource(holder))
                },
                None => {
                    proof {
                        assert(keyed(resource_key) =~= holder_named(self.registry_view(), resource_id));
                    }
                    Err(ResourceOrTagParseError::UnknownResource {
                        id: resource_id,
                        registry: self.registry_key.copy(),
                        cursor: reader.cursor(),
                    })
                },
            }
        }
    }

    /// The tags, then the elements, of this argument's registry that the typed text matches.
    pub fn list_suggestions(&self, context: &CommandContextModel, remaining: &str) -> (r: Vec<String>)
        ensures
            context.source_view() matches CommandSourceModel::Shared(p) ==> r@.map_values(|s: String| s@)
                == registry_suggestions(p.entries(), self.registry_view(), ElementSuggestionType::All, remaining@),
            context.source_view() is Other ==> r@.len() == 0,
    {
        match &context.source {
            CommandSourceModel::Shared(provider) => provider.suggest_registry_elements(
                &self.registry_key,
                ElementSuggestionType::All,
                remaining,
            ),
            CommandSourceModel::Other => Vec::new(),
        }
    }

    pub fn examples(&self) -> (r: [&'static str; 5])
        ensures
            r@[0]@ == "foo"@,
            r@[1]@ == "foo:bar"@,
            r@[2]@ == "012"@,
            r@[3]@ == "#skeletons"@,
            r@[4]@ == "#minecraft:skeletons"@,
    {
        ["foo", "foo:bar", "012", "#skeletons", "#minecraft:skeletons"]
    }

    pub fn info_template(&self) -> (r: InfoTemplateModel)
        ensures
            r.registry_view().same(&self.registry_view()),
    {
        InfoTemplateModel { registry_key: self.registry_key.copy() }
    }
}

impl InfoTemplateModel {
    pub closed spec fn registry_view(&self) -> CommandIdentifierModel {
        self.registry_key
    }

    pub fn serialize_to_network(&self) -> (r: String)
        ensures
            r@ == self.registry_view().display(),
    {
        self.registry_key.to_string()
    }

    pub fn serialize_to_json_registry(&self) -> (r: String)
        ensures
            r@ == self.registry_view().display(),
    {
        self.registry_key.to_string()
    }

    /// The argument that this template describes, over the build context's registry.
    pub fn instantiate(&self, context: &CommandBuildContextModel) -> (r: ResourceOrTagArgumentModel)
        ensures
            r.registry_view().same(&self.registry_view()),
            holders_same(r.holders(), registry_holders(context.entries(), self.registry_view())),
    {
        let registry_key = self.registry_key.copy();
        proof {
            assert(lookup_named(registry_key) =~= lookup_named(self.registry_view()));
        }
        let registry_lookup = context.lookup_or_throw(&registry_key);
        ResourceOrTagArgumentModel { registry_lookup, registry_key }
    }
}

/// The result bound to `name`, checked to belong to the registry named by
/// `registry_key`; a result of another registry is the error of its kind,
/// naming its identifier, its registry and the expected one.
pub fn get_resource_or_tag(context: &CommandContextModel, name: &str, registry_key: &str) -> (r: Result<ResourceOrTagResultModel, ResourceOrTagLookupError>)
    requires
        parse_identifier(registry_key.spec_bytes()) is Some,
    ensures
        !context.view().contains_key(name@) ==> r == Err::<ResourceOrTagResultModel, ResourceOrTagLookupError>(
            ResourceOrTagLookupError::MissingArgument),
        context.view().contains_key(name@) ==> {
            let a = context.view()[name@];
            if result_registry(a).parses_to(registry_key.spec_bytes()) {
                r matches Ok(x) && result_same(x, a)
            } else {
                match a {
                    ResourceOrTagResultModel::Resource(h) => r matches Err(ResourceOrTagLookupError::InvalidResourceType {
                        id, actual_registry, expected_registry }) && id.same(&h.key_view().identifier_view())
                        && actual_registry.same(&h.key_view().registry_view()) && expected_registry.parses_to(registry_key.spec_bytes()),
                    ResourceOrTagResultModel::Tag(t) => r matches Err(ResourceOrTagLookupError::InvalidTagType {
                        id, actual_registry, expected_registry }) && id.same(&t.key_view().location_view())
                        && actual_registry.same(&t.key_view().registry_view()) && expected_registry.parses_to(registry_key.spec_bytes()),
                }
            }
        },
{
    let expected = parse_or_root(registry_key);
    let argument = match context.arguments.get(name) {
        Some(a) => a,
        None => {
            return Err(ResourceOrTagLookupError::MissingArgument);
        },
    };
    proof {
        lemma_same_as_parsed(result_registry(*argument), expected, registry_key.spec_bytes());
    }
    match argument.cast(&expected) {
        Some(x) => Ok(x),
        None => match argument {
            ResourceOrTagResultModel::Resource(holder) => Err(ResourceOrTagLookupError::InvalidResourceType {
                id: Box::new(holder.key.identifier().copy()),
                actual_registry: Box::new(holder.key.registry().copy()),
                expected_registry: Box::new(expected),
            }),
            ResourceOrTagResultModel::Tag(tag) => Err(ResourceOrTagLookupError::InvalidTagType {
                id: Box::new(tag.key().location().copy()),
                actual_registry: Box::new(tag.key().registry().copy()),
                expected_registry: Box::new(expected),
            }),
        },
    }
}

} // verus!
