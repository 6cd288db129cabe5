//! The `resource_or_tag_key` argument: either a resource key, or a tag key
//! written with a leading `#`, of a fixed registry.

use vstd::prelude::*;
use vstd::string::StringSliceAdditionalSpecFns;
use crate::text::{utf8, push_str};
use crate::arg_map::ArgMap;
use crate::string_reader::lemma_cut_after_ascii;
use crate::search::{last_index, lemma_last_index_step, lemma_last_index_hit, lemma_last_index_whole};
use crate::command_shared_suggestion_provider::{lower_bytes, ascii_lower, resource_matches, resource_bytes_match};
use crate::command_identifier_argument::lemma_same_as_parsed;
use crate::command_resource_key_argument::{key_same, names};
pub use crate::command_resource_key_argument::ResourceKeyModel;
pub use crate::command_identifier_argument::{CommandIdentifierModel, IdentifierArgumentParseError, StringReaderModel,
    identifier_end, parse_identifier};

verus! {

#[derive(Debug, Clone, PartialEq, Eq)]
pub struct ResourceOrTagKeyArgumentModel {
    registry_key: CommandIdentifierModel,
}

#[derive(Debug, Clone, PartialEq, Eq, Hash)]
pub struct TagKeyModel {
    registry: CommandIdentifierModel,
    location: CommandIdentifierModel,
}

#[derive(Debug, Clone, PartialEq, Eq)]
pub enum ResourceOrTagKeyResultModel {
    Resource(ResourceKeyModel),
    Tag(TagKeyModel),
}

#[derive(Debug, Clone, PartialEq, Eq)]
pub struct HolderModel {
    key: ResourceKeyModel,
    tags: Vec<TagKeyModel>,
}

#[derive(Debug, Clone, PartialEq, Eq)]
pub struct InfoTemplateModel {
    registry_key: CommandIdentifierModel,
}

#[derive(Debug, Clone, PartialEq, Eq)]
pub enum ResourceOrTagKeyLookupError {
    MissingArgument,
    Dynamic { exception_name: &'static str, printable: String },
}

#[derive(Debug, Clone, PartialEq, Eq)]
pub struct RegistrySuggestionModel {
    elements: Vec<CommandIdentifierModel>,
    tags: Vec<CommandIdentifierModel>,
}

/// The suggestion registries by key; a later one for a key replaces an earlier one.
#[derive(Debug, Clone, PartialEq, Eq)]
pub struct SharedSuggestionProviderModel {
    registries: Vec<(CommandIdentifierModel, RegistrySuggestionModel)>,
}

#[derive(Debug, Clone, PartialEq, Eq)]
pub enum CommandSourceModel {
    Shared(SharedSuggestionProviderModel),
    Other,
}

pub struct CommandContextModel {
    arguments: ArgMap<ResourceOrTagKeyResultModel>,
    source: CommandSourceModel,
}

#[derive(Debug, Clone, Copy, PartialEq, Eq, Structural)]
pub enum ElementSuggestionType {
    Elements,
    Tags,
    All,
}

/// Two tag keys name the same tag of the same registry.
pub open spec fn tag_same(a: TagKeyModel, b: TagKeyModel) -> bool {
    a.registry_view().same(&b.registry_view()) && a.location_view().same(&b.location_view())
}

/// Two results name the same resource or the same tag.
pub open spec fn result_same(a: ResourceOrTagKeyResultModel, b: ResourceOrTagKeyResultModel) -> bool {
    match (a, b) {
        (ResourceOrTagKeyResultModel::Resource(x), ResourceOrTagKeyResultModel::Resource(y)) => key_same(x, y),
        (ResourceOrTagKeyResultModel::Tag(x), ResourceOrTagKeyResultModel::Tag(y)) => tag_same(x, y),
        _ => false,
    }
}

impl TagKeyModel {
    pub closed spec fn registry_view(&self) -> CommandIdentifierModel {
        self.registry
    }

    pub closed spec fn location_view(&self) -> CommandIdentifierModel {
        self.location
    }

    pub fn create(registry: CommandIdentifierModel, location: CommandIdentifierModel) -> (r: Self)
        ensures
            r.registry_view() == registry,
            r.location_view() == location,
    {
        TagKeyModel { registry, location }
    }

    /// This tag key, when it belongs to `registry`.
    pub fn cast(&self, registry: &CommandIdentifierModel) -> (r: Option<Self>)
        ensures
            r is Some <==> self.registry_view().same(registry),
            r matches Some(k) ==> tag_same(k, *self),
    {
        if self.registry.equals(registry) {
            Some(self.copy())
        } else {
            None
        }
    }

    pub fn registry(&self) -> (r: &CommandIdentifierModel)
        ensures
            *r == self.registry_view(),
    {
        &self.registry
    }

    pub fn is_for(&self, registry: &CommandIdentifierModel) -> (r: bool)
        ensures
            r == self.registry_view().same(registry),
    {
        self.registry.equals(registry)
    }

    pub fn location(&self) -> (r: &CommandIdentifierModel)
        ensures
            *r == self.location_view(),
    {
        &self.location
    }

    pub fn copy(&self) -> (r: Self)
        ensures
            tag_same(r, *self),
    {
        TagKeyModel { registry: self.registry.copy(), location: self.location.copy() }
    }

    pub fn equals(&self, other: &TagKeyModel) -> (r: bool)
        ensures
            r == tag_same(*self, *other),
    {
        self.registry.equals(&other.registry) && self.location.equals(&other.location)
    }
}

impl HolderModel {
    pub closed spec fn key_view(&self) -> ResourceKeyModel {
        self.key
    }

    pub closed spec fn tags_view(&self) -> Seq<TagKeyModel> {
        self.tags@
    }

    /// A holder of the registry `registry` under `identifier`, in the tags
    /// whose locations are given; all of them are valid identifiers.
    pub fn new(registry: &str, identifier: &str, tags: &[&str]) -> (r: Self)
        requires
            parse_identifier(registry.spec_bytes()) is Some,
            parse_identifier(identifier.spec_bytes()) is Some,
            forall|i: int| 0 <= i < tags@.len() ==> parse_identifier((#[trigger] tags@[i]).spec_bytes()) is Some,
        ensures
            r.key_view().registry_view().parses_to(registry.spec_bytes()),
            r.key_view().identifier_view().parses_to(identifier.spec_bytes()),
            r.tags_view().len() == tags@.len(),
            forall|i: int| 0 <= i < tags@.len() ==> {
                &&& (#[trigger] r.tags_view()[i]).registry_view().parses_to(registry.spec_bytes())
                &&& r.tags_view()[i].location_view().parses_to(tags@[i].spec_bytes())
            },
    {
        let reg = match CommandIdentifierModel::parse(registry) {
            Ok(id) => id,
            Err(_) => CommandIdentifierModel::of("minecraft", "root"),
        };
        let id = match CommandIdentifierModel::parse(identifier) {
            Ok(id) => id,
            Err(_) => CommandIdentifierModel::of("minecraft", "root"),
        };
        let mut keys: Vec<TagKeyModel> = Vec::new();
        let mut i: usize = 0;
        while i < tags.len()
            invariant
                0 <= i <= tags@.len(),
                reg.parses_to(registry.spec_bytes()),
                keys@.len() == i,
                forall|k: int| 0 <= k < i ==> {
                    &&& (#[trigger] keys@[k]).registry_view().parses_to(registry.spec_bytes())
                    &&& keys@[k].location_view().parses_to(tags@[k].spec_bytes())
                },
            decreases tags@.len() - i,
        {
            let location = match CommandIdentifierModel::parse(tags[i]) {
                Ok(id) => id,
                Err(_) => CommandIdentifierModel::of("minecraft", "root"),
            };
            keys.push(TagKeyModel::create(reg.copy(), location));
            i = i + 1;
        }
        HolderModel { key: ResourceKeyModel::create(reg, id), tags: keys }
    }

    fn is_key(&self, key: &ResourceKeyModel) -> (r: bool)
        ensures
            r == key_same(self.key_view(), *key),
    {
        self.key.equals(key)
    }

    fn is_tag(&self, key: &TagKeyModel) -> (r: bool)
        ensures
            r == exists|i: int| 0 <= i < self.tags_view().len() && tag_same(#[trigger] self.tags_view()[i], *key),
    {
        let mut i: usize = 0;
        while i < self.tags.len()
            invariant
                0 <= i <= self.tags@.len(),
                forall|k: int| 0 <= k < i ==> !tag_same(#[trigger] self.tags@[k], *key),
            decreases self.tags@.len() - i,
        {
            if self.tags[i].equals(key) {
                assert(tag_same(self.tags_view()[i as int], *key));
                return true;
            }
            i = i + 1;
        }
        false
    }
}

/// The registry of the result's key.
pub open spec fn result_registry(r: ResourceOrTagKeyResultModel) -> CommandIdentifierModel {
    match r {
        ResourceOrTagKeyResultModel::Resource(k) => k.registry_view(),
        ResourceOrTagKeyResultModel::Tag(k) => k.registry_view(),
    }
}

/// `#namespace:path` of a tag, or `namespace:path` of a resource.
pub open spec fn printable(r: ResourceOrTagKeyResultModel) -> Seq<char> {
    match r {
        ResourceOrTagKeyResultModel::Resource(k) => k.identifier_view().display(),
        ResourceOrTagKeyResultModel::Tag(k) => "#"@ + k.location_view().display(),
    }
}

impl ResourceOrTagKeyResultModel {
    /// The resource key, or the tag key as the error.
    pub fn unwrap(&self) -> (r: Result<ResourceKeyModel, TagKeyModel>)
        ensures
            *self matches ResourceOrTagKeyResultModel::Resource(k) ==> r matches Ok(x) && key_same(x, k),
            *self matches ResourceOrTagKeyResultModel::Tag(k) ==> r matches Err(x) && tag_same(x, k),
    {
        match self {
            ResourceOrTagKeyResultModel::Resource(key) => Ok(key.copy()),
            ResourceOrTagKeyResultModel::Tag(key) => Err(key.copy()),
        }
    }

    /// This result, when its key belongs to `registry_key`.
    pub fn cast(&self, registry_key: &CommandIdentifierModel) -> (r: Option<Self>)
        ensures
            r is Some <==> result_registry(*self).same(registry_key),
            r matches Some(x) ==> result_same(x, *self),
    {
        match self {
            ResourceOrTagKeyResultModel::Resource(key) => match key.cast(registry_key) {
                Some(k) => Some(ResourceOrTagKeyResultModel::Resource(k)),
                None => None,
            },
            ResourceOrTagKeyResultModel::Tag(key) => match key.cast(registry_key) {
                Some(k) => Some(ResourceOrTagKeyResultModel::Tag(k)),
                None => None,
            },
        }
    }

    /// A resource key admits its own holder; a tag key admits the holders in the tag.
    pub fn test(&self, holder: &HolderModel) -> (r: bool)
        ensures
            *self matches ResourceOrTagKeyResultModel::Resource(k) ==> r == key_same(holder.key_view(), k),
            *self matches ResourceOrTagKeyResultModel::Tag(k) ==> r == exists|i: int|
                0 <= i < holder.tags_view().len() && tag_same(#[trigger] holder.tags_view()[i], k),
    {
        match self {
            ResourceOrTagKeyResultModel::Resource(key) => holder.is_key(key),
            ResourceOrTagKeyResultModel::Tag(key) => holder.is_tag(key),
        }
    }

    pub fn as_printable(&self) -> (r: String)
        ensures
            r@ == printable(*self),
    {
        match self {
            ResourceOrTagKeyResultModel::Resource(key) => key.identifier().to_string(),
            ResourceOrTagKeyResultModel::Tag(key) => {
                let mut s = "#".to_owned();
                let text = key.location.to_string();
                push_str(&mut s, text.as_str());
                s
            },
        }
    }

    fn copy(&self) -> (r: Self)
        ensures
            result_same(r, *self),
    {
        match self {
            ResourceOrTagKeyResultModel::Resource(key) => ResourceOrTagKeyResultModel::Resource(key.copy()),
            ResourceOrTagKeyResultModel::Tag(key) => ResourceOrTagKeyResultModel::Tag(key.copy()),
        }
    }
}

impl ElementSuggestionType {
    pub open spec fn spec_should_suggest_tags(self) -> bool {
        self is Tags || self is All
    }

    pub open spec fn spec_should_suggest_elements(self) -> bool {
        self is Elements || self is All
    }

    pub fn should_suggest_tags(self) -> (r: bool)
        ensures
            r == self.spec_should_suggest_tags(),
    {
        match self {
            ElementSuggestionType::Tags | ElementSuggestionType::All => true,
            ElementSuggestionType::Elements => false,
        }
    }

    pub fn should_suggest_elements(self) -> (r: bool)
        ensures
            r == self.spec_should_suggest_elements(),
    {
        match self {
            ElementSuggestionType::Elements | ElementSuggestionType::All => true,
            ElementSuggestionType::Tags => false,
        }
    }
}

/// Lower-cased typed bytes match a tag: anything matches empty text; else
/// the text starts with `#` and the rest matches the tag's location.
pub open spec fn tag_bytes_match(contents: Seq<u8>, ns: Seq<char>, path: Seq<char>) -> bool {
    contents.len() == 0 || (contents[0] == 35u8 && resource_bytes_match(contents.subrange(1, contents.len() as int), ns, path))
}

/// The suggestions for identifiers, tags written with `#`, in order.
pub open spec fn ids_suggested(ids: Seq<(Seq<char>, Seq<char>)>, contents: Seq<u8>, as_tags: bool) -> Seq<Seq<char>>
    decreases ids.len(),
{
    if ids.len() == 0 {
        seq![]
    } else {
        let rest = ids_suggested(ids.drop_last(), contents, as_tags);
        let (ns, path) = ids.last();
        if as_tags {
            if tag_bytes_match(contents, ns, path) { rest.push("#"@ + ns + ":"@ + path) } else { rest }
        } else {
            if resource_bytes_match(contents, ns, path) { rest.push(ns + ":"@ + path) } else { rest }
        }
    }
}

pub open spec fn parts_of(ids: Seq<CommandIdentifierModel>) -> Seq<(Seq<char>, Seq<char>)> {
    ids.map_values(|i: CommandIdentifierModel| (i.namespace_view(), i.path_view()))
}

fn rest_bytes(contents: &Vec<u8>) -> (r: Vec<u8>)
    requires
        contents@.len() > 0,
    ensures
        r@ == contents@.subrange(1, contents@.len() as int),
{
    let mut out: Vec<u8> = Vec::new();
    let mut i: usize = 1;
    while i < contents.len()
        invariant
            1 <= i <= contents@.len(),
            out@ == contents@.subrange(1, i as int),
        decreases contents@.len() - i,
    {
        out.push(contents[i]);
        i = i + 1;
        assert(out@ =~= contents@.subrange(1, i as int));
    }
    out
}

pub fn suggest_ids(ids: &Vec<CommandIdentifierModel>, contents: &Vec<u8>, as_tags: bool) -> (r: Vec<String>)
    ensures
        r@.map_values(|s: String| s@) == ids_suggested(parts_of(ids@), contents@, as_tags),
{
    let ghost parts = parts_of(ids@);
    let empty = contents.len() == 0;
    let hash = !empty && contents[0] == 35;
    let rest = if hash { rest_bytes(contents) } else { Vec::new() };
    let mut out: Vec<String> = Vec::new();
    let mut i: usize = 0;
    while i < ids.len()
        invariant
            0 <= i <= ids@.len(),
            parts == parts_of(ids@),
            empty == (contents@.len() == 0),
            hash == (contents@.len() > 0 && contents@[0] == 35u8),
            hash ==> rest@ == contents@.subrange(1, contents@.len() as int),
            out@.map_values(|s: String| s@) == ids_suggested(parts.subrange(0, i as int), contents@, as_tags),
        decreases ids@.len() - i,
    {
        let id = &ids[i];
        assert(parts.subrange(0, i + 1).drop_last() =~= parts.subrange(0, i as int));
        assert(parts.subrange(0, i + 1).last() == (id.namespace_view(), id.path_view()));
        let ghost before = out@;
        if as_tags {
            let ok = empty || (hash && resource_matches(&rest, id));
            if ok {
                let mut s = "#".to_owned();
                let text = id.to_string();
                push_str(&mut s, text.as_str());
                assert(s@ =~= "#"@ + id.namespace_view() + ":"@ + id.path_view());
                out.push(s);
                assert(out@.map_values(|s: String| s@) =~= before.map_values(|s: String| s@).push(
                    "#"@ + id.namespace_view() + ":"@ + id.path_view()));
            }
        } else {
            if resource_matches(contents, id) {
                let s = id.to_string();
                out.push(s);
                assert(out@.map_values(|s: String| s@) =~= before.map_values(|s: String| s@).push(s@));
            }
        }
        i = i + 1;
    }
    assert(parts.subrange(0, ids@.len() as int) =~= parts);
    out
}

impl RegistrySuggestionModel {
    pub closed spec fn elements_view(&self) -> Seq<CommandIdentifierModel> {
        self.elements@
    }

    pub closed spec fn tags_view(&self) -> Seq<CommandIdentifierModel> {
        self.tags@
    }
}

/// Registry entries for the registry `reg`.
pub open spec fn suggestion_registry_named(reg: CommandIdentifierModel) -> spec_fn((CommandIdentifierModel, RegistrySuggestionModel)) -> bool {
    |e: (CommandIdentifierModel, RegistrySuggestionModel)| e.0.same(&reg)
}

/// The suggestions of the registry `reg` for the typed text: its tags when
/// tags are asked for, then its elements when elements are; none when the
/// registry is not there.
pub open spec fn registry_suggestions(
    entries: Seq<(CommandIdentifierModel, RegistrySuggestionModel)>,
    reg: CommandIdentifierModel,
    element_type: ElementSuggestionType,
    remaining: Seq<char>,
) -> Seq<Seq<char>> {
    let i = last_index(entries, suggestion_registry_named(reg));
    let contents = ascii_lower(utf8(remaining));
    if i < 0 {
        seq![]
    } else {
        let tags = if element_type.spec_should_suggest_tags() {
            ids_suggested(parts_of(entries[i].1.tags_view()), contents, true)
        } else {
            seq![]
        };
        let elements = if element_type.spec_should_suggest_elements() {
            ids_suggested(parts_of(entries[i].1.elements_view()), contents, false)
        } else {
            seq![]
        };
        tags + elements
    }
}

pub fn append_texts(out: &mut Vec<String>, more: Vec<String>)
    ensures
        final(out)@.map_values(|s: String| s@) == old(out)@.map_values(|s: String| s@) + more@.map_values(|s: String| s@),
{
    let mut more = more;
    let ghost m = more@;
    out.append(&mut more);
    assert(out@ == old(out)@ + m);
    assert(out@.map_values(|s: String| s@) =~= old(out)@.map_values(|s: String| s@) + m.map_values(|s: String| s@));
}

impl SharedSuggestionProviderModel {
    pub closed spec fn entries(&self) -> Seq<(CommandIdentifierModel, RegistrySuggestionModel)> {
        self.registries@
    }

    /// Adds the registry `registry` with its elements and tags; it replaces
    /// an earlier registry of that key.
    pub fn with_registry(self, registry: &str, elements: &[&str], tags: &[&str]) -> (r: Self)
        requires
            parse_identifier(registry.spec_bytes()) is Some,
            forall|i: int| 0 <= i < elements@.len() ==> parse_identifier((#[trigger] elements@[i]).spec_bytes()) is Some,
            forall|i: int| 0 <= i < tags@.len() ==> parse_identifier((#[trigger] tags@[i]).spec_bytes()) is Some,
        ensures
            r.entries().len() == self.entries().len() + 1,
            r.entries().subrange(0, self.entries().len() as int) == self.entries(),
            r.entries().last().0.parses_to(registry.spec_bytes()),
            r.entries().last().1.elements_view().len() == elements@.len(),
            forall|i: int| 0 <= i < elements@.len() ==> (#[trigger] r.entries().last().1.elements_view()[i]).parses_to(elements@[i].spec_bytes()),
            r.entries().last().1.tags_view().len() == tags@.len(),
            forall|i: int| 0 <= i < tags@.len() ==> (#[trigger] r.entries().last().1.tags_view()[i]).parses_to(tags@[i].spec_bytes()),
    {
        let registry_key = match CommandIdentifierModel::parse(registry) {
            Ok(id) => id,
            Err(_) => {
                return self;
            },
        };
        let element_ids = parse_all(elements);
        let tag_ids = parse_all(tags);
        let mut registries = self.registries;
        let ghost before = registries@;
        registries.push((registry_key, RegistrySuggestionModel { elements: element_ids, tags: tag_ids }));
        assert(registries@.subrange(0, before.len() as int) =~= before);
        SharedSuggestionProviderModel { registries }
    }

    fn lookup(&self, reg: &CommandIdentifierModel) -> (r: Option<&RegistrySuggestionModel>)
        ensures
            ({
                let i = last_index(self.entries(), suggestion_registry_named(*reg));
                if i >= 0 { r == Some(&self.entries()[i].1) } else { r is None }
            }),
    {
        let ghost p = suggestion_registry_named(*reg);
        let ghost s = self.registries@;
        proof {
            lemma_last_index_whole(s, p);
        }
        let mut i: usize = self.registries.len();
        while i > 0
            invariant
                0 <= i <= s.len(),
                s == self.registries@,
                last_index(s.subrange(0, i as int), p) == last_index(s, p),
            decreases i,
        {
            if self.registries[i - 1].0.equals(reg) {
                proof {
                    lemma_last_index_hit(s, p, i as int);
                }
                return Some(&self.registries[i - 1].1);
            }
            proof {
                lemma_last_index_step(s, p, i as int);
            }
            i = i - 1;
        }
        assert(s.subrange(0, 0) =~= Seq::<(CommandIdentifierModel, RegistrySuggestionModel)>::empty());
        None
    }

    fn suggest_registry_elements(&self, registry: &CommandIdentifierModel, element_type: ElementSuggestionType, remaining: &str) -> (r: Vec<String>)
        ensures
            r@.map_values(|s: String| s@) == registry_suggestions(self.entries(), *registry, element_type, remaining@),
    {
        let found = self.lookup(registry);
        let reg = match found {
            Some(reg) => reg,
            None => {
                let out: Vec<String> = Vec::new();
                assert(out@.map_values(|s: String| s@) =~= Seq::<Seq<char>>::empty());
                return out;
            },
        };
        let contents = lower_bytes(remaining);
        let mut suggestions: Vec<String> = Vec::new();
        assert(suggestions@.map_values(|s: String| s@) =~= Seq::<Seq<char>>::empty());
        if element_type.should_suggest_tags() {
            let tags = suggest_ids(&reg.tags, &contents, true);
            append_texts(&mut suggestions, tags);
        }
        let ghost mid = suggestions@.map_values(|s: String| s@);
        if element_type.should_suggest_elements() {
            let elements = suggest_ids(&reg.elements, &contents, false);
            append_texts(&mut suggestions, elements);
        }
        proof {
            if !element_type.spec_should_suggest_elements() {
                assert(mid + Seq::<Seq<char>>::empty() =~= mid);
            }
            if !element_type.spec_should_suggest_tags() {
                assert(Seq::<Seq<char>>::empty() + suggestions@.map_values(|s: String| s@) =~= suggestions@.map_values(|s: String| s@));
            }
        }
        suggestions
    }
}

fn parse_all(values: &[&str]) -> (r: Vec<CommandIdentifierModel>)
    requires
        forall|i: int| 0 <= i < values@.len() ==> parse_identifier((#[trigger] values@[i]).spec_bytes()) is Some,
    ensures
        r@.len() == values@.len(),
        forall|i: int| 0 <= i < values@.len() ==> (#[trigger] r@[i]).parses_to(values@[i].spec_bytes()),
{
    let mut out: Vec<CommandIdentifierModel> = Vec::new();
    let mut i: usize = 0;
    while i < values.len()
        invariant
            0 <= i <= values@.len(),
            out@.len() == i,
            forall|k: int| 0 <= k < i ==> (#[trigger] out@[k]).parses_to(values@[k].spec_bytes()),
        decreases values@.len() - i,
    {
        let id = match CommandIdentifierModel::parse(values[i]) {
            Ok(id) => id,
            Err(_) => CommandIdentifierModel::of("minecraft", "root"),
        };
        out.push(id);
        i = i + 1;
    }
    out
}

impl Default for SharedSuggestionProviderModel {
    fn default() -> (r: Self)
        ensures
            r.entries().len() == 0,
    {
        SharedSuggestionProviderModel { registries: Vec::new() }
    }
}

impl CommandContextModel {
    pub closed spec fn view(&self) -> Map<Seq<char>, ResourceOrTagKeyResultModel> {
        self.arguments.view()
    }

    pub closed spec fn source_view(&self) -> CommandSourceModel {
        self.source
    }

    pub fn with_result(self, name: &str, result: ResourceOrTagKeyResultModel) -> (r: Self)
        ensures
            r.view() == self.view().insert(name@, result),
            r.source_view() == self.source_view(),
    {
        let mut arguments = self.arguments;
        arguments.insert(name.to_owned(), result);
        CommandContextModel { arguments, source: self.source }
    }

    pub fn with_source(self, source: CommandSourceModel) -> (r: Self)
        ensures
            r.view() == self.view(),
            r.source_view() == source,
    {
        CommandContextModel { arguments: self.arguments, source }
    }
}

impl Default for CommandContextModel {
    fn default() -> (r: Self)
        ensures
            r.view() == Map::<Seq<char>, ResourceOrTagKeyResultModel>::empty(),
            r.source_view() is Other,
    {
        CommandContextModel { arguments: ArgMap::new(), source: CommandSourceModel::Other }
    }
}

impl ResourceOrTagKeyArgumentModel {
    pub closed spec fn registry_view(&self) -> CommandIdentifierModel {
        self.registry_key
    }

    /// The argument for resource or tag keys of the registry named by `registry_key`.
    pub fn resource_or_tag_key(registry_key: &str) -> (r: Self)
        requires
            parse_identifier(registry_key.spec_bytes()) is Some,
        ensures
            r.registry_view().parses_to(registry_key.spec_bytes()),
    {
        match CommandIdentifierModel::parse(registry_key) {
            Ok(id) => ResourceOrTagKeyArgumentModel { registry_key: id },
            Err(_) => ResourceOrTagKeyArgumentModel { registry_key: CommandIdentifierModel::of("minecraft", "root") },
        }
    }

    /// With a leading `#`, reads a tag key (on failure the cursor goes back
    /// to the `#`); else reads a resource key.
    pub fn parse(&self, reader: &mut StringReaderModel) -> (r: Result<ResourceOrTagKeyResultModel, IdentifierArgumentParseError>)
        requires
            old(reader).at_cut(),
        ensures
            final(reader).text() == old(reader).text(),
            final(reader).at_cut(),
            ({
                let v = old(reader).bytes();
                let p = old(reader).pos();
                if p < v.len() && v[p] == 35u8 {
                    let end = identifier_end(v, p + 1);
                    let tok = v.subrange(p + 1, end);
                    match r {
                        Ok(t) => t matches ResourceOrTagKeyResultModel::Tag(k) && k.location_view().parses_to(tok)
                            && k.registry_view().same(&self.registry_view()) && final(reader).pos() == end,
                        Err(_) => parse_identifier(tok) is None && final(reader).pos() == p,
                    }
                } else {
                    let end = identifier_end(v, p);
                    let tok = v.subrange(p, end);
                    match r {
                        Ok(t) => t matches ResourceOrTagKeyResultModel::Resource(k) && k.identifier_view().parses_to(tok)
                            && k.registry_view().same(&self.registry_view()) && final(reader).pos() == end,
                        Err(_) => parse_identifier(tok) is None && final(reader).pos() == p,
                    }
                }
            }),
    {
        proof {
            reader.lemma_bytes();
        }
        if reader.can_read() && reader.peek_byte() == 35 {
            let cursor = reader.cursor();
            reader.skip();
            proof {
                reader.lemma_bytes();
                lemma_cut_after_ascii(reader.bytes(), reader.pos());
            }
            match CommandIdentifierModel::read(reader) {
                Ok(tag_id) => Ok(ResourceOrTagKeyResultModel::Tag(TagKeyModel::create(self.registry_key.copy(), tag_id))),
                Err(error) => {
                    reader.set_cursor(cursor);
                    proof {
                        reader.lemma_bytes();
                    }
                    Err(error)
                },
            }
        } else {
            let resource_id = CommandIdentifierModel::read(reader)?;
            Ok(ResourceOrTagKeyResultModel::Resource(ResourceKeyModel::create(self.registry_key.copy(), resource_id)))
        }
    }

    /// The tags, then the elements, of this argument's registry that the typed text matches.
    pub fn list_suggestions(&self, context: &CommandContextModel, remaining: &str) -> (r: Vec<String>)
        ensures
            context.source_view() matches CommandSourceModel::Shared(p) ==> r@.map_values(|s: String| s@)
                == registry_suggestions(p.entries(), self.registry_view(), ElementSuggestionType::All, remaining@),
            context.source_view() is Other ==> r@.len() == 0,
    {
        match &context.source {
            CommandSourceModel::Shared(provider) => provider.suggest_registry_elements(
                &self.registry_key,
                ElementSuggestionType::All,
                remaining,
            ),
            CommandSourceModel::Other => Vec::new(),
        }
    }

    pub fn examples(&self) -> (r: [&'static str; 5])
        ensures
            r@[0]@ == "foo"@,
            r@[1]@ == "foo:bar"@,
            r@[2]@ == "012"@,
            r@[3]@ == "#skeletons"@,
            r@[4]@ == "#minecraft:skeletons"@,
    {
        ["foo", "foo:bar", "012", "#skeletons", "#minecraft:skeletons"]
    }

    pub fn info_template(&self) -> (r: InfoTemplateModel)
        ensures
            r.registry_view().same(&self.registry_view()),
    {
        InfoTemplateModel { registry_key: self.registry_key.copy() }
    }
}

impl InfoTemplateModel {
    pub closed spec fn registry_view(&self) -> CommandIdentifierModel {
        self.registry_key
    }

    pub fn serialize_to_network(&self) -> (r: String)
        ensures
            r@ == self.registry_view().display(),
    {
        self.registry_key.to_string()
    }

    pub fn serialize_to_json_registry(&self) -> (r: String)
        ensures
            r@ == self.registry_view().display(),
    {
        self.registry_key.to_string()
    }

    pub fn instantiate(&self) -> (r: ResourceOrTagKeyArgumentModel)
        ensures
            r.registry_view().same(&self.registry_view()),
    {
        ResourceOrTagKeyArgumentModel { registry_key: self.registry_key.copy() }
    }
}

/// The result bound to `name`, checked to belong to the registry named by
/// `registry_key`; a result of another registry is the dynamic error named
/// `exception_name`, which shows the result.
pub fn get_resource_or_tag_key(
    context: &CommandContextModel,
    name: &str,
    registry_key: &str,
    exception_name: &'static str,
) -> (r: Result<ResourceOrTagKeyResultModel, ResourceOrTagKeyLookupError>)
    requires
        parse_identifier(registry_key.spec_bytes()) is Some,
    ensures
        !context.view().contains_key(name@) ==> r == Err::<ResourceOrTagKeyResultModel, ResourceOrTagKeyLookupError>(
            ResourceOrTagKeyLookupError::MissingArgument),
        context.view().contains_key(name@) ==> {
            let a = context.view()[name@];
            if result_registry(a).parses_to(registry_key.spec_bytes()) {
                r matches Ok(x) && result_same(x, a)
            } else {
                r matches Err(ResourceOrTagKeyLookupError::Dynamic { exception_name: e, printable: s })
                    && e@ == exception_name@ && s@ == printable(a)
            }
        },
{
    let expected = match CommandIdentifierModel::parse(registry_key) {
        Ok(id) => id,
        Err(_) => {
            return Err(ResourceOrTagKeyLookupError::MissingArgument);
        },
    };
    let argument = match context.arguments.get(name) {
        Some(a) => a,
        None => {
            return Err(ResourceOrTagKeyLookupError::MissingArgument);
        },
    };
    proof {
        lemma_same_as_parsed(result_registry(*argument), expected, registry_key.spec_bytes());
    }
    match argument.cast(&expected) {
        Some(x) => Ok(x),
        None => Err(ResourceOrTagKeyLookupError::Dynamic { exception_name, printable: argument.as_printable() }),
    }
}

} // verus!
