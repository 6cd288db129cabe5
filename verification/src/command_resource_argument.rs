//! The `resource` argument: an element of a fixed registry, resolved against
//! the registry's holders when the command is parsed, and the typed getters
//! that commands use to read such an argument back.

use vstd::prelude::*;
use vstd::string::StringSliceAdditionalSpecFns;
use crate::arg_map::ArgMap;
use crate::search::{last_index, first_index, first_index_from, lemma_first_index_from, lemma_last_index_step,
    lemma_last_index_hit, lemma_last_index_whole};
use crate::command_shared_suggestion_provider::{suggest_identifiers, resources_offered, id_parts};
use crate::command_identifier_argument::lemma_same_as_parsed;
use crate::command_resource_key_argument::{key_same, names};
pub use crate::command_resource_key_argument::ResourceKeyModel;
pub use crate::command_resource_or_tag_key_argument::ElementSuggestionType;
pub use crate::command_identifier_argument::{CommandIdentifierModel, IdentifierArgumentParseError, StringReaderModel,
    identifier_end, parse_identifier};

verus! {

#[derive(Debug, Clone, Copy, PartialEq, Eq, Structural)]
pub enum ResourceValueKind {
    Attribute,
    ConfiguredFeature,
    Structure,
    EntityType,
    MobEffect,
    Enchantment,
    WorldClock,
    Timeline,
}

#[derive(Debug, Clone, Copy, PartialEq, Eq, Structural)]
pub struct ResourceValueModel {
    kind: ResourceValueKind,
    can_summon: bool,
}

#[derive(Debug, Clone, PartialEq, Eq)]
pub struct HolderReferenceModel {
    key: ResourceKeyModel,
    value: ResourceValueModel,
}

#[derive(Debug, Clone, PartialEq, Eq)]
pub struct HolderLookupModel {
    elements: Vec<HolderReferenceModel>,
}

#[derive(Debug, Clone, PartialEq, Eq)]
pub struct ResourceArgumentModel {
    registry_key: CommandIdentifierModel,
    registry_lookup: HolderLookupModel,
}

/// The registries by key; a later one for a key replaces an earlier one.
#[derive(Debug, Clone, PartialEq, Eq)]
pub struct CommandBuildContextModel {
    registries: Vec<(CommandIdentifierModel, HolderLookupModel)>,
}

#[derive(Debug, Clone, PartialEq, Eq)]
pub struct SharedSuggestionProviderModel {
    registries: Vec<(CommandIdentifierModel, HolderLookupModel)>,
}

#[derive(Debug, Clone, PartialEq, Eq)]
pub enum CommandSourceModel {
    Shared(SharedSuggestionProviderModel),
    Other,
}

pub struct CommandContextModel {
    arguments: ArgMap<HolderReferenceModel>,
    source: CommandSourceModel,
}

#[derive(Debug, Clone, PartialEq, Eq)]
pub struct InfoTemplateModel {
    registry_key: CommandIdentifierModel,
}

#[derive(Debug, Clone, PartialEq, Eq)]
pub enum ResourceArgumentParseError {
    Identifier(IdentifierArgumentParseError),
    UnknownResource { id: CommandIdentifierModel, registry: CommandIdentifierModel, cursor: usize },
}

#[derive(Debug, Clone, PartialEq, Eq)]
pub enum ResourceLookupError {
    MissingArgument,
    InvalidResourceType {
        id: Box<CommandIdentifierModel>,
        actual_registry: Box<CommandIdentifierModel>,
        expected_registry: Box<CommandIdentifierModel>,
    },
    NotSummonableEntity(String),
}

impl ResourceValueModel {
    pub closed spec fn kind_view(&self) -> ResourceValueKind {
        self.kind
    }

    pub closed spec fn summonable(&self) -> bool {
        self.can_summon
    }

    /// A value of the given kind that can be summoned.
    pub fn simple(kind: ResourceValueKind) -> (r: Self)
        ensures
            r.kind_view() == kind,
            r.summonable(),
    {
        ResourceValueModel { kind, can_summon: true }
    }

    /// An entity type, summonable or not.
    pub fn entity_type(can_summon: bool) -> (r: Self)
        ensures
            r.kind_view() == ResourceValueKind::EntityType,
            r.summonable() == can_summon,
    {
        ResourceValueModel { kind: ResourceValueKind::EntityType, can_summon }
    }

    pub fn kind(&self) -> (r: ResourceValueKind)
        ensures
            r == self.kind_view(),
    {
        self.kind
    }
}

/// Two holders have the same key and value.
pub open spec fn holder_same(a: HolderReferenceModel, b: HolderReferenceModel) -> bool {
    key_same(a.key_view(), b.key_view()) && a.value_view() == b.value_view()
}

pub open spec fn holders_same(a: Seq<HolderReferenceModel>, b: Seq<HolderReferenceModel>) -> bool {
    a.len() == b.len() && forall|i: int| 0 <= i < a.len() ==> holder_same(#[trigger] a[i], b[i])
}

pub open spec fn keyed(key: ResourceKeyModel) -> spec_fn(HolderReferenceModel) -> bool {
    |h: HolderReferenceModel| key_same(h.key_view(), key)
}

impl HolderReferenceModel {
    pub closed spec fn key_view(&self) -> ResourceKeyModel {
        self.key
    }

    pub closed spec fn value_view(&self) -> ResourceValueModel {
        self.value
    }

    pub fn key(&self) -> (r: &ResourceKeyModel)
        ensures
            *r == self.key_view(),
    {
        &self.key
    }

    pub fn value(&self) -> (r: &ResourceValueModel)
        ensures
            *r == self.value_view(),
    {
        &self.value
    }

    fn copy(&self) -> (r: Self)
        ensures
            holder_same(r, *self),
    {
        HolderReferenceModel { key: self.key.copy(), value: self.value }
    }
}

impl HolderLookupModel {
    pub closed spec fn elements_view(&self) -> Seq<HolderReferenceModel> {
        self.elements@
    }

    /// The first holder under `key`.
    fn get(&self, key: &ResourceKeyModel) -> (r: Option<HolderReferenceModel>)
        ensures
            ({
                let i = first_index(self.elements_view(), keyed(*key));
                if i >= 0 { r matches Some(h) && holder_same(h, self.elements_view()[i]) } else { r is None }
            }),
    {
        let ghost p = keyed(*key);
        let mut i: usize = 0;
        while i < self.elements.len()
            invariant
                0 <= i <= self.elements@.len(),
                first_index_from(self.elements@, p, i as int) == first_index(self.elements@, p),
            decreases self.elements@.len() - i,
        {
            if self.elements[i].key.equals(key) {
                return Some(self.elements[i].copy());
            }
            i = i + 1;
        }
        None
    }

    fn copy(&self) -> (r: Self)
        ensures
            holders_same(r.elements_view(), self.elements_view()),
    {
        let mut out: Vec<HolderReferenceModel> = Vec::new();
        let mut i: usize = 0;
        while i < self.elements.len()
            invariant
                0 <= i <= self.elements@.len(),
                out@.len() == i,
                forall|k: int| 0 <= k < i ==> holder_same(#[trigger] out@[k], self.elements@[k]),
            decreases self.elements@.len() - i,
        {
            out.push(self.elements[i].copy());
            i = i + 1;
        }
        HolderLookupModel { elements: out }
    }

    /// The identifiers of the holders, in order.
    fn element_ids(&self) -> (r: Vec<CommandIdentifierModel>)
        ensures
            id_parts(r@) == id_parts(element_ids(self.elements_view())),
    {
        let mut ids: Vec<CommandIdentifierModel> = Vec::new();
        let mut i: usize = 0;
        while i < self.elements.len()
            invariant
                0 <= i <= self.elements@.len(),
                ids@.len() == i,
                forall|k: int| 0 <= k < i ==> (#[trigger] ids@[k]).same(&self.elements@[k].key_view().identifier_view()),
            decreases self.elements@.len() - i,
        {
            ids.push(self.elements[i].key.identifier().copy());
            i = i + 1;
        }
        assert(id_parts(ids@) =~= id_parts(element_ids(self.elements_view())));
        ids
    }
}

/// The identifiers of the holders, in order.
pub open spec fn element_ids(elems: Seq<HolderReferenceModel>) -> Seq<CommandIdentifierModel> {
    elems.map_values(|h: HolderReferenceModel| h.key_view().identifier_view())
}

pub open spec fn lookup_named(reg: CommandIdentifierModel) -> spec_fn((CommandIdentifierModel, HolderLookupModel)) -> bool {
    |e: (CommandIdentifierModel, HolderLookupModel)| e.0.same(&reg)
}

/// The holders of registry `reg`, or none when it is not there.
pub open spec fn registry_holders(entries: Seq<(CommandIdentifierModel, HolderLookupModel)>, reg: CommandIdentifierModel) -> Seq<HolderReferenceModel> {
    let i = last_index(entries, lookup_named(reg));
    if i >= 0 { entries[i].1.elements_view() } else { seq![] }
}

fn lookup_in<'a>(registries: &'a Vec<(CommandIdentifierModel, HolderLookupModel)>, reg: &CommandIdentifierModel) -> (r: Option<&'a HolderLookupModel>)
    ensures
        ({
            let i = last_index(registries@, lookup_named(*reg));
            if i >= 0 { r == Some(&registries@[i].1) } else { r is None }
        }),
{
    let ghost p = lookup_named(*reg);
    let ghost s = registries@;
    proof {
        lemma_last_index_whole(s, p);
    }
    let mut i: usize = registries.len();
    while i > 0
        invariant
            0 <= i <= s.len(),
            s == registries@,
            last_index(s.subrange(0, i as int), p) == last_index(s, p),
        decreases i,
    {
        if registries[i - 1].0.equals(reg) {
            proof {
                lemma_last_index_hit(s, p, i as int);
            }
            return Some(&registries[i - 1].1);
        }
        proof {
            lemma_last_index_step(s, p, i as int);
        }
        i = i - 1;
    }
    assert(s.subrange(0, 0) =~= Seq::<(CommandIdentifierModel, HolderLookupModel)>::empty());
    None
}

fn parse_or_root(value: &str) -> (r: CommandIdentifierModel)
    ensures
        parse_identifier(value.spec_bytes()) is Some ==> r.parses_to(value.spec_bytes()),
{
    match CommandIdentifierModel::parse(value) {
        Ok(id) => id,
        Err(_) => CommandIdentifierModel::of("minecraft", "root"),
    }
}

impl CommandBuildContextModel {
    pub closed spec fn entries(&self) -> Seq<(CommandIdentifierModel, HolderLookupModel)> {
        self.registries@
    }

    /// Adds the registry `registry` with the given elements and their
    /// values; it replaces an earlier registry of that key.
    pub fn with_registry(self, registry: &str, elements: &[(&str, ResourceValueModel)]) -> (r: Self)
        requires
            parse_identifier(registry.spec_bytes()) is Some,
            forall|i: int| 0 <= i < elements@.len() ==> parse_identifier((#[trigger] elements@[i]).0.spec_bytes()) is Some,
        ensures
            r.entries().len() == self.entries().len() + 1,
            r.entries().subrange(0, self.entries().len() as int) == self.entries(),
            r.entries().last().0.parses_to(registry.spec_bytes()),
            r.entries().last().1.elements_view().len() == elements@.len(),
            forall|i: int| 0 <= i < elements@.len() ==> {
                let h = #[trigger] r.entries().last().1.elements_view()[i];
                &&& h.key_view().registry_view().parses_to(registry.spec_bytes())
                &&& h.key_view().identifier_view().parses_to(elements@[i].0.spec_bytes())
                &&& h.value_view() == elements@[i].1
            },
    {
        let registry_key = parse_or_root(registry);
        let mut holders: Vec<HolderReferenceModel> = Vec::new();
        let mut i: usize = 0;
        while i < elements.len()
            invariant
                0 <= i <= elements@.len(),
                registry_key.parses_to(registry.spec_bytes()),
                holders@.len() == i,
                forall|m: int| 0 <= m < i ==> {
                    let h = #[trigger] holders@[m];
                    &&& h.key_view().registry_view().parses_to(registry.spec_bytes())
                    &&& h.key_view().identifier_view().parses_to(elements@[m].0.spec_bytes())
                    &&& h.value_view() == elements@[m].1
                },
            decreases elements@.len() - i,
        {
            let (id_text, value) = elements[i];
            holders.push(HolderReferenceModel { key: ResourceKeyModel::create(registry_key.copy(), parse_or_root(id_text)), value });
            i = i + 1;
        }
        let mut registries = self.registries;
        let ghost before = registries@;
        registries.push((registry_key, HolderLookupModel { elements: holders }));
        assert(registries@.subrange(0, before.len() as int) =~= before);
        CommandBuildContextModel { registries }
    }

    /// The holders of `registry`, or an empty lookup when it is not there.
    fn lookup_or_throw(&self, registry: &CommandIdentifierModel) -> (r: HolderLookupModel)
        ensures
            holders_same(r.elements_view(), registry_holders(self.entries(), *registry)),
    {
        match lookup_in(&self.registries, registry) {
            Some(lookup) => lookup.copy(),
            None => HolderLookupModel { elements: Vec::new() },
        }
    }
}

impl Default for CommandBuildContextModel {
    fn default() -> (r: Self)
        ensures
            r.entries().len() == 0,
    {
        CommandBuildContextModel { registries: Vec::new() }
    }
}

/// What registry `reg` offers for the typed text, when elements are asked for.
pub open spec fn registry_suggestions(
    entries: Seq<(CommandIdentifierModel, HolderLookupModel)>,
    reg: CommandIdentifierModel,
    element_type: ElementSuggestionType,
    remaining: Seq<char>,
) -> Seq<Seq<char>> {
    if element_type.spec_should_suggest_elements() {
        resources_offered(id_parts(element_ids(registry_holders(entries, reg))), remaining)
    } else {
        seq![]
    }
}

impl SharedSuggestionProviderModel {
    pub closed spec fn entries(&self) -> Seq<(CommandIdentifierModel, HolderLookupModel)> {
        self.registries@
    }

    /// A provider that offers the registries of a build context.
    pub fn from_build_context(context: CommandBuildContextModel) -> (r: Self)
        ensures
            r.entries() == context.entries(),
    {
        SharedSuggestionProviderModel { registries: context.registries }
    }

    fn suggest_registry_elements(&self, registry: &CommandIdentifierModel, element_type: ElementSuggestionType, remaining: &str) -> (r: Vec<String>)
        ensures
            r@.map_values(|s: String| s@) == registry_suggestions(self.entries(), *registry, element_type, remaining@),
    {
        if !element_type.should_suggest_elements() {
            let out: Vec<String> = Vec::new();
            assert(out@.map_values(|s: String| s@) =~= Seq::<Seq<char>>::empty());
            return out;
        }
        match lookup_in(&self.registries, registry) {
            Some(lookup) => suggest_identifiers(&lookup.element_ids(), remaining),
            None => {
                let ids: Vec<CommandIdentifierModel> = Vec::new();
                assert(id_parts(ids@) =~= id_parts(element_ids(registry_holders(self.entries(), *registry))));
                suggest_identifiers(&ids, remaining)
            },
        }
    }
}

impl Default for SharedSuggestionProviderModel {
    fn default() -> (r: Self)
        ensures
            r.entries().len() == 0,
    {
        SharedSuggestionProviderModel { registries: Vec::new() }
    }
}

impl CommandContextModel {
    pub closed spec fn view(&self) -> Map<Seq<char>, HolderReferenceModel> {
        self.arguments.view()
    }

    pub closed spec fn source_view(&self) -> CommandSourceModel {
        self.source
    }

    pub fn with_holder(self, name: &str, holder: HolderReferenceModel) -> (r: Self)
        ensures
            r.view() == self.view().insert(name@, holder),
            r.source_view() == self.source_view(),
    {
        let mut arguments = self.arguments;
        arguments.insert(name.to_owned(), holder);
        CommandContextModel { arguments, source: self.source }
    }

    pub fn with_source(self, source: CommandSourceModel) -> (r: Self)
        ensures
            r.view() == self.view(),
            r.source_view() == source,
    {
        CommandContextModel { arguments: self.arguments, source }
    }
}

impl Default for CommandContextModel {
    fn default() -> (r: Self)
        ensures
            r.view() == Map::<Seq<char>, HolderReferenceModel>::empty(),
            r.source_view() is Other,
    {
        CommandContextModel { arguments: ArgMap::new(), source: CommandSourceModel::Other }
    }
}

/// A holder under a key of registry `reg` with identifier `id`.
pub open spec fn holder_named(reg: CommandIdentifierModel, id: CommandIdentifierModel) -> spec_fn(HolderReferenceModel) -> bool {
    |h: HolderReferenceModel| h.key_view().registry_view().same(&reg) && h.key_view().identifier_view().same(&id)
}

impl ResourceArgumentModel {
    pub closed spec fn registry_view(&self) -> CommandIdentifierModel {
        self.registry_key
    }

    pub closed spec fn holders(&self) -> Seq<HolderReferenceModel> {
        self.registry_lookup.elements_view()
    }

    /// The argument for registry `registry_key`, holding that registry's
    /// holders from the build context.
    pub fn resource(context: &CommandBuildContextModel, registry_key: &str) -> (r: Self)
        requires
            parse_identifier(registry_key.spec_bytes()) is Some,
        ensures
            r.registry_view().parses_to(registry_key.spec_bytes()),
            holders_same(r.holders(), registry_holders(context.entries(), r.registry_view())),
    {
        let registry_key = parse_or_root(registry_key);
        let registry_lookup = context.lookup_or_throw(&registry_key);
        ResourceArgumentModel { registry_lookup, registry_key }
    }

    /// Reads an identifier and resolves it to the registry's first holder
    /// under that key; an unknown element records the cursor after the
    /// identifier, which stays there.
    pub fn parse(&self, reader: &mut StringReaderModel) -> (r: Result<HolderReferenceModel, ResourceArgumentParseError>)
        requires
            old(reader).at_cut(),
        ensures
            final(reader).text() == old(reader).text(),
            final(reader).at_cut(),
            ({
                let v = old(reader).bytes();
                let p = old(reader).pos();
                let end = identifier_end(v, p);
                let tok = v.subrange(p, end);
                match r {
                    Ok(h) => h.key_view().identifier_view().parses_to(tok)
                        && h.key_view().registry_view().same(&self.registry_view())
                        && ({
                            let i = first_index(self.holders(), keyed(h.key_view()));
                            i >= 0 && holder_same(h, self.holders()[i])
                        })
                        && final(reader).pos() == end,
                    Err(ResourceArgumentParseError::UnknownResource { id, registry, cursor }) =>
                        id.parses_to(tok) && registry.same(&self.registry_view()) && cursor == end
                        && first_index(self.holders(), holder_named(self.registry_view(), id)) < 0
                        && final(reader).pos() == end,
                    Err(ResourceArgumentParseError::Identifier(_)) => parse_identifier(tok) is None && final(reader).pos() == p,
                }
            }),
    {
        let resource_id = match CommandIdentifierModel::read(reader) {
            Ok(id) => id,
            Err(error) => {
                return Err(ResourceArgumentParseError::Identifier(error));
            },
        };
        let key = ResourceKeyModel::create(self.registry_key.copy(), resource_id.copy());
        match self.registry_lookup.get(&key) {
            Some(holder) => {
                proof {
                    lemma_first_index_from(self.holders(), keyed(key), 0);
                    assert(keyed(holder.key_view()) =~= keyed(key));
                }
                Ok(holder)
            },
            None => {
                proof {
                    assert(keyed(key) =~= holder_named(self.registry_view(), resource_id));
                }
                Err(ResourceArgumentParseError::UnknownResource {
                    id: resource_id,
                    registry: self.registry_key.copy(),
                    cursor: reader.cursor(),
                })
            },
        }
    }

    /// The elements of this argument's registry that the typed text matches.
    pub fn list_suggestions(&self, context: &CommandContextModel, remaining: &str) -> (r: Vec<String>)
        ensures
            context.source_view() matches CommandSourceModel::Shared(p) ==> r@.map_values(|s: String| s@)
                == registry_suggestions(p.entries(), self.registry_view(), ElementSuggestionType::Elements, remaining@),
            context.source_view() is Other ==> r@.len() == 0,
    {
        match &context.source {
            CommandSourceModel::Shared(provider) => provider.suggest_registry_elements(
                &self.registry_key,
                ElementSuggestionType::Elements,
                remaining,
            ),
            CommandSourceModel::Other => Vec::new(),
        }
    }

    pub fn examples(&self) -> (r: [&'static str; 3])
        ensures
            r@[0]@ == "foo"@,
            r@[1]@ == "foo:bar"@,
            r@[2]@ == "012"@,
    {
        ["foo", "foo:bar", "012"]
    }

    pub fn info_template(&self) -> (r: InfoTemplateModel)
        ensures
            r.registry_view().same(&self.registry_view()),
    {
        InfoTemplateModel { registry_key: self.registry_key.copy() }
    }
}

impl InfoTemplateModel {
    pub closed spec fn registry_view(&self) -> CommandIdentifierModel {
        self.registry_key
    }

    pub fn serialize_to_network(&self) -> (r: String)
        ensures
            r@ == self.registry_view().display(),
    {
        self.registry_key.to_string()
    }

    pub fn serialize_to_json_registry(&self) -> (r: String)
        ensures
            r@ == self.registry_view().display(),
    {
        self.registry_key.to_string()
    }

    /// The argument that this template describes, over the build context's registry.
    pub fn instantiate(&self, context: &CommandBuildContextModel) -> (r: ResourceArgumentModel)
        ensures
            r.registry_view().same(&self.registry_view()),
            holders_same(r.holders(), registry_holders(context.entries(), self.registry_view())),
    {
        let registry_key = self.registry_key.copy();
        proof {
            assert(lookup_named(registry_key) =~= lookup_named(self.registry_view()));
        }
        let registry_lookup = context.lookup_or_throw(&registry_key);
        ResourceArgumentModel { registry_lookup, registry_key }
    }
}

/// The holder bound to `name`, checked against the registry with namespace
/// `ns` and path `path`: a missing argument, then a holder of another
/// registry, are errors.
pub open spec fn resource_check(
    context: CommandContextModel,
    name: Seq<char>,
    ns: Seq<char>,
    path: Seq<char>,
    r: Result<HolderReferenceModel, ResourceLookupError>,
) -> bool {
    if !context.view().contains_key(name) {
        r == Err::<HolderReferenceModel, ResourceLookupError>(ResourceLookupError::MissingArgument)
    } else {
        let h = context.view()[name];
        if names(h.key_view().registry_view(), ns, path) {
            r matches Ok(x) && holder_same(x, h)
        } else {
            r matches Err(ResourceLookupError::InvalidResourceType { id, actual_registry, expected_registry })
                && id.same(&h.key_view().identifier_view()) && actual_registry.same(&h.key_view().registry_view())
                && names(*expected_registry, ns, path)
        }
    }
}

fn resource_for(context: &CommandContextModel, name: &str, expected: CommandIdentifierModel) -> (r: Result<HolderReferenceModel, ResourceLookupError>)
    ensures
        resource_check(*context, name@, expected.namespace_view(), expected.path_view(), r),
{
    let argument = match context.arguments.get(name) {
        Some(a) => a,
        None => {
            return Err(ResourceLookupError::MissingArgument);
        },
    };
    if argument.key.is_for(&expected) {
        Ok(argument.copy())
    } else {
        Err(ResourceLookupError::InvalidResourceType {
            id: Box::new(argument.key.identifier().copy()),
            actual_registry: Box::new(argument.key.registry().copy()),
            expected_registry: Box::new(expected),
        })
    }
}

/// The holder bound to `name`, checked to belong to the registry named by `registry_key`.
pub fn get_resource(context: &CommandContextModel, name: &str, registry_key: &str) -> (r: Result<HolderReferenceModel, ResourceLookupError>)
    requires
        parse_identifier(registry_key.spec_bytes()) is Some,
    ensures
        !context.view().contains_key(name@) ==> r == Err::<HolderReferenceModel, ResourceLookupError>(ResourceLookupError::MissingArgument),
        context.view().contains_key(name@) ==> {
            let h = context.view()[name@];
            if h.key_view().registry_view().parses_to(registry_key.spec_bytes()) {
                r matches Ok(x) && holder_same(x, h)
            } else {
                r matches Err(ResourceLookupError::InvalidResourceType { id, actual_registry, expected_registry })
                    && id.same(&h.key_view().identifier_view()) && actual_registry.same(&h.key_view().registry_view())
                    && expected_registry.parses_to(registry_key.spec_bytes())
            }
        },
{
    let expected = parse_or_root(registry_key);
    proof {
        if context.view().contains_key(name@) {
            lemma_same_as_parsed(context.view()[name@].key_view().registry_view(), expected, registry_key.spec_bytes());
        }
    }
    let ghost e = expected;
    let r = resource_for(context, name, expected);
    proof {
        let rr = r;
        match rr {
            Err(ResourceLookupError::InvalidResourceType { expected_registry, .. }) => {
                lemma_same_as_parsed(*expected_registry, e, registry_key.spec_bytes());
            },
            _ => {},
        }
    }
    r
}

pub fn get_attribute(context: &CommandContextModel, name: &str) -> (r: Result<HolderReferenceModel, ResourceLookupError>)
    ensures
        resource_check(*context, name@, "minecraft"@, "attribute"@, r),
{
    resource_for(context, name, CommandIdentifierModel::of("minecraft", "attribute"))
}

pub fn get_configured_feature(context: &CommandContextModel, name: &str) -> (r: Result<HolderReferenceModel, ResourceLookupError>)
    ensures
        resource_check(*context, name@, "minecraft"@, "worldgen/configured_feature"@, r),
{
    resource_for(context, name, CommandIdentifierModel::of("minecraft", "worldgen/configured_feature"))
}

pub fn get_structure(context: &CommandContextModel, name: &str) -> (r: Result<HolderReferenceModel, ResourceLookupError>)
    ensures
        resource_check(*context, name@, "minecraft"@, "worldgen/structure"@, r),
{
    resource_for(context, name, CommandIdentifierModel::of("minecraft", "worldgen/structure"))
}

pub fn get_entity_type(context: &CommandContextModel, name: &str) -> (r: Result<HolderReferenceModel, ResourceLookupError>)
    ensures
        resource_check(*context, name@, "minecraft"@, "entity_type"@, r),
{
    resource_for(context, name, CommandIdentifierModel::of("minecraft", "entity_type"))
}

/// An entity type bound to `name` that can be summoned; one that cannot is
/// an error naming it.
pub fn get_summonable_entity_type(context: &CommandContextModel, name: &str) -> (r: Result<HolderReferenceModel, ResourceLookupError>)
    ensures
        ({
            let checked = if context.view().contains_key(name@) && names(context.view()[name@].key_view().registry_view(), "minecraft"@, "entity_type"@) {
                Some(context.view()[name@])
            } else {
                None
            };
            match checked {
                Some(h) => if h.value_view().summonable() {
                    r matches Ok(x) && holder_same(x, h)
                } else {
                    r matches Err(ResourceLookupError::NotSummonableEntity(s)) && s@ == h.key_view().identifier_view().display()
                },
                None => resource_check(*context, name@, "minecraft"@, "entity_type"@, r),
            }
        }),
{
    let result = get_entity_type(context, name)?;
    if result.value.can_summon {
        Ok(result)
    } else {
        Err(ResourceLookupError::NotSummonableEntity(result.key.identifier().to_string()))
    }
}

pub fn get_mob_effect(context: &CommandContextModel, name: &str) -> (r: Result<HolderReferenceModel, ResourceLookupError>)
    ensures
        resource_check(*context, name@, "minecraft"@, "mob_effect"@, r),
{
    resource_for(context, name, CommandIdentifierModel::of("minecraft", "mob_effect"))
}

pub fn get_enchantment(context: &CommandContextModel, name: &str) -> (r: Result<HolderReferenceModel, ResourceLookupError>)
    ensures
        resource_check(*context, name@, "minecraft"@, "enchantment"@, r),
{
    resource_for(context, name, CommandIdentifierModel::of("minecraft", "enchantment"))
}

pub fn get_clock(context: &CommandContextModel, name: &str) -> (r: Result<HolderReferenceModel, ResourceLookupError>)
    ensures
        resource_check(*context, name@, "minecraft"@, "world_clock"@, r),
{
    resource_for(context, name, CommandIdentifierModel::of("minecraft", "world_clock"))
}

pub fn get_timeline(context: &CommandContextModel, name: &str) -> (r: Result<HolderReferenceModel, ResourceLookupError>)
    ensures
        resource_check(*context, name@, "minecraft"@, "timeline"@, r),
{
    resource_for(context, name, CommandIdentifierModel::of("minecraft", "timeline"))
}

} // verus!
