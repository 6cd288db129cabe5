//! The `dimension` argument: an identifier read as a key of the dimension
//! registry, looked up among the server's levels.

use vstd::prelude::*;
use vstd::string::StringSliceAdditionalSpecFns;
use crate::text::{utf8, push_str, bytes_of};
use crate::arg_map::ArgMap;
use crate::search::{last_index, lemma_last_index, lemma_last_index_step, lemma_last_index_hit, lemma_last_index_whole};
use crate::command_shared_suggestion_provider::{matches_sub_str, matches_sub_str_spec, lower_bytes, ascii_lower};
pub use crate::command_identifier_argument::{CommandIdentifierModel, IdentifierArgumentParseError, StringReaderModel,
    identifier_end, parse_identifier};

verus! {

#[derive(Debug, Clone, PartialEq, Eq)]
pub struct DimensionArgumentModel;

#[derive(Debug, Clone, PartialEq, Eq, Hash)]
pub struct ResourceKeyModel {
    registry: CommandIdentifierModel,
    identifier: CommandIdentifierModel,
}

#[derive(Debug, Clone, PartialEq, Eq)]
pub struct ServerLevelModel {
    key: ResourceKeyModel,
    display_name: String,
}

#[derive(Debug, Clone, PartialEq, Eq)]
pub struct ServerModel {
    levels: Vec<ServerLevelModel>,
}

#[derive(Debug, Clone, PartialEq, Eq)]
pub struct SharedSuggestionProviderModel {
    levels: Vec<ResourceKeyModel>,
    server: ServerModel,
}

#[derive(Debug, Clone, PartialEq, Eq)]
pub enum CommandSourceModel {
    Shared(SharedSuggestionProviderModel),
    Other,
}

pub struct CommandContextModel {
    arguments: ArgMap<CommandIdentifierModel>,
    source: CommandSourceModel,
}

#[derive(Debug, Clone, PartialEq, Eq)]
pub enum DimensionLookupError {
    MissingArgument,
    MissingServer,
    InvalidDimension(CommandIdentifierModel),
}

impl ResourceKeyModel {
    pub closed spec fn registry_view(&self) -> CommandIdentifierModel {
        self.registry
    }

    pub closed spec fn identifier_view(&self) -> CommandIdentifierModel {
        self.identifier
    }

    pub fn create(registry: CommandIdentifierModel, identifier: CommandIdentifierModel) -> (r: Self)
        ensures
            r.registry_view() == registry,
            r.identifier_view() == identifier,
    {
        ResourceKeyModel { registry, identifier }
    }

    pub fn identifier(&self) -> (r: &CommandIdentifierModel)
        ensures
            *r == self.identifier_view(),
    {
        &self.identifier
    }

    pub fn registry(&self) -> (r: &CommandIdentifierModel)
        ensures
            *r == self.registry_view(),
    {
        &self.registry
    }

    /// The key of this key's registry in the root registry.
    pub fn registry_key(&self) -> (r: Self)
        ensures
            r.registry_view().namespace_view() == "minecraft"@,
            r.registry_view().path_view() == "root"@,
            r.identifier_view().same(&self.registry_view()),
    {
        ResourceKeyModel::create(CommandIdentifierModel::of("minecraft", "root"), self.registry.copy())
    }

    fn copy(&self) -> (r: Self)
        ensures
            r.registry_view().same(&self.registry_view()),
            r.identifier_view().same(&self.identifier_view()),
    {
        ResourceKeyModel { registry: self.registry.copy(), identifier: self.identifier.copy() }
    }

    fn equals(&self, other: &ResourceKeyModel) -> (r: bool)
        ensures
            r == (self.registry_view().same(&other.registry_view()) && self.identifier_view().same(&other.identifier_view())),
    {
        self.registry.equals(&other.registry) && self.identifier.equals(&other.identifier)
    }
}

impl ServerLevelModel {
    pub closed spec fn key_view(&self) -> ResourceKeyModel {
        self.key
    }

    pub closed spec fn name_view(&self) -> Seq<char> {
        self.display_name@
    }

    pub fn key(&self) -> (r: &ResourceKeyModel)
        ensures
            *r == self.key_view(),
    {
        &self.key
    }

    pub fn display_name(&self) -> (r: &str)
        ensures
            r@ == self.name_view(),
    {
        self.display_name.as_str()
    }

    fn copy(&self) -> (r: Self)
        ensures
            r.key_view().registry_view().same(&self.key_view().registry_view()),
            r.key_view().identifier_view().same(&self.key_view().identifier_view()),
            r.name_view() == self.name_view(),
    {
        ServerLevelModel { key: self.key.copy(), display_name: self.display_name.clone() }
    }
}

/// The key matches the registry and identifier views.
pub open spec fn key_is(k: ResourceKeyModel, registry: CommandIdentifierModel, id: CommandIdentifierModel) -> bool {
    k.registry_view().same(&registry) && k.identifier_view().same(&id)
}

/// Levels under the key of `registry` and `id`.
pub open spec fn level_keyed(registry: CommandIdentifierModel, id: CommandIdentifierModel) -> spec_fn(ServerLevelModel) -> bool {
    |l: ServerLevelModel| key_is(l.key_view(), registry, id)
}

/// Levels of the dimension `id`.
pub open spec fn dimension_keyed(id: CommandIdentifierModel) -> spec_fn(ServerLevelModel) -> bool {
    |l: ServerLevelModel| l.key_view().registry_view().namespace_view() == "minecraft"@
        && l.key_view().registry_view().path_view() == "dimension"@ && l.key_view().identifier_view().same(&id)
}

/// Two levels with the same key and name.
pub open spec fn same_level(a: ServerLevelModel, b: ServerLevelModel) -> bool {
    &&& a.key_view().registry_view().same(&b.key_view().registry_view())
    &&& a.key_view().identifier_view().same(&b.key_view().identifier_view())
    &&& a.name_view() == b.name_view()
}

impl ServerModel {
    pub closed spec fn levels_view(&self) -> Seq<ServerLevelModel> {
        self.levels@
    }

    /// The level registered last under `key`.
    fn get_level(&self, key: &ResourceKeyModel) -> (r: Option<ServerLevelModel>)
        ensures
            ({
                let levels = self.levels_view();
                let i = last_index(levels, level_keyed(key.registry_view(), key.identifier_view()));
                if i >= 0 {
                    r matches Some(l) && same_level(l, levels[i])
                } else {
                    r is None
                }
            }),
    {
        let ghost levels = self.levels_view();
        let ghost p = level_keyed(key.registry_view(), key.identifier_view());
        proof {
            lemma_last_index_whole(levels, p);
        }
        let mut i: usize = self.levels.len();
        while i > 0
            invariant
                0 <= i <= self.levels@.len(),
                levels == self.levels@,
                last_index(levels.subrange(0, i as int), p) == last_index(levels, p),
            decreases i,
        {
            let l = &self.levels[i - 1];
            if l.key.equals(key) {
                proof {
                    lemma_last_index_hit(levels, p, i as int);
                }
                let c = l.copy();
                return Some(c);
            }
            proof {
                lemma_last_index_step(levels, p, i as int);
            }
            i = i - 1;
        }
        proof {
            assert(levels.subrange(0, 0) =~= Seq::<ServerLevelModel>::empty());
        }
        None
    }
}

impl SharedSuggestionProviderModel {
    pub closed spec fn server_view(&self) -> ServerModel {
        self.server
    }

    pub closed spec fn level_keys(&self) -> Seq<ResourceKeyModel> {
        self.levels@
    }

    pub fn new() -> (r: Self)
        ensures
            r.level_keys().len() == 0,
            r.server_view().levels_view().len() == 0,
    {
        SharedSuggestionProviderModel { levels: Vec::new(), server: ServerModel { levels: Vec::new() } }
    }

    /// Adds a level named by a valid identifier, shown as `level:<name>`.
    pub fn with_level(self, name: &str) -> (r: Self)
        requires
            parse_identifier(name.spec_bytes()) is Some,
        ensures
            r.level_keys().len() == self.level_keys().len() + 1,
            r.level_keys().drop_last() == self.level_keys(),
            r.server_view().levels_view().drop_last() == self.server_view().levels_view(),
            r.level_keys().last().identifier_view().parses_to(name.spec_bytes()),
            r.level_keys().last().registry_view().display() == "minecraft"@ + ":"@ + "dimension"@,
            r.server_view().levels_view().len() == self.server_view().levels_view().len() + 1,
            r.server_view().levels_view().last().name_view() == "level:"@ + name@,
            key_is(r.server_view().levels_view().last().key_view(), r.level_keys().last().registry_view(), r.level_keys().last().identifier_view()),
    {
        let identifier = match CommandIdentifierModel::parse(name) {
            Ok(id) => id,
            Err(_) => {
                return self;
            },
        };
        let key = ResourceKeyModel::create(CommandIdentifierModel::of("minecraft", "dimension"), identifier);
        let mut display = "level:".to_owned();
        push_str(&mut display, name);
        let mut server = self.server;
        server.levels.push(ServerLevelModel { key: key.copy(), display_name: display });
        let mut levels = self.levels;
        levels.push(key);
        SharedSuggestionProviderModel { levels, server }
    }
}

/// The identifier texts that resource suggestion offers for the typed text.
pub open spec fn resource_matches(remaining: Seq<char>, id: CommandIdentifierModel) -> bool {
    let contents = ascii_lower(utf8(remaining));
    if contents.contains(58u8) {
        matches_sub_str_spec(contents, utf8(id.display()))
    } else {
        matches_sub_str_spec(contents, utf8(id.namespace_view())) || matches_sub_str_spec(contents, utf8(id.path_view()))
    }
}

pub open spec fn resource_offered(ids: Seq<CommandIdentifierModel>, remaining: Seq<char>) -> Seq<Seq<char>>
    decreases ids.len(),
{
    if ids.len() == 0 {
        seq![]
    } else {
        let rest = resource_offered(ids.drop_last(), remaining);
        if resource_matches(remaining, ids.last()) { rest.push(ids.last().display()) } else { rest }
    }
}

/// Suggests the identifiers whose namespace or path (or, when the typed text
/// holds a colon, whose full text) the typed text matches.
pub fn suggest_resource(values: &Vec<ResourceKeyModel>, remaining: &str) -> (r: Vec<String>)
    ensures
        r@.map_values(|s: String| s@) == resource_offered(values@.map_values(|k: ResourceKeyModel| k.identifier_view()), remaining@),
{
    let contents = lower_bytes(remaining);
    let mut has_colon = false;
    let mut j: usize = 0;
    while j < contents.len()
        invariant
            0 <= j <= contents@.len(),
            has_colon == (exists|k: int| 0 <= k < j && contents@[k] == 58u8),
        decreases contents@.len() - j,
    {
        if contents[j] == 58 {
            has_colon = true;
        }
        j = j + 1;
    }
    let ghost ids = values@.map_values(|k: ResourceKeyModel| k.identifier_view());
    let mut out: Vec<String> = Vec::new();
    let mut i: usize = 0;
    while i < values.len()
        invariant
            0 <= i <= values@.len(),
            ids == values@.map_values(|k: ResourceKeyModel| k.identifier_view()),
            contents@ == ascii_lower(utf8(remaining@)),
            has_colon == contents@.contains(58u8),
            out@.map_values(|s: String| s@) == resource_offered(ids.subrange(0, i as int), remaining@),
        decreases values@.len() - i,
    {
        let id = values[i].identifier();
        assert(ids.subrange(0, i + 1).drop_last() =~= ids.subrange(0, i as int));
        let ok = if has_colon {
            let full = id.to_string();
            matches_sub_str(&contents, &bytes_of(full.as_str()))
        } else {
            matches_sub_str(&contents, &bytes_of(id.namespace())) || matches_sub_str(&contents, &bytes_of(id.path()))
        };
        if ok {
            let s = id.to_string();
            let ghost before = out@;
            out.push(s);
            assert(out@.map_values(|s: String| s@) =~= before.map_values(|s: String| s@).push(s@));
        }
        i = i + 1;
    }
    assert(ids.subrange(0, values@.len() as int) =~= ids);
    out
}

impl DimensionArgumentModel {
    pub fn dimension() -> (r: Self) {
        DimensionArgumentModel
    }

    pub fn parse(&self, reader: &mut StringReaderModel) -> (r: Result<CommandIdentifierModel, IdentifierArgumentParseError>)
        requires
            old(reader).at_cut(),
        ensures
            final(reader).text() == old(reader).text(),
            final(reader).at_cut(),
            ({
                let end = identifier_end(old(reader).bytes(), old(reader).pos());
                let tok = old(reader).bytes().subrange(old(reader).pos(), end);
                match r {
                    Ok(id) => id.parses_to(tok) && final(reader).pos() == end,
                    Err(_) => parse_identifier(tok) is None && final(reader).pos() == old(reader).pos(),
                }
            }),
    {
        CommandIdentifierModel::read(reader)
    }

    pub fn examples(&self) -> (r: [&'static str; 2])
        ensures
            r@[0]@ == "minecraft:overworld"@,
            r@[1]@ == "minecraft:the_nether"@,
    {
        ["minecraft:overworld", "minecraft:the_nether"]
    }

    /// The levels that match the typed text, for a source that offers shared suggestions.
    pub fn list_suggestions(&self, context: &CommandContextModel, remaining: &str) -> (r: Vec<String>)
        ensures
            context.source_view() matches CommandSourceModel::Shared(p) ==> r@.map_values(|s: String| s@)
                == resource_offered(p.level_keys().map_values(|k: ResourceKeyModel| k.identifier_view()), remaining@),
            context.source_view() is Other ==> r@.len() == 0,
    {
        match &context.source {
            CommandSourceModel::Shared(provider) => suggest_resource(&provider.levels, remaining),
            CommandSourceModel::Other => Vec::new(),
        }
    }
}

impl CommandContextModel {
    pub closed spec fn view(&self) -> Map<Seq<char>, CommandIdentifierModel> {
        self.arguments.view()
    }

    pub closed spec fn source_view(&self) -> CommandSourceModel {
        self.source
    }

    pub fn with_dimension_argument(self, name: &str, value: CommandIdentifierModel) -> (r: Self)
        ensures
            r.view() == self.view().insert(name@, value),
            r.source_view() == self.source_view(),
    {
        let mut arguments = self.arguments;
        arguments.insert(name.to_owned(), value);
        CommandContextModel { arguments, source: self.source }
    }

    pub fn with_source(self, source: CommandSourceModel) -> (r: Self)
        ensures
            r.view() == self.view(),
            r.source_view() == source,
    {
        CommandContextModel { arguments: self.arguments, source }
    }
}

impl Default for CommandContextModel {
    fn default() -> (r: Self)
        ensures
            r.view() == Map::<Seq<char>, CommandIdentifierModel>::empty(),
            r.source_view() is Other,
    {
        CommandContextModel { arguments: ArgMap::new(), source: CommandSourceModel::Other }
    }
}

/// The level of the dimension bound to `name`: a missing argument, a source
/// without server, and an unknown dimension are errors, in that order.
pub fn get_dimension(context: &CommandContextModel, name: &str) -> (r: Result<ServerLevelModel, DimensionLookupError>)
    ensures
        !context.view().contains_key(name@) ==> r == Err::<ServerLevelModel, DimensionLookupError>(DimensionLookupError::MissingArgument),
        context.view().contains_key(name@) && context.source_view() is Other ==> r == Err::<ServerLevelModel, DimensionLookupError>(DimensionLookupError::MissingServer),
        context.view().contains_key(name@) ==> match context.source_view() {
            CommandSourceModel::Shared(p) => {
                let id = context.view()[name@];
                let levels = p.server_view().levels_view();
                let i = last_index(levels, dimension_keyed(id));
                if i >= 0 {
                    r matches Ok(l) && same_level(l, levels[i])
                } else {
                    r matches Err(DimensionLookupError::InvalidDimension(v)) && v.same(&id)
                }
            },
            CommandSourceModel::Other => true,
        },
{
    let location = match context.arguments.get(name) {
        Some(v) => v.copy(),
        None => {
            return Err(DimensionLookupError::MissingArgument);
        },
    };
    let key = ResourceKeyModel::create(CommandIdentifierModel::of("minecraft", "dimension"), location.copy());
    proof {
        let id = context.view()[name@];
        assert(level_keyed(key.registry_view(), key.identifier_view()) =~= dimension_keyed(id));
    }
    match &context.source {
        CommandSourceModel::Shared(provider) => match provider.server.get_level(&key) {
            Some(level) => Ok(level),
            None => Err(DimensionLookupError::InvalidDimension(location)),
        },
        CommandSourceModel::Other => Err(DimensionLookupError::MissingServer),
    }
}

/// A provider with the named levels, in order.
pub fn suggestion_provider(levels: &[&str]) -> (r: SharedSuggestionProviderModel)
    requires
        forall|i: int| 0 <= i < levels@.len() ==> parse_identifier((#[trigger] levels@[i]).spec_bytes()) is Some,
    ensures
        r.level_keys().len() == levels@.len(),
        r.server_view().levels_view().len() == levels@.len(),
        forall|i: int| 0 <= i < levels@.len() ==> {
            &&& (#[trigger] r.level_keys()[i]).identifier_view().parses_to(levels@[i].spec_bytes())
            &&& r.level_keys()[i].registry_view().display() == "minecraft"@ + ":"@ + "dimension"@
            &&& r.server_view().levels_view()[i].name_view() == "level:"@ + levels@[i]@
            &&& key_is(r.server_view().levels_view()[i].key_view(), r.level_keys()[i].registry_view(), r.level_keys()[i].identifier_view())
        },
{
    let mut provider = SharedSuggestionProviderModel::new();
    let mut i: usize = 0;
    while i < levels.len()
        invariant
            0 <= i <= levels@.len(),
            provider.level_keys().len() == i,
            provider.server_view().levels_view().len() == i,
            forall|k: int| 0 <= k < i ==> {
                &&& (#[trigger] provider.level_keys()[k]).identifier_view().parses_to(levels@[k].spec_bytes())
                &&& provider.level_keys()[k].registry_view().display() == "minecraft"@ + ":"@ + "dimension"@
                &&& provider.server_view().levels_view()[k].name_view() == "level:"@ + levels@[k]@
                &&& key_is(provider.server_view().levels_view()[k].key_view(), provider.level_keys()[k].registry_view(), provider.level_keys()[k].identifier_view())
            },
        decreases levels@.len() - i,
    {
        let ghost before = provider;
        provider = provider.with_level(levels[i]);
        proof {
            assert forall|k: int| 0 <= k < i implies provider.level_keys()[k] == before.level_keys()[k] by {
                assert(provider.level_keys().drop_last()[k] == provider.level_keys()[k]);
            }
            assert forall|k: int| 0 <= k < i implies provider.server_view().levels_view()[k] == before.server_view().levels_view()[k] by {
                assert(provider.server_view().levels_view().drop_last()[k] == provider.server_view().levels_view()[k]);
            }
        }
        i = i + 1;
    }
    provider
}

} // verus!
