//! The `resource_key` argument: an identifier read as the key of an element
//! of a fixed registry, and the lookups that commands make with such a key
//! (placed features, structures and template pools, recipes, advancements).

use vstd::prelude::*;
use vstd::string::StringSliceAdditionalSpecFns;
use crate::text::push_str;
use crate::arg_map::ArgMap;
use crate::search::{last_index, first_index, first_index_from, lemma_last_index, lemma_last_index_step,
    lemma_last_index_hit, lemma_last_index_whole, lemma_first_index_from};
use crate::command_shared_suggestion_provider::{suggest_identifiers, resources_offered, id_parts};
use crate::command_identifier_argument::lemma_same_as_parsed;
pub use crate::command_identifier_argument::{CommandIdentifierModel, IdentifierArgumentParseError, StringReaderModel,
    identifier_end, parse_identifier};

verus! {

#[derive(Debug, Clone, PartialEq, Eq)]
pub struct ResourceKeyArgumentModel {
    registry_key: CommandIdentifierModel,
}

#[derive(Debug, Clone, PartialEq, Eq, Hash)]
pub struct ResourceKeyModel {
    registry: CommandIdentifierModel,
    identifier: CommandIdentifierModel,
}

#[derive(Debug, Clone, PartialEq, Eq)]
pub struct HolderReferenceModel {
    key: ResourceKeyModel,
    value_name: String,
}

#[derive(Debug, Clone, PartialEq, Eq)]
pub struct RecipeHolderModel {
    key: ResourceKeyModel,
    value_name: String,
}

#[derive(Debug, Clone, PartialEq, Eq)]
pub struct AdvancementHolderModel {
    id: CommandIdentifierModel,
    value_name: String,
}

#[derive(Debug, Clone, PartialEq, Eq)]
pub struct RegistryModel {
    elements: Vec<HolderReferenceModel>,
}

/// The registries by key; a later entry for a key replaces an earlier one.
#[derive(Debug, Clone, PartialEq, Eq)]
pub struct RegistryAccessModel {
    registries: Vec<(CommandIdentifierModel, RegistryModel)>,
}

/// The recipes by key; a later recipe under a key replaces an earlier one.
#[derive(Debug, Clone, PartialEq, Eq)]
pub struct RecipeManagerModel {
    recipes: Vec<RecipeHolderModel>,
}

/// The advancements by identifier; a later one replaces an earlier one.
#[derive(Debug, Clone, PartialEq, Eq)]
pub struct AdvancementManagerModel {
    advancements: Vec<AdvancementHolderModel>,
}

#[derive(Debug, Clone, PartialEq, Eq)]
pub struct ServerModel {
    registry_access: RegistryAccessModel,
    recipe_manager: RecipeManagerModel,
    advancements: AdvancementManagerModel,
}

#[derive(Debug, Clone, PartialEq, Eq)]
pub struct SharedSuggestionProviderModel {
    server: ServerModel,
}

#[derive(Debug, Clone, PartialEq, Eq)]
pub enum CommandSourceModel {
    Shared(SharedSuggestionProviderModel),
    Other,
}

pub struct CommandContextModel {
    arguments: ArgMap<ResourceKeyModel>,
    source: CommandSourceModel,
}

#[derive(Debug, Clone, PartialEq, Eq)]
pub struct InfoTemplateModel {
    registry_key: CommandIdentifierModel,
}

#[derive(Debug, Clone, Copy, PartialEq, Eq, Structural)]
pub enum ElementSuggestionType {
    Elements,
    Tags,
    All,
}

#[derive(Debug, Clone, Copy, PartialEq, Eq, Structural)]
pub enum ResourceKeyErrorKind {
    Feature,
    Structure,
    TemplatePool,
    Recipe,
    Advancement,
}

#[derive(Debug, Clone, PartialEq, Eq)]
pub enum ResourceKeyLookupError {
    MissingArgument,
    MissingServer,
    Dynamic { kind: ResourceKeyErrorKind, value: CommandIdentifierModel },
}

/// Two keys name the same element of the same registry.
pub open spec fn key_same(a: ResourceKeyModel, b: ResourceKeyModel) -> bool {
    a.registry_view().same(&b.registry_view()) && a.identifier_view().same(&b.identifier_view())
}

/// The identifier has the given namespace and path.
pub open spec fn names(id: CommandIdentifierModel, ns: Seq<char>, path: Seq<char>) -> bool {
    id.namespace_view() == ns && id.path_view() == path
}

impl ResourceKeyModel {
    pub closed spec fn registry_view(&self) -> CommandIdentifierModel {
        self.registry
    }

    pub closed spec fn identifier_view(&self) -> CommandIdentifierModel {
        self.identifier
    }

    pub fn create(registry: CommandIdentifierModel, identifier: CommandIdentifierModel) -> (r: Self)
        ensures
            r.registry_view() == registry,
            r.identifier_view() == identifier,
    {
        ResourceKeyModel { registry, identifier }
    }

    pub fn is_for(&self, registry: &CommandIdentifierModel) -> (r: bool)
        ensures
            r == self.registry_view().same(registry),
    {
        self.registry.equals(registry)
    }

    /// This key, when it belongs to `registry`.
    pub fn cast(&self, registry: &CommandIdentifierModel) -> (r: Option<Self>)
        ensures
            r is Some <==> self.registry_view().same(registry),
            r matches Some(k) ==> key_same(k, *self),
    {
        if self.is_for(registry) {
            Some(self.copy())
        } else {
            None
        }
    }

    pub fn identifier(&self) -> (r: &CommandIdentifierModel)
        ensures
            *r == self.identifier_view(),
    {
        &self.identifier
    }

    pub fn registry(&self) -> (r: &CommandIdentifierModel)
        ensures
            *r == self.registry_view(),
    {
        &self.registry
    }

    pub fn copy(&self) -> (r: Self)
        ensures
            key_same(r, *self),
    {
        ResourceKeyModel { registry: self.registry.copy(), identifier: self.identifier.copy() }
    }

    pub fn equals(&self, other: &ResourceKeyModel) -> (r: bool)
        ensures
            r == key_same(*self, *other),
    {
        self.registry.equals(&other.registry) && self.identifier.equals(&other.identifier)
    }
}

impl HolderReferenceModel {
    pub closed spec fn key_view(&self) -> ResourceKeyModel {
        self.key
    }

    pub closed spec fn name_view(&self) -> Seq<char> {
        self.value_name@
    }

    pub fn key(&self) -> (r: &ResourceKeyModel)
        ensures
            *r == self.key_view(),
    {
        &self.key
    }

    pub fn value_name(&self) -> (r: &str)
        ensures
            r@ == self.name_view(),
    {
        self.value_name.as_str()
    }

    fn copy(&self) -> (r: Self)
        ensures
            key_same(r.key_view(), self.key_view()),
            r.name_view() == self.name_view(),
    {
        HolderReferenceModel { key: self.key.copy(), value_name: self.value_name.clone() }
    }
}

impl RecipeHolderModel {
    pub closed spec fn key_view(&self) -> ResourceKeyModel {
        self.key
    }

    pub closed spec fn name_view(&self) -> Seq<char> {
        self.value_name@
    }

    pub fn key(&self) -> (r: &ResourceKeyModel)
        ensures
            *r == self.key_view(),
    {
        &self.key
    }

    pub fn value_name(&self) -> (r: &str)
        ensures
            r@ == self.name_view(),
    {
        self.value_name.as_str()
    }

    fn copy(&self) -> (r: Self)
        ensures
            key_same(r.key_view(), self.key_view()),
            r.name_view() == self.name_view(),
    {
        RecipeHolderModel { key: self.key.copy(), value_name: self.value_name.clone() }
    }
}

impl AdvancementHolderModel {
    pub closed spec fn id_view(&self) -> CommandIdentifierModel {
        self.id
    }

    pub closed spec fn name_view(&self) -> Seq<char> {
        self.value_name@
    }

    pub fn id(&self) -> (r: &CommandIdentifierModel)
        ensures
            *r == self.id_view(),
    {
        &self.id
    }

    pub fn value_name(&self) -> (r: &str)
        ensures
            r@ == self.name_view(),
    {
        self.value_name.as_str()
    }

    fn copy(&self) -> (r: Self)
        ensures
            r.id_view().same(&self.id_view()),
            r.name_view() == self.name_view(),
    {
        AdvancementHolderModel { id: self.id.copy(), value_name: self.value_name.clone() }
    }
}

/// Holders under a key equal to `key`.
pub open spec fn holder_keyed(key: ResourceKeyModel) -> spec_fn(HolderReferenceModel) -> bool {
    |h: HolderReferenceModel| key_same(h.key_view(), key)
}

/// Registry entries for the registry `reg`.
pub open spec fn registry_named(reg: CommandIdentifierModel) -> spec_fn((CommandIdentifierModel, RegistryModel)) -> bool {
    |e: (CommandIdentifierModel, RegistryModel)| e.0.same(&reg)
}

pub open spec fn recipe_keyed(key: ResourceKeyModel) -> spec_fn(RecipeHolderModel) -> bool {
    |h: RecipeHolderModel| key_same(h.key_view(), key)
}

pub open spec fn advancement_named(id: CommandIdentifierModel) -> spec_fn(AdvancementHolderModel) -> bool {
    |h: AdvancementHolderModel| h.id_view().same(&id)
}

impl RegistryModel {
    pub closed spec fn elements_view(&self) -> Seq<HolderReferenceModel> {
        self.elements@
    }

    /// The first element under `key`.
    fn get(&self, key: &ResourceKeyModel) -> (r: Option<HolderReferenceModel>)
        ensures
            ({
                let i = first_index(self.elements_view(), holder_keyed(*key));
                if i >= 0 {
                    r matches Some(h) && key_same(h.key_view(), self.elements_view()[i].key_view())
                        && h.name_view() == self.elements_view()[i].name_view()
                } else {
                    r is None
                }
            }),
    {
        let ghost p = holder_keyed(*key);
        let mut i: usize = 0;
        while i < self.elements.len()
            invariant
                0 <= i <= self.elements@.len(),
                first_index_from(self.elements@, p, i as int) == first_index(self.elements@, p),
            decreases self.elements@.len() - i,
        {
            if self.elements[i].key.equals(key) {
                return Some(self.elements[i].copy());
            }
            i = i + 1;
        }
        None
    }
}

/// The elements of registry `reg`, or none when the registry is not there.
pub open spec fn registry_elements(entries: Seq<(CommandIdentifierModel, RegistryModel)>, reg: CommandIdentifierModel) -> Seq<HolderReferenceModel> {
    let i = last_index(entries, registry_named(reg));
    if i >= 0 { entries[i].1.elements_view() } else { seq![] }
}

/// The identifiers of the elements, in order.
pub open spec fn element_ids(elements: Seq<HolderReferenceModel>) -> Seq<CommandIdentifierModel> {
    elements.map_values(|h: HolderReferenceModel| h.key_view().identifier_view())
}

impl RegistryAccessModel {
    pub closed spec fn entries(&self) -> Seq<(CommandIdentifierModel, RegistryModel)> {
        self.registries@
    }

    /// The registry stored last under `reg`.
    fn lookup(&self, reg: &CommandIdentifierModel) -> (r: Option<&RegistryModel>)
        ensures
            ({
                let i = last_index(self.entries(), registry_named(*reg));
                if i >= 0 { r == Some(&self.entries()[i].1) } else { r is None }
            }),
    {
        let ghost p = registry_named(*reg);
        let ghost s = self.registries@;
        proof {
            lemma_last_index_whole(s, p);
        }
        let mut i: usize = self.registries.len();
        while i > 0
            invariant
                0 <= i <= s.len(),
                s == self.registries@,
                last_index(s.subrange(0, i as int), p) == last_index(s, p),
            decreases i,
        {
            if self.registries[i - 1].0.equals(reg) {
                proof {
                    lemma_last_index_hit(s, p, i as int);
                }
                return Some(&self.registries[i - 1].1);
            }
            proof {
                lemma_last_index_step(s, p, i as int);
            }
            i = i - 1;
        }
        assert(s.subrange(0, 0) =~= Seq::<(CommandIdentifierModel, RegistryModel)>::empty());
        None
    }
}

impl RecipeManagerModel {
    pub closed spec fn recipes_view(&self) -> Seq<RecipeHolderModel> {
        self.recipes@
    }

    /// The recipe stored last under `key`.
    fn by_key(&self, key: &ResourceKeyModel) -> (r: Option<RecipeHolderModel>)
        ensures
            ({
                let i = last_index(self.recipes_view(), recipe_keyed(*key));
                if i >= 0 {
                    r matches Some(h) && key_same(h.key_view(), self.recipes_view()[i].key_view())
                        && h.name_view() == self.recipes_view()[i].name_view()
                } else {
                    r is None
                }
            }),
    {
        let ghost p = recipe_keyed(*key);
        let ghost s = self.recipes@;
        proof {
            lemma_last_index_whole(s, p);
        }
        let mut i: usize = self.recipes.len();
        while i > 0
            invariant
                0 <= i <= s.len(),
                s == self.recipes@,
                last_index(s.subrange(0, i as int), p) == last_index(s, p),
            decreases i,
        {
            if self.recipes[i - 1].key.equals(key) {
                proof {
                    lemma_last_index_hit(s, p, i as int);
                }
                return Some(self.recipes[i - 1].copy());
            }
            proof {
                lemma_last_index_step(s, p, i as int);
            }
            i = i - 1;
        }
        assert(s.subrange(0, 0) =~= Seq::<RecipeHolderModel>::empty());
        None
    }
}

impl AdvancementManagerModel {
    pub closed spec fn advancements_view(&self) -> Seq<AdvancementHolderModel> {
        self.advancements@
    }

    /// The advancement stored last under `id`.
    fn get(&self, id: &CommandIdentifierModel) -> (r: Option<AdvancementHolderModel>)
        ensures
            ({
                let i = last_index(self.advancements_view(), advancement_named(*id));
                if i >= 0 {
                    r matches Some(h) && h.id_view().same(&self.advancements_view()[i].id_view())
                        && h.name_view() == self.advancements_view()[i].name_view()
                } else {
                    r is None
                }
            }),
    {
        let ghost p = advancement_named(*id);
        let ghost s = self.advancements@;
        proof {
            lemma_last_index_whole(s, p);
        }
        let mut i: usize = self.advancements.len();
        while i > 0
            invariant
                0 <= i <= s.len(),
                s == self.advancements@,
                last_index(s.subrange(0, i as int), p) == last_index(s, p),
            decreases i,
        {
            if self.advancements[i - 1].id.equals(id) {
                proof {
                    lemma_last_index_hit(s, p, i as int);
                }
                return Some(self.advancements[i - 1].copy());
            }
            proof {
                lemma_last_index_step(s, p, i as int);
            }
            i = i - 1;
        }
        assert(s.subrange(0, 0) =~= Seq::<AdvancementHolderModel>::empty());
        None
    }
}

impl ServerModel {
    pub closed spec fn access_view(&self) -> RegistryAccessModel {
        self.registry_access
    }

    pub closed spec fn recipe_view(&self) -> RecipeManagerModel {
        self.recipe_manager
    }

    pub closed spec fn advancement_view(&self) -> AdvancementManagerModel {
        self.advancements
    }
}

impl SharedSuggestionProviderModel {
    pub closed spec fn server_view(&self) -> ServerModel {
        self.server
    }

    /// Adds the registry `registry` with the given elements, each shown as
    /// `holder:<element>`; it replaces an earlier registry of that key.
    pub fn with_registry(self, registry: &str, elements: &[&str]) -> (r: Self)
        requires
            parse_identifier(registry.spec_bytes()) is Some,
            forall|i: int| 0 <= i < elements@.len() ==> parse_identifier((#[trigger] elements@[i]).spec_bytes()) is Some,
        ensures
            ({
                let before = self.server_view().access_view().entries();
                let after = r.server_view().access_view().entries();
                &&& after.len() == before.len() + 1
                &&& after.subrange(0, before.len() as int) == before
                &&& after.last().0.parses_to(registry.spec_bytes())
                &&& after.last().1.elements_view().len() == elements@.len()
                &&& forall|i: int| 0 <= i < elements@.len() ==> {
                    let h = #[trigger] after.last().1.elements_view()[i];
                    &&& h.key_view().registry_view().parses_to(registry.spec_bytes())
                    &&& h.key_view().identifier_view().parses_to(elements@[i].spec_bytes())
                    &&& h.name_view() == "holder:"@ + elements@[i]@
                }
            }),
            r.server_view().recipe_view() == self.server_view().recipe_view(),
            r.server_view().advancement_view() == self.server_view().advancement_view(),
    {
        let registry_key = match CommandIdentifierModel::parse(registry) {
            Ok(id) => id,
            Err(_) => {
                return self;
            },
        };
        let mut holders: Vec<HolderReferenceModel> = Vec::new();
        let mut i: usize = 0;
        while i < elements.len()
            invariant
                0 <= i <= elements@.len(),
                registry_key.parses_to(registry.spec_bytes()),
                holders@.len() == i,
                forall|k: int| 0 <= k < i ==> {
                    let h = #[trigger] holders@[k];
                    &&& h.key_view().registry_view().parses_to(registry.spec_bytes())
                    &&& h.key_view().identifier_view().parses_to(elements@[k].spec_bytes())
                    &&& h.name_view() == "holder:"@ + elements@[k]@
                },
            decreases elements@.len() - i,
        {
            let element = elements[i];
            let id = match CommandIdentifierModel::parse(element) {
                Ok(id) => id,
                Err(_) => {
                    return self;
                },
            };
            let mut name = "holder:".to_owned();
            push_str(&mut name, element);
            holders.push(HolderReferenceModel { key: ResourceKeyModel::create(registry_key.copy(), id), value_name: name });
            i = i + 1;
        }
        let SharedSuggestionProviderModel { server } = self;
        let ServerModel { registry_access, recipe_manager, advancements } = server;
        let mut registries = registry_access.registries;
        let ghost before = registries@;
        registries.push((registry_key, RegistryModel { elements: holders }));
        assert(registries@.subrange(0, before.len() as int) =~= before);
        SharedSuggestionProviderModel {
            server: ServerModel { registry_access: RegistryAccessModel { registries }, recipe_manager, advancements },
        }
    }

    /// Adds the recipe `recipe`, shown as `recipe:<recipe>`.
    pub fn with_recipe(self, recipe: &str) -> (r: Self)
        requires
            parse_identifier(recipe.spec_bytes()) is Some,
        ensures
            ({
                let before = self.server_view().recipe_view().recipes_view();
                let after = r.server_view().recipe_view().recipes_view();
                &&& after.len() == before.len() + 1
                &&& after.subrange(0, before.len() as int) == before
                &&& names(after.last().key_view().registry_view(), "minecraft"@, "recipe"@)
                &&& after.last().key_view().identifier_view().parses_to(recipe.spec_bytes())
                &&& after.last().name_view() == "recipe:"@ + recipe@
            }),
            r.server_view().access_view() == self.server_view().access_view(),
            r.server_view().advancement_view() == self.server_view().advancement_view(),
    {
        let id = match CommandIdentifierModel::parse(recipe) {
            Ok(id) => id,
            Err(_) => {
                return self;
            },
        };
        let key = ResourceKeyModel::create(CommandIdentifierModel::of("minecraft", "recipe"), id);
        let mut name = "recipe:".to_owned();
        push_str(&mut name, recipe);
        let SharedSuggestionProviderModel { server } = self;
        let ServerModel { registry_access, recipe_manager, advancements } = server;
        let mut recipes = recipe_manager.recipes;
        let ghost before = recipes@;
        recipes.push(RecipeHolderModel { key, value_name: name });
        assert(recipes@.subrange(0, before.len() as int) =~= before);
        SharedSuggestionProviderModel {
            server: ServerModel { registry_access, recipe_manager: RecipeManagerModel { recipes }, advancements },
        }
    }

    /// Adds the advancement `advancement`, shown as `advancement:<advancement>`.
    pub fn with_advancement(self, advancement: &str) -> (r: Self)
        requires
            parse_identifier(advancement.spec_bytes()) is Some,
        ensures
            ({
                let before = self.server_view().advancement_view().advancements_view();
                let after = r.server_view().advancement_view().advancements_view();
                &&& after.len() == before.len() + 1
                &&& after.subrange(0, before.len() as int) == before
                &&& after.last().id_view().parses_to(advancement.spec_bytes())
                &&& after.last().name_view() == "advancement:"@ + advancement@
            }),
            r.server_view().access_view() == self.server_view().access_view(),
            r.server_view().recipe_view() == self.server_view().recipe_view(),
    {
        let id = match CommandIdentifierModel::parse(advancement) {
            Ok(id) => id,
            Err(_) => {
                return self;
            },
        };
        let mut name = "advancement:".to_owned();
        push_str(&mut name, advancement);
        let SharedSuggestionProviderModel { server } = self;
        let ServerModel { registry_access, recipe_manager, advancements } = server;
        let mut list = advancements.advancements;
        let ghost before = list@;
        list.push(AdvancementHolderModel { id, value_name: name });
        assert(list@.subrange(0, before.len() as int) =~= before);
        SharedSuggestionProviderModel {
            server: ServerModel { registry_access, recipe_manager, advancements: AdvancementManagerModel { advancements: list } },
        }
    }

    /// The elements of `registry` that the typed text matches, when elements are asked for.
    fn suggest_registry_elements(&self, registry: &CommandIdentifierModel, element_type: ElementSuggestionType, remaining: &str) -> (r: Vec<String>)
        ensures
            !element_type.spec_should_suggest_elements() ==> r@.len() == 0,
            element_type.spec_should_suggest_elements() ==> r@.map_values(|s: String| s@) == resources_offered(
                id_parts(element_ids(registry_elements(self.server_view().access_view().entries(), *registry))),
                remaining@,
            ),
    {
        if !element_type.should_suggest_elements() {
            return Vec::new();
        }
        let ghost elems = registry_elements(self.server_view().access_view().entries(), *registry);
        match self.server.registry_access.lookup(registry) {
            Some(reg) => {
                let mut ids: Vec<CommandIdentifierModel> = Vec::new();
                let mut i: usize = 0;
                while i < reg.elements.len()
                    invariant
                        0 <= i <= reg.elements@.len(),
                        elems == reg.elements_view(),
                        ids@.len() == i,
                        forall|k: int| 0 <= k < i ==> (#[trigger] ids@[k]).same(&reg.elements@[k].key_view().identifier_view()),
                    decreases reg.elements@.len() - i,
                {
                    ids.push(reg.elements[i].key.identifier.copy());
                    i = i + 1;
                }
                assert(id_parts(ids@) =~= id_parts(element_ids(elems)));
                suggest_identifiers(&ids, remaining)
            },
            None => {
                let ids: Vec<CommandIdentifierModel> = Vec::new();
                assert(id_parts(ids@) =~= id_parts(element_ids(elems)));
                suggest_identifiers(&ids, remaining)
            },
        }
    }
}

impl Default for SharedSuggestionProviderModel {
    fn default() -> (r: Self)
        ensures
            r.server_view().access_view().entries().len() == 0,
            r.server_view().recipe_view().recipes_view().len() == 0,
            r.server_view().advancement_view().advancements_view().len() == 0,
    {
        SharedSuggestionProviderModel {
            server: ServerModel {
                registry_access: RegistryAccessModel { registries: Vec::new() },
                recipe_manager: RecipeManagerModel { recipes: Vec::new() },
                advancements: AdvancementManagerModel { advancements: Vec::new() },
            },
        }
    }
}

impl ElementSuggestionType {
    pub open spec fn spec_should_suggest_elements(self) -> bool {
        self is Elements || self is All
    }

    /// Element suggestions are offered unless only tags are asked for.
    pub fn should_suggest_elements(self) -> (r: bool)
        ensures
            r == self.spec_should_suggest_elements(),
    {
        match self {
            ElementSuggestionType::Elements | ElementSuggestionType::All => true,
            ElementSuggestionType::Tags => false,
        }
    }
}

impl ResourceKeyErrorKind {
    pub open spec fn spec_translation_key(self) -> Seq<char> {
        match self {
            ResourceKeyErrorKind::Feature => "commands.place.feature.invalid"@,
            ResourceKeyErrorKind::Structure => "commands.place.structure.invalid"@,
            ResourceKeyErrorKind::TemplatePool => "commands.place.jigsaw.invalid"@,
            ResourceKeyErrorKind::Recipe => "recipe.notFound"@,
            ResourceKeyErrorKind::Advancement => "advancement.advancementNotFound"@,
        }
    }

    /// The translation key of the error that names the missing element.
    pub fn translation_key(self) -> (r: &'static str)
        ensures
            r@ == self.spec_translation_key(),
    {
        match self {
            ResourceKeyErrorKind::Feature => "commands.place.feature.invalid",
            ResourceKeyErrorKind::Structure => "commands.place.structure.invalid",
            ResourceKeyErrorKind::TemplatePool => "commands.place.jigsaw.invalid",
            ResourceKeyErrorKind::Recipe => "recipe.notFound",
            ResourceKeyErrorKind::Advancement => "advancement.advancementNotFound",
        }
    }
}

impl CommandContextModel {
    pub closed spec fn view(&self) -> Map<Seq<char>, ResourceKeyModel> {
        self.arguments.view()
    }

    pub closed spec fn source_view(&self) -> CommandSourceModel {
        self.source
    }

    pub fn with_resource_key(self, name: &str, value: ResourceKeyModel) -> (r: Self)
        ensures
            r.view() == self.view().insert(name@, value),
            r.source_view() == self.source_view(),
    {
        let mut arguments = self.arguments;
        arguments.insert(name.to_owned(), value);
        CommandContextModel { arguments, source: self.source }
    }

    pub fn with_source(self, source: CommandSourceModel) -> (r: Self)
        ensures
            r.view() == self.view(),
            r.source_view() == source,
    {
        CommandContextModel { arguments: self.arguments, source }
    }
}

impl Default for CommandContextModel {
    fn default() -> (r: Self)
        ensures
            r.view() == Map::<Seq<char>, ResourceKeyModel>::empty(),
            r.source_view() is Other,
    {
        CommandContextModel { arguments: ArgMap::new(), source: CommandSourceModel::Other }
    }
}

impl ResourceKeyArgumentModel {
    pub closed spec fn registry_view(&self) -> CommandIdentifierModel {
        self.registry_key
    }

    /// The argument for keys of the registry named by `registry_key`.
    pub fn key(registry_key: &str) -> (r: Self)
        requires
            parse_identifier(registry_key.spec_bytes()) is Some,
        ensures
            r.registry_view().parses_to(registry_key.spec_bytes()),
    {
        match CommandIdentifierModel::parse(registry_key) {
            Ok(id) => ResourceKeyArgumentModel { registry_key: id },
            Err(_) => ResourceKeyArgumentModel { registry_key: CommandIdentifierModel::of("minecraft", "root") },
        }
    }

    /// Reads an identifier and makes it a key of this argument's registry.
    pub fn parse(&self, reader: &mut StringReaderModel) -> (r: Result<ResourceKeyModel, IdentifierArgumentParseError>)
        requires
            old(reader).at_cut(),
        ensures
            final(reader).text() == old(reader).text(),
            final(reader).at_cut(),
            ({
                let end = identifier_end(old(reader).bytes(), old(reader).pos());
                let tok = old(reader).bytes().subrange(old(reader).pos(), end);
                match r {
                    Ok(k) => k.identifier_view().parses_to(tok) && k.registry_view().same(&self.registry_view())
                        && final(reader).pos() == end,
                    Err(_) => parse_identifier(tok) is None && final(reader).pos() == old(reader).pos(),
                }
            }),
    {
        let resource_id = CommandIdentifierModel::read(reader)?;
        Ok(ResourceKeyModel::create(self.registry_key.copy(), resource_id))
    }

    /// The elements of this argument's registry that the typed text matches.
    pub fn list_suggestions(&self, context: &CommandContextModel, remaining: &str) -> (r: Vec<String>)
        ensures
            context.source_view() matches CommandSourceModel::Shared(p) ==> r@.map_values(|s: String| s@) == resources_offered(
                id_parts(element_ids(registry_elements(p.server_view().access_view().entries(), self.registry_view()))),
                remaining@,
            ),
            context.source_view() is Other ==> r@.len() == 0,
    {
        match &context.source {
            CommandSourceModel::Shared(provider) => provider.suggest_registry_elements(
                &self.registry_key,
                ElementSuggestionType::Elements,
                remaining,
            ),
            CommandSourceModel::Other => Vec::new(),
        }
    }

    pub fn examples(&self) -> (r: [&'static str; 3])
        ensures
            r@[0]@ == "foo"@,
            r@[1]@ == "foo:bar"@,
            r@[2]@ == "012"@,
    {
        ["foo", "foo:bar", "012"]
    }

    pub fn info_template(&self) -> (r: InfoTemplateModel)
        ensures
            r.registry_view().same(&self.registry_view()),
    {
        InfoTemplateModel { registry_key: self.registry_key.copy() }
    }
}

impl InfoTemplateModel {
    pub closed spec fn registry_view(&self) -> CommandIdentifierModel {
        self.registry_key
    }

    pub fn serialize_to_network(&self) -> (r: String)
        ensures
            r@ == self.registry_view().display(),
    {
        self.registry_key.to_string()
    }

    pub fn serialize_to_json_registry(&self) -> (r: String)
        ensures
            r@ == self.registry_view().display(),
    {
        self.registry_key.to_string()
    }

    /// The argument that this template describes.
    pub fn instantiate(&self) -> (r: ResourceKeyArgumentModel)
        ensures
            r.registry_view().same(&self.registry_view()),
    {
        ResourceKeyArgumentModel { registry_key: self.registry_key.copy() }
    }
}

/// The error that names the element `id` as unknown, of the given kind.
pub open spec fn dynamic_error<T>(r: Result<T, ResourceKeyLookupError>, kind: ResourceKeyErrorKind, id: CommandIdentifierModel) -> bool {
    r matches Err(ResourceKeyLookupError::Dynamic { kind: k, value }) && k == kind && value.same(&id)
}

/// The key bound to `name`, when it belongs to the registry with namespace
/// `ns` and path `path`: a missing argument, then a key of another registry,
/// are errors.
pub open spec fn key_check(
    context: CommandContextModel,
    name: Seq<char>,
    ns: Seq<char>,
    path: Seq<char>,
    kind: ResourceKeyErrorKind,
    r: Result<ResourceKeyModel, ResourceKeyLookupError>,
) -> bool {
    if !context.view().contains_key(name) {
        r == Err::<ResourceKeyModel, ResourceKeyLookupError>(ResourceKeyLookupError::MissingArgument)
    } else {
        let a = context.view()[name];
        if names(a.registry_view(), ns, path) {
            r matches Ok(k) && key_same(k, a)
        } else {
            dynamic_error(r, kind, a.identifier_view())
        }
    }
}

/// What a registry lookup of the key bound to `name` answers: after the key
/// check, a source without server is an error; then the first element of the
/// key's registry under the key, or the dynamic error when there is none.
pub open spec fn registry_lookup(
    context: CommandContextModel,
    name: Seq<char>,
    ns: Seq<char>,
    path: Seq<char>,
    kind: ResourceKeyErrorKind,
    r: Result<HolderReferenceModel, ResourceKeyLookupError>,
) -> bool {
    if !context.view().contains_key(name) {
        r == Err::<HolderReferenceModel, ResourceKeyLookupError>(ResourceKeyLookupError::MissingArgument)
    } else {
        let a = context.view()[name];
        if !names(a.registry_view(), ns, path) {
            dynamic_error(r, kind, a.identifier_view())
        } else {
            match context.source_view() {
                CommandSourceModel::Other => r == Err::<HolderReferenceModel, ResourceKeyLookupError>(ResourceKeyLookupError::MissingServer),
                CommandSourceModel::Shared(p) => {
                    let elems = registry_elements(p.server_view().access_view().entries(), a.registry_view());
                    let i = first_index(elems, holder_keyed(a));
                    if i >= 0 {
                        r matches Ok(h) && key_same(h.key_view(), elems[i].key_view()) && h.name_view() == elems[i].name_view()
                    } else {
                        dynamic_error(r, kind, a.identifier_view())
                    }
                },
            }
        }
    }
}

fn key_for(context: &CommandContextModel, name: &str, expected: &CommandIdentifierModel, error_kind: ResourceKeyErrorKind) -> (r: Result<ResourceKeyModel, ResourceKeyLookupError>)
    ensures
        key_check(*context, name@, expected.namespace_view(), expected.path_view(), error_kind, r),
{
    let argument = match context.arguments.get(name) {
        Some(a) => a,
        None => {
            return Err(ResourceKeyLookupError::MissingArgument);
        },
    };
    if argument.is_for(expected) {
        Ok(argument.copy())
    } else {
        Err(ResourceKeyLookupError::Dynamic { kind: error_kind, value: argument.identifier.copy() })
    }
}

/// The key bound to `name`, checked to belong to the registry named by `registry_key`.
pub fn get_registry_key(context: &CommandContextModel, name: &str, registry_key: &str, error_kind: ResourceKeyErrorKind) -> (r: Result<ResourceKeyModel, ResourceKeyLookupError>)
    requires
        parse_identifier(registry_key.spec_bytes()) is Some,
    ensures
        !context.view().contains_key(name@) ==> r == Err::<ResourceKeyModel, ResourceKeyLookupError>(ResourceKeyLookupError::MissingArgument),
        context.view().contains_key(name@) ==> {
            let a = context.view()[name@];
            if a.registry_view().parses_to(registry_key.spec_bytes()) {
                r matches Ok(k) && key_same(k, a)
            } else {
                dynamic_error(r, error_kind, a.identifier_view())
            }
        },
{
    let expected = match CommandIdentifierModel::parse(registry_key) {
        Ok(id) => id,
        Err(_) => {
            return Err(ResourceKeyLookupError::MissingArgument);
        },
    };
    let r = key_for(context, name, &expected, error_kind);
    proof {
        if context.view().contains_key(name@) {
            let a = context.view()[name@];
            lemma_same_as_parsed(a.registry_view(), expected, registry_key.spec_bytes());
        }
    }
    r
}

fn resolve_key(context: &CommandContextModel, name: &str, expected: &CommandIdentifierModel, error_kind: ResourceKeyErrorKind) -> (r: Result<HolderReferenceModel, ResourceKeyLookupError>)
    ensures
        registry_lookup(*context, name@, expected.namespace_view(), expected.path_view(), error_kind, r),
{
    let key = key_for(context, name, expected, error_kind)?;
    let server = match &context.source {
        CommandSourceModel::Shared(provider) => &provider.server,
        CommandSourceModel::Other => {
            return Err(ResourceKeyLookupError::MissingServer);
        },
    };
    let ghost a = context.view()[name@];
    let found = match server.registry_access.lookup(&key.registry) {
        Some(registry) => registry.get(&key),
        None => None,
    };
    proof {
        let entries = server.access_view().entries();
        let p = registry_named(key.registry_view());
        let q = registry_named(a.registry_view());
        assert(p =~= q);
        let elems = registry_elements(entries, a.registry_view());
        assert(holder_keyed(key) =~= holder_keyed(a));
        if last_index(entries, q) < 0 {
            assert(elems =~= Seq::<HolderReferenceModel>::empty());
            lemma_first_index_from(elems, holder_keyed(a), 0);
        }
    }
    match found {
        Some(holder) => Ok(holder),
        None => Err(ResourceKeyLookupError::Dynamic { kind: error_kind, value: key.identifier.copy() }),
    }
}

/// The placed feature bound to `name`.
pub fn get_configured_feature(context: &CommandContextModel, name: &str) -> (r: Result<HolderReferenceModel, ResourceKeyLookupError>)
    ensures
        registry_lookup(*context, name@, "minecraft"@, "worldgen/configured_feature"@, ResourceKeyErrorKind::Feature, r),
{
    resolve_key(context, name, &CommandIdentifierModel::of("minecraft", "worldgen/configured_feature"), ResourceKeyErrorKind::Feature)
}

/// The structure bound to `name`.
pub fn get_structure(context: &CommandContextModel, name: &str) -> (r: Result<HolderReferenceModel, ResourceKeyLookupError>)
    ensures
        registry_lookup(*context, name@, "minecraft"@, "worldgen/structure"@, ResourceKeyErrorKind::Structure, r),
{
    resolve_key(context, name, &CommandIdentifierModel::of("minecraft", "worldgen/structure"), ResourceKeyErrorKind::Structure)
}

/// The template pool bound to `name`.
pub fn get_structure_template_pool(context: &CommandContextModel, name: &str) -> (r: Result<HolderReferenceModel, ResourceKeyLookupError>)
    ensures
        registry_lookup(*context, name@, "minecraft"@, "worldgen/template_pool"@, ResourceKeyErrorKind::TemplatePool, r),
{
    resolve_key(context, name, &CommandIdentifierModel::of("minecraft", "worldgen/template_pool"), ResourceKeyErrorKind::TemplatePool)
}

/// The recipe bound to `name`: after the key check against the recipe
/// registry, the recipe stored last under the key, or the recipe error.
pub fn get_recipe(context: &CommandContextModel, name: &str) -> (r: Result<RecipeHolderModel, ResourceKeyLookupError>)
    ensures
        !context.view().contains_key(name@) ==> r == Err::<RecipeHolderModel, ResourceKeyLookupError>(ResourceKeyLookupError::MissingArgument),
        context.view().contains_key(name@) ==> {
            let a = context.view()[name@];
            if !names(a.registry_view(), "minecraft"@, "recipe"@) {
                dynamic_error(r, ResourceKeyErrorKind::Recipe, a.identifier_view())
            } else {
                match context.source_view() {
                    CommandSourceModel::Other => r == Err::<RecipeHolderModel, ResourceKeyLookupError>(ResourceKeyLookupError::MissingServer),
                    CommandSourceModel::Shared(p) => {
                        let recipes = p.server_view().recipe_view().recipes_view();
                        let i = last_index(recipes, recipe_keyed(a));
                        if i >= 0 {
                            r matches Ok(h) && key_same(h.key_view(), recipes[i].key_view()) && h.name_view() == recipes[i].name_view()
                        } else {
                            dynamic_error(r, ResourceKeyErrorKind::Recipe, a.identifier_view())
                        }
                    },
                }
            }
        },
{
    let key = key_for(context, name, &CommandIdentifierModel::of("minecraft", "recipe"), ResourceKeyErrorKind::Recipe)?;
    let server = match &context.source {
        CommandSourceModel::Shared(provider) => &provider.server,
        CommandSourceModel::Other => {
            return Err(ResourceKeyLookupError::MissingServer);
        },
    };
    let ghost a = context.view()[name@];
    proof {
        assert(recipe_keyed(key) =~= recipe_keyed(a));
    }
    match server.recipe_manager.by_key(&key) {
        Some(recipe) => Ok(recipe),
        None => Err(ResourceKeyLookupError::Dynamic { kind: ResourceKeyErrorKind::Recipe, value: key.identifier.copy() }),
    }
}

/// The advancement bound to `name`: after the key check against the
/// advancement registry, the advancement stored last under the key's
/// identifier, or the advancement error.
pub fn get_advancement(context: &CommandContextModel, name: &str) -> (r: Result<AdvancementHolderModel, ResourceKeyLookupError>)
    ensures
        !context.view().contains_key(name@) ==> r == Err::<AdvancementHolderModel, ResourceKeyLookupError>(ResourceKeyLookupError::MissingArgument),
        context.view().contains_key(name@) ==> {
            let a = context.view()[name@];
            if !names(a.registry_view(), "minecraft"@, "advancement"@) {
                dynamic_error(r, ResourceKeyErrorKind::Advancement, a.identifier_view())
            } else {
                match context.source_view() {
                    CommandSourceModel::Other => r == Err::<AdvancementHolderModel, ResourceKeyLookupError>(ResourceKeyLookupError::MissingServer),
                    CommandSourceModel::Shared(p) => {
                        let list = p.server_view().advancement_view().advancements_view();
                        let i = last_index(list, advancement_named(a.identifier_view()));
                        if i >= 0 {
                            r matches Ok(h) && h.id_view().same(&list[i].id_view()) && h.name_view() == list[i].name_view()
                        } else {
                            dynamic_error(r, ResourceKeyErrorKind::Advancement, a.identifier_view())
                        }
                    },
                }
            }
        },
{
    let key = key_for(context, name, &CommandIdentifierModel::of("minecraft", "advancement"), ResourceKeyErrorKind::Advancement)?;
    let server = match &context.source {
        CommandSourceModel::Shared(provider) => &provider.server,
        CommandSourceModel::Other => {
            return Err(ResourceKeyLookupError::MissingServer);
        },
    };
    let ghost a = context.view()[name@];
    proof {
        assert(advancement_named(key.identifier_view()) =~= advancement_named(a.identifier_view()));
    }
    match server.advancements.get(&key.identifier) {
        Some(advancement) => Ok(advancement),
        None => Err(ResourceKeyLookupError::Dynamic { kind: ResourceKeyErrorKind::Advancement, value: key.identifier.copy() }),
    }
}

} // verus!
