//! The `objective` argument: an unquoted name, resolved against the
//! scoreboard of the command's server when the command runs.

use vstd::prelude::*;
use crate::text::str_eq;
use crate::search::{first_index_from, lemma_first_index_from};
use crate::string_reader::unquoted_end;
use crate::command_shared_suggestion_provider::{suggest, offered, SuggestionModel, SuggestionsBuilderModel};
use crate::arg_map::ArgMap;
pub use crate::string_reader::StringReaderModel;

verus! {

#[derive(Debug, Clone, Copy, PartialEq, Eq, Hash, Structural)]
pub enum ObjectiveCriteriaModel {
    Dummy,
    Trigger,
    Health,
    Food,
}

impl ObjectiveCriteriaModel {
    pub open spec fn name_view(self) -> Seq<char> {
        match self {
            ObjectiveCriteriaModel::Dummy => "dummy"@,
            ObjectiveCriteriaModel::Trigger => "trigger"@,
            ObjectiveCriteriaModel::Health => "health"@,
            ObjectiveCriteriaModel::Food => "food"@,
        }
    }

    pub fn name(self) -> (r: &'static str)
        ensures
            r@ == self.name_view(),
    {
        match self {
            ObjectiveCriteriaModel::Dummy => "dummy",
            ObjectiveCriteriaModel::Trigger => "trigger",
            ObjectiveCriteriaModel::Health => "health",
            ObjectiveCriteriaModel::Food => "food",
        }
    }

    /// Health and food are kept by the game; scores under them cannot be set.
    pub fn is_read_only(self) -> (r: bool)
        ensures
            r == (self is Health || self is Food),
    {
        match self {
            ObjectiveCriteriaModel::Health => true,
            ObjectiveCriteriaModel::Food => true,
            _ => false,
        }
    }
}

/// An objective: its name, criteria and display name.
#[derive(Debug, PartialEq, Eq)]
pub struct ObjectiveModel {
    name: String,
    criteria: ObjectiveCriteriaModel,
    display_name: String,
}

impl ObjectiveModel {
    pub closed spec fn name_view(&self) -> Seq<char> {
        self.name@
    }

    pub closed spec fn criteria_view(&self) -> ObjectiveCriteriaModel {
        self.criteria
    }

    pub closed spec fn display_view(&self) -> Seq<char> {
        self.display_name@
    }

    /// An objective shown under its own name.
    pub fn new(name: &str, criteria: ObjectiveCriteriaModel) -> (r: Self)
        ensures
            r.name_view() == name@,
            r.criteria_view() == criteria,
            r.display_view() == name@,
    {
        ObjectiveModel { name: name.to_owned(), criteria, display_name: name.to_owned() }
    }

    pub fn name(&self) -> (r: &str)
        ensures
            r@ == self.name_view(),
    {
        self.name.as_str()
    }

    pub fn criteria(&self) -> (r: ObjectiveCriteriaModel)
        ensures
            r == self.criteria_view(),
    {
        self.criteria
    }

    pub fn display_name(&self) -> (r: &str)
        ensures
            r@ == self.display_view(),
    {
        self.display_name.as_str()
    }

    pub fn copy(&self) -> (r: Self)
        ensures
            r.name_view() == self.name_view(),
            r.criteria_view() == self.criteria_view(),
            r.display_view() == self.display_view(),
    {
        ObjectiveModel { name: self.name.clone(), criteria: self.criteria, display_name: self.display_name.clone() }
    }
}

impl Clone for ObjectiveModel {
    fn clone(&self) -> (r: Self)
        ensures
            r.name_view() == self.name_view(),
            r.criteria_view() == self.criteria_view(),
            r.display_view() == self.display_view(),
    {
        self.copy()
    }
}

pub open spec fn named(name: Seq<char>) -> spec_fn(ObjectiveModel) -> bool {
    |o: ObjectiveModel| o.name_view() == name
}

/// The objective with the name, if there is one.
pub open spec fn objective_named(objectives: Seq<ObjectiveModel>, name: Seq<char>) -> Option<ObjectiveModel> {
    let i = first_index_from(objectives, named(name), 0);
    if i >= 0 { Some(objectives[i]) } else { None }
}

/// The first element that satisfies `p` from `from` on is at `i` when the
/// ones before it fail `p` and it satisfies `p`.
proof fn lemma_first_hit<T>(s: Seq<T>, p: spec_fn(T) -> bool, from: int, i: int)
    requires
        0 <= from <= i < s.len(),
        forall|j: int| from <= j < i ==> !p(#[trigger] s[j]),
        p(s[i]),
    ensures
        first_index_from(s, p, from) == i,
    decreases i - from,
{
    if from < i {
        lemma_first_hit(s, p, from + 1, i);
    }
}

/// The objectives of a scoreboard, in the order their names were first added.
pub struct ScoreboardModel {
    objectives: Vec<ObjectiveModel>,
}

impl ScoreboardModel {
    pub closed spec fn objectives_view(&self) -> Seq<ObjectiveModel> {
        self.objectives@
    }

    /// The names of the objectives, in order.
    pub open spec fn names_view(&self) -> Seq<Seq<char>> {
        self.objectives_view().map_values(|o: ObjectiveModel| o.name_view())
    }

    fn find(&self, name: &str) -> (r: Option<usize>)
        ensures
            match r {
                Some(i) => first_index_from(self.objectives_view(), named(name@), 0) == i,
                None => first_index_from(self.objectives_view(), named(name@), 0) < 0,
            },
    {
        let ghost p = named(name@);
        let ghost os = self.objectives@;
        proof {
            lemma_first_index_from(os, p, 0);
        }
        let mut i: usize = 0;
        while i < self.objectives.len()
            invariant
                0 <= i <= os.len(),
                os == self.objectives@,
                first_index_from(os, p, i as int) == first_index_from(os, p, 0),
            decreases os.len() - i,
        {
            if str_eq(self.objectives[i].name.as_str(), name) {
                return Some(i);
            }
            i = i + 1;
        }
        None
    }

    /// The scoreboard with the objective added; an objective of the same
    /// name is replaced where it stands.
    pub fn add_objective(self, name: &str, criteria: ObjectiveCriteriaModel) -> (r: Self)
        ensures
            ({
                let i = first_index_from(self.objectives_view(), named(name@), 0);
                let added = r.objectives_view();
                &&& if i >= 0 {
                    added.len() == self.objectives_view().len()
                        && forall|k: int| 0 <= k < added.len() && k != i ==> #[trigger] added[k] == self.objectives_view()[k]
                } else {
                    added.len() == self.objectives_view().len() + 1 && added.drop_last() == self.objectives_view()
                }
                &&& objective_named(added, name@) matches Some(o) && o.name_view() == name@ && o.criteria_view() == criteria
                    && o.display_view() == name@
            }),
    {
        let ghost before = self.objectives@;
        let ghost p = named(name@);
        proof {
            lemma_first_index_from(before, p, 0);
        }
        let found = self.find(name);
        let mut objectives = self.objectives;
        let objective = ObjectiveModel::new(name, criteria);
        match found {
            Some(i) => {
                objectives.set(i, objective);
                proof {
                    lemma_first_hit(objectives@, p, 0, i as int);
                }
            },
            None => {
                objectives.push(objective);
                proof {
                    assert(objectives@.drop_last() == before);
                    lemma_first_hit(objectives@, p, 0, before.len() as int);
                }
            },
        }
        ScoreboardModel { objectives }
    }
}

impl ScoreboardModel {
    /// A copy of the objective with the name.
    pub fn get_objective(&self, name: &str) -> (r: Option<ObjectiveModel>)
        ensures
            match objective_named(self.objectives_view(), name@) {
                Some(o) => r matches Some(x) && x.name_view() == o.name_view() && x.criteria_view() == o.criteria_view()
                    && x.display_view() == o.display_view(),
                None => r is None,
            },
    {
        proof {
            lemma_first_index_from(self.objectives@, named(name@), 0);
        }
        match self.find(name) {
            Some(i) => Some(self.objectives[i].copy()),
            None => None,
        }
    }

    /// The names of the objectives, in order.
    pub fn objective_names(&self) -> (r: Vec<String>)
        ensures
            r@.map_values(|s: String| s@) == self.names_view(),
    {
        let mut out: Vec<String> = Vec::new();
        let mut i: usize = 0;
        while i < self.objectives.len()
            invariant
                0 <= i <= self.objectives@.len(),
                out@.map_values(|s: String| s@) == self.names_view().subrange(0, i as int),
            decreases self.objectives@.len() - i,
        {
            let ghost before = out@;
            out.push(self.objectives[i].name.clone());
            assert(out@.map_values(|s: String| s@) =~= before.map_values(|s: String| s@).push(self.objectives@[i as int].name_view()));
            assert(self.names_view().subrange(0, i + 1) =~= self.names_view().subrange(0, i as int).push(self.objectives@[i as int].name_view()));
            i = i + 1;
        }
        assert(self.names_view().subrange(0, self.objectives@.len() as int) =~= self.names_view());
        out
    }

    pub fn copy(&self) -> (r: Self)
        ensures
            r.names_view() == self.names_view(),
            r.objectives_view().len() == self.objectives_view().len(),
            forall|i: int| 0 <= i < self.objectives_view().len() ==> (#[trigger] r.objectives_view()[i]).name_view()
                == self.objectives_view()[i].name_view() && r.objectives_view()[i].criteria_view() == self.objectives_view()[i].criteria_view()
                && r.objectives_view()[i].display_view() == self.objectives_view()[i].display_view(),
    {
        let mut out: Vec<ObjectiveModel> = Vec::new();
        let mut i: usize = 0;
        while i < self.objectives.len()
            invariant
                0 <= i <= self.objectives@.len(),
                out@.len() == i,
                forall|k: int| 0 <= k < i ==> (#[trigger] out@[k]).name_view() == self.objectives@[k].name_view()
                    && out@[k].criteria_view() == self.objectives@[k].criteria_view()
                    && out@[k].display_view() == self.objectives@[k].display_view(),
            decreases self.objectives@.len() - i,
        {
            out.push(self.objectives[i].copy());
            i = i + 1;
        }
        let r = ScoreboardModel { objectives: out };
        assert(r.names_view() =~= self.names_view());
        r
    }
}

impl Clone for ScoreboardModel {
    fn clone(&self) -> (r: Self)
        ensures
            r.names_view() == self.names_view(),
    {
        self.copy()
    }
}

impl Default for ScoreboardModel {
    fn default() -> (r: Self)
        ensures
            r.objectives_view().len() == 0,
    {
        ScoreboardModel { objectives: Vec::new() }
    }
}

/// A server with its scoreboard.
pub struct ServerModel {
    scoreboard: ScoreboardModel,
}

impl ServerModel {
    pub closed spec fn scoreboard_view(&self) -> ScoreboardModel {
        self.scoreboard
    }

    pub fn new(scoreboard: ScoreboardModel) -> (r: Self)
        ensures
            r.scoreboard_view() == scoreboard,
    {
        ServerModel { scoreboard }
    }
}

/// A command source with a server.
pub struct CommandSourceStackModel {
    server: ServerModel,
}

impl CommandSourceStackModel {
    pub closed spec fn scoreboard_view(&self) -> ScoreboardModel {
        self.server.scoreboard_view()
    }

    pub fn new(server: ServerModel) -> (r: Self)
        ensures
            r.scoreboard_view() == server.scoreboard_view(),
    {
        CommandSourceStackModel { server }
    }
}

/// A suggestion provider that offers its own suggestions.
pub struct SharedSuggestionProviderModel {
    custom_suggestions: Vec<SuggestionModel>,
}

/// The values and tooltips of suggestions, as characters.
pub open spec fn suggestions_view(s: Seq<SuggestionModel>) -> Seq<(Seq<char>, Option<Seq<char>>)> {
    s.map_values(|x: SuggestionModel| (x.value@, match x.tooltip { Some(t) => Some(t@), None => None }))
}

impl SharedSuggestionProviderModel {
    pub closed spec fn custom_view(&self) -> Seq<(Seq<char>, Option<Seq<char>>)> {
        suggestions_view(self.custom_suggestions@)
    }

    pub fn new(custom_suggestions: Vec<SuggestionModel>) -> (r: Self)
        ensures
            r.custom_view() == suggestions_view(custom_suggestions@),
    {
        SharedSuggestionProviderModel { custom_suggestions }
    }
}

pub enum CommandSourceModel {
    CommandSourceStack(CommandSourceStackModel),
    SharedSuggestionProvider(SharedSuggestionProviderModel),
    Other,
}

/// The bound string arguments, by name, and the source of the command.
pub struct CommandContextModel {
    arguments: ArgMap<String>,
    source: CommandSourceModel,
}

impl CommandContextModel {
    pub closed spec fn view(&self) -> Map<Seq<char>, String> {
        self.arguments.view()
    }

    pub closed spec fn source_view(&self) -> CommandSourceModel {
        self.source
    }

    pub fn new(source: CommandSourceModel) -> (r: Self)
        ensures
            r.view() == Map::<Seq<char>, String>::empty(),
            r.source_view() == source,
    {
        CommandContextModel { arguments: ArgMap::new(), source }
    }

    pub fn with_string(self, name: &str, value: &str) -> (r: Self)
        ensures
            r.view().dom() == self.view().dom().insert(name@),
            r.view()[name@]@ == value@,
            forall|k: Seq<char>| k != name@ && self.view().contains_key(k) ==> #[trigger] r.view()[k] == self.view()[k],
            r.source_view() == self.source_view(),
    {
        let mut arguments = self.arguments;
        arguments.insert(name.to_owned(), value.to_owned());
        CommandContextModel { arguments, source: self.source }
    }
}

#[derive(Debug, Clone, PartialEq, Eq)]
pub enum ObjectiveArgumentError {
    MissingArgument { name: String },
    MissingScoreboardSource,
    ObjectiveNotFound { name: String },
    ObjectiveReadOnly { name: String },
}

/// The objective named by the argument, in the source's scoreboard: a
/// missing argument, a source without a scoreboard, and an unknown name are
/// errors, in that order.
pub open spec fn objective_lookup(context: CommandContextModel, name: Seq<char>, r: Result<ObjectiveModel, ObjectiveArgumentError>) -> bool {
    if !context.view().contains_key(name) {
        r matches Err(ObjectiveArgumentError::MissingArgument { name: n }) && n@ == name
    } else {
        let id = context.view()[name]@;
        match context.source_view() {
            CommandSourceModel::CommandSourceStack(source) => match objective_named(source.scoreboard_view().objectives_view(), id) {
                Some(o) => r matches Ok(x) && x.name_view() == o.name_view() && x.criteria_view() == o.criteria_view()
                    && x.display_view() == o.display_view(),
                None => r matches Err(ObjectiveArgumentError::ObjectiveNotFound { name: n }) && n@ == id,
            },
            _ => r == Err::<ObjectiveModel, ObjectiveArgumentError>(ObjectiveArgumentError::MissingScoreboardSource),
        }
    }
}

pub fn get_objective(context: &CommandContextModel, name: &str) -> (r: Result<ObjectiveModel, ObjectiveArgumentError>)
    ensures
        objective_lookup(*context, name@, r),
{
    let id = match context.arguments.get(name) {
        Some(v) => v.clone(),
        None => return Err(ObjectiveArgumentError::MissingArgument { name: name.to_owned() }),
    };
    match &context.source {
        CommandSourceModel::CommandSourceStack(source) => match source.server.scoreboard.get_objective(id.as_str()) {
            Some(o) => Ok(o),
            None => Err(ObjectiveArgumentError::ObjectiveNotFound { name: id }),
        },
        _ => Err(ObjectiveArgumentError::MissingScoreboardSource),
    }
}

/// The objective named by the argument, when its scores can be set.
pub fn get_writable_objective(context: &CommandContextModel, name: &str) -> (r: Result<ObjectiveModel, ObjectiveArgumentError>)
    ensures
        forall|o: Result<ObjectiveModel, ObjectiveArgumentError>| objective_lookup(*context, name@, o) ==> match o {
            Ok(x) => if x.criteria_view() is Health || x.criteria_view() is Food {
                r matches Err(ObjectiveArgumentError::ObjectiveReadOnly { name: n }) && n@ == x.name_view()
            } else {
                r matches Ok(y) && y.name_view() == x.name_view() && y.criteria_view() == x.criteria_view()
                    && y.display_view() == x.display_view()
            },
            Err(e) => r matches Err(f) && error_view(f) == error_view(e),
        },
{
    let objective = match get_objective(context, name) {
        Ok(o) => o,
        Err(e) => return Err(e),
    };
    if objective.criteria().is_read_only() {
        Err(ObjectiveArgumentError::ObjectiveReadOnly { name: objective.name().to_owned() })
    } else {
        Ok(objective)
    }
}

/// An error with its names as characters.
pub open spec fn error_view(e: ObjectiveArgumentError) -> (int, Seq<char>) {
    match e {
        ObjectiveArgumentError::MissingArgument { name } => (0, name@),
        ObjectiveArgumentError::MissingScoreboardSource => (1, seq![]),
        ObjectiveArgumentError::ObjectiveNotFound { name } => (2, name@),
        ObjectiveArgumentError::ObjectiveReadOnly { name } => (3, name@),
    }
}

#[derive(Debug, Clone, PartialEq, Eq)]
pub struct ObjectiveArgumentModel;

impl ObjectiveArgumentModel {
    pub fn objective() -> (r: Self) {
        ObjectiveArgumentModel
    }

    /// The name: the text up to the next white space.
    pub fn parse(&self, reader: &mut StringReaderModel) -> (r: String)
        requires
            old(reader).at_cut(),
        ensures
            final(reader).text() == old(reader).text(),
            final(reader).at_cut(),
            final(reader).pos() == unquoted_end(old(reader).bytes(), old(reader).pos()),
            crate::text::utf8(r@) == old(reader).bytes().subrange(old(reader).pos(), final(reader).pos()),
    {
        reader.read_unquoted_string()
    }

    /// The scoreboard's objective names that the typed text matches, for a
    /// source with a server; a provider's own suggestions; else none.
    pub fn list_suggestions(&self, context: &CommandContextModel, builder: &mut SuggestionsBuilderModel) -> (r: Vec<SuggestionModel>)
        ensures
            match context.source_view() {
                CommandSourceModel::CommandSourceStack(source) => {
                    &&& final(builder).values() == old(builder).values() + offered(source.scoreboard_view().names_view(), old(builder).remaining_view())
                    &&& r@.map_values(|x: SuggestionModel| x.value@) == final(builder).values()
                },
                CommandSourceModel::SharedSuggestionProvider(provider) => suggestions_view(r@) == provider.custom_view()
                    && *final(builder) == *old(builder),
                CommandSourceModel::Other => r@.len() == 0 && *final(builder) == *old(builder),
            },
    {
        match &context.source {
            CommandSourceModel::CommandSourceStack(source) => {
                let names = source.server.scoreboard.objective_names();
                suggest(names, builder);
                builder.build()
            },
            CommandSourceModel::SharedSuggestionProvider(provider) => {
                let mut out: Vec<SuggestionModel> = Vec::new();
                let mut i: usize = 0;
                while i < provider.custom_suggestions.len()
                    invariant
                        0 <= i <= provider.custom_suggestions@.len(),
                        suggestions_view(out@) == suggestions_view(provider.custom_suggestions@).subrange(0, i as int),
                    decreases provider.custom_suggestions@.len() - i,
                {
                    let s = &provider.custom_suggestions[i];
                    let tooltip = match &s.tooltip {
                        Some(t) => Some(t.clone()),
                        None => None,
                    };
                    out.push(SuggestionModel { value: s.value.clone(), tooltip });
                    i = i + 1;
                    assert(suggestions_view(out@) =~= suggestions_view(provider.custom_suggestions@).subrange(0, i as int));
                }
                assert(suggestions_view(provider.custom_suggestions@).subrange(0, provider.custom_suggestions@.len() as int)
                    =~= suggestions_view(provider.custom_suggestions@));
                out
            },
            CommandSourceModel::Other => Vec::new(),
        }
    }

    pub fn examples(&self) -> (r: [&'static str; 3])
        ensures
            r@[0]@ == "foo"@,
            r@[1]@ == "*"@,
            r@[2]@ == "012"@,
    {
        ["foo", "*", "012"]
    }
}

} // verus!
