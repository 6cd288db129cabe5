//! The `gamemode` argument and the game types it names.

use vstd::prelude::*;
use crate::text::{utf8, str_eq, lemma_utf8_injective, push_str};
use crate::string_reader::{unquoted_end};
use crate::arg_map::ArgMap;
use crate::command_shared_suggestion_provider::{suggest, SuggestionModel, SuggestionsBuilderModel, offered};
pub use crate::string_reader::StringReaderModel;

verus! {

broadcast use vstd::utf8::encode_utf8_decode_utf8;

#[derive(Debug, Clone, PartialEq, Eq)]
pub struct GameModeArgumentModel;

#[derive(Debug, Clone, PartialEq, Eq)]
pub enum GameModeParseError {
    Invalid { value: String },
}

#[derive(Debug, Clone, Default, PartialEq, Eq)]
pub struct AbilitiesModel {
    pub mayfly: bool,
    pub instabuild: bool,
    pub invulnerable: bool,
    pub flying: bool,
    pub may_build: bool,
}

#[derive(Debug, Clone, Copy, PartialEq, Eq)]
pub struct CommandSourceModel {
    pub shared_suggestion_provider: bool,
}

pub struct CommandContextModel {
    arguments: ArgMap<GameTypeModel>,
}

#[derive(Debug, Clone, Copy, PartialEq, Eq, Structural)]
pub enum GameTypeModel {
    Survival,
    Creative,
    Adventure,
    Spectator,
}

impl GameTypeModel {
    pub const DEFAULT_MODE: GameTypeModel = GameTypeModel::Survival;
    pub const VALUES: [GameTypeModel; 4] = [
        GameTypeModel::Survival,
        GameTypeModel::Creative,
        GameTypeModel::Adventure,
        GameTypeModel::Spectator,
    ];

    pub open spec fn id_spec(self) -> i32 {
        match self {
            GameTypeModel::Survival => 0,
            GameTypeModel::Creative => 1,
            GameTypeModel::Adventure => 2,
            GameTypeModel::Spectator => 3,
        }
    }

    pub open spec fn name_spec(self) -> Seq<char> {
        match self {
            GameTypeModel::Survival => "survival"@,
            GameTypeModel::Creative => "creative"@,
            GameTypeModel::Adventure => "adventure"@,
            GameTypeModel::Spectator => "spectator"@,
        }
    }

    pub fn id(self) -> (r: i32)
        ensures
            r == self.id_spec(),
    {
        match self {
            GameTypeModel::Survival => 0,
            GameTypeModel::Creative => 1,
            GameTypeModel::Adventure => 2,
            GameTypeModel::Spectator => 3,
        }
    }

    pub fn name(self) -> (r: &'static str)
        ensures
            r@ == self.name_spec(),
    {
        match self {
            GameTypeModel::Survival => "survival",
            GameTypeModel::Creative => "creative",
            GameTypeModel::Adventure => "adventure",
            GameTypeModel::Spectator => "spectator",
        }
    }

    /// `selectWorld.gameMode.<name>`.
    pub fn short_display_key(self) -> (r: String)
        ensures
            r@ == "selectWorld.gameMode."@ + self.name_spec(),
    {
        let mut s = "selectWorld.gameMode.".to_owned();
        push_str(&mut s, self.name());
        s
    }

    /// `gameMode.<name>`.
    pub fn long_display_key(self) -> (r: String)
        ensures
            r@ == "gameMode."@ + self.name_spec(),
    {
        let mut s = "gameMode.".to_owned();
        push_str(&mut s, self.name());
        s
    }

    /// The game type with this id; unknown ids give survival.
    pub fn by_id(id: i32) -> (r: GameTypeModel)
        ensures
            (exists|v: GameTypeModel| v.id_spec() == id) ==> r.id_spec() == id,
            (forall|v: GameTypeModel| #[trigger] v.id_spec() != id) ==> r == GameTypeModel::Survival,
    {
        if id == 0 {
            assert(GameTypeModel::Survival.id_spec() == id);
            return GameTypeModel::Survival;
        }
        if id == 1 {
            assert(GameTypeModel::Creative.id_spec() == id);
            return GameTypeModel::Creative;
        }
        if id == 2 {
            assert(GameTypeModel::Adventure.id_spec() == id);
            return GameTypeModel::Adventure;
        }
        if id == 3 {
            assert(GameTypeModel::Spectator.id_spec() == id);
            return GameTypeModel::Spectator;
        }
        proof {
            assert forall|v: GameTypeModel| #[trigger] v.id_spec() != id by {
                match v {
                    GameTypeModel::Survival => {},
                    GameTypeModel::Creative => {},
                    GameTypeModel::Adventure => {},
                    GameTypeModel::Spectator => {},
                }
            }
        }
        GameTypeModel::Survival
    }

    fn by_name_exact(value: &str) -> (r: Option<GameTypeModel>)
        ensures
            r matches Some(v) ==> v.name_spec() == value@,
            r is None ==> forall|v: GameTypeModel| #[trigger] v.name_spec() != value@,
    {
        if str_eq(value, "survival") {
            return Some(GameTypeModel::Survival);
        }
        if str_eq(value, "creative") {
            return Some(GameTypeModel::Creative);
        }
        if str_eq(value, "adventure") {
            return Some(GameTypeModel::Adventure);
        }
        if str_eq(value, "spectator") {
            return Some(GameTypeModel::Spectator);
        }
        proof {
            assert forall|v: GameTypeModel| #[trigger] v.name_spec() != value@ by {
                match v {
                    GameTypeModel::Survival => {},
                    GameTypeModel::Creative => {},
                    GameTypeModel::Adventure => {},
                    GameTypeModel::Spectator => {},
                }
            }
        }
        None
    }

    /// The game type named exactly `name`, else `default_mode`.
    pub fn by_name(name: &str, default_mode: Option<GameTypeModel>) -> (r: Option<GameTypeModel>)
        ensures
            (exists|g: GameTypeModel| g.name_spec() == name@) ==> (r matches Some(g) && g.name_spec() == name@),
            (forall|g: GameTypeModel| #[trigger] g.name_spec() != name@) ==> r == default_mode,
    {
        match Self::by_name_exact(name) {
            Some(g) => Some(g),
            None => default_mode,
        }
    }

    /// The id of an optional game type; none is -1.
    pub fn nullable_id(game_type: Option<GameTypeModel>) -> (r: i32)
        ensures
            r == (match game_type { Some(g) => g.id_spec() as int, None => -1 }),
    {
        match game_type {
            Some(g) => g.id(),
            None => -1,
        }
    }

    /// None for -1, else the game type with this id (unknown ids give survival).
    pub fn by_nullable_id(id: i32) -> (r: Option<GameTypeModel>)
        ensures
            id == -1 ==> r is None,
            id != -1 ==> (r matches Some(g) && ((exists|v: GameTypeModel| v.id_spec() == id) ==> g.id_spec() == id)
                && ((forall|v: GameTypeModel| #[trigger] v.id_spec() != id) ==> g == GameTypeModel::Survival)),
    {
        if id == -1 {
            None
        } else {
            Some(Self::by_id(id))
        }
    }

    pub fn is_valid_id(id: i32) -> (r: bool)
        ensures
            r == exists|g: GameTypeModel| g.id_spec() == id,
    {
        let r = 0 <= id && id <= 3;
        proof {
            if r {
                let g = if id == 0 { GameTypeModel::Survival } else if id == 1 { GameTypeModel::Creative } else if id == 2 { GameTypeModel::Adventure } else { GameTypeModel::Spectator };
                assert(g.id_spec() == id);
            } else {
                assert forall|g: GameTypeModel| #[trigger] g.id_spec() != id by {
                    match g { GameTypeModel::Survival => {}, GameTypeModel::Creative => {}, GameTypeModel::Adventure => {}, GameTypeModel::Spectator => {} }
                }
            }
        }
        r
    }

    pub fn is_block_placing_restricted(self) -> (r: bool)
        ensures
            r == (self == GameTypeModel::Adventure || self == GameTypeModel::Spectator),
    {
        matches!(self, GameTypeModel::Adventure | GameTypeModel::Spectator)
    }

    pub fn is_creative(self) -> (r: bool)
        ensures
            r == (self == GameTypeModel::Creative),
    {
        self == GameTypeModel::Creative
    }

    pub fn is_survival(self) -> (r: bool)
        ensures
            r == (self == GameTypeModel::Survival || self == GameTypeModel::Adventure),
    {
        matches!(self, GameTypeModel::Survival | GameTypeModel::Adventure)
    }

    /// Sets the abilities that the game type grants.
    pub fn update_player_abilities(self, abilities: &mut AbilitiesModel)
        ensures
            final(abilities).mayfly == (self == GameTypeModel::Creative || self == GameTypeModel::Spectator),
            final(abilities).instabuild == (self == GameTypeModel::Creative),
            final(abilities).invulnerable == (self == GameTypeModel::Creative || self == GameTypeModel::Spectator),
            final(abilities).flying == (if self == GameTypeModel::Creative { old(abilities).flying } else { self == GameTypeModel::Spectator }),
            final(abilities).may_build == !(self == GameTypeModel::Adventure || self == GameTypeModel::Spectator),
    {
        match self {
            GameTypeModel::Creative => {
                abilities.mayfly = true;
                abilities.instabuild = true;
                abilities.invulnerable = true;
            },
            GameTypeModel::Spectator => {
                abilities.mayfly = true;
                abilities.instabuild = false;
                abilities.invulnerable = true;
                abilities.flying = true;
            },
            _ => {
                abilities.mayfly = false;
                abilities.instabuild = false;
                abilities.invulnerable = false;
                abilities.flying = false;
            },
        }
        abilities.may_build = !self.is_block_placing_restricted();
    }
}

pub open spec fn game_type_names() -> Seq<Seq<char>> {
    seq!["survival"@, "creative"@, "adventure"@, "spectator"@]
}

impl GameModeArgumentModel {
    pub fn game_mode() -> (r: Self) {
        GameModeArgumentModel
    }

    /// Reads a token up to whitespace; it must be a game type's exact name.
    /// The cursor stays after the token even when rejected.
    pub fn parse(&self, reader: &mut StringReaderModel) -> (r: Result<GameTypeModel, GameModeParseError>)
        requires
            old(reader).at_cut(),
        ensures
            final(reader).text() == old(reader).text(),
            final(reader).pos() == unquoted_end(old(reader).bytes(), old(reader).pos()),
            final(reader).at_cut(),
            ({
                let tok = old(reader).bytes().subrange(old(reader).pos(), final(reader).pos());
                match r {
                    Ok(g) => utf8(g.name_spec()) == tok,
                    Err(GameModeParseError::Invalid { value }) => utf8(value@) == tok
                        && forall|g: GameTypeModel| #[trigger] utf8(g.name_spec()) != tok,
                }
            }),
    {
        let value = reader.read_unquoted_string();
        match GameTypeModel::by_name(value.as_str(), None) {
            Some(g) => Ok(g),
            None => {
                proof {
                    assert forall|g: GameTypeModel| #[trigger] utf8(g.name_spec()) != utf8(value@) by {
                        if utf8(g.name_spec()) == utf8(value@) {
                            lemma_utf8_injective(g.name_spec(), value@);
                        }
                    }
                }
                Err(GameModeParseError::Invalid { value })
            },
        }
    }

    /// For a source that offers shared suggestions, the game type names that
    /// match the remaining text; for another source, none.
    pub fn list_suggestions(&self, source: &CommandSourceModel, builder: &mut SuggestionsBuilderModel) -> (r: Vec<SuggestionModel>)
        ensures
            source.shared_suggestion_provider ==> final(builder).values() == old(builder).values() + offered(game_type_names(), old(builder).remaining_view())
                && r@.map_values(|s: SuggestionModel| s.value@) == final(builder).values(),
            !source.shared_suggestion_provider ==> r@.len() == 0 && final(builder).values() == old(builder).values(),
    {
        if source.shared_suggestion_provider {
            let mut values: Vec<String> = Vec::new();
            values.push("survival".to_owned());
            values.push("creative".to_owned());
            values.push("adventure".to_owned());
            values.push("spectator".to_owned());
            assert(values@.map_values(|v: String| v@) =~= game_type_names());
            suggest(values, builder);
            builder.build()
        } else {
            Vec::new()
        }
    }

    pub fn examples(&self) -> (r: [&'static str; 2])
        ensures
            r@[0]@ == GameTypeModel::Survival.name_spec(),
            r@[1]@ == GameTypeModel::Creative.name_spec(),
    {
        [GameTypeModel::Survival.name(), GameTypeModel::Creative.name()]
    }
}

impl CommandContextModel {
    pub closed spec fn view(&self) -> Map<Seq<char>, GameTypeModel> {
        self.arguments.view()
    }

    pub fn with_game_mode(self, name: &str, value: GameTypeModel) -> (r: Self)
        ensures
            r.view() == self.view().insert(name@, value),
    {
        let mut arguments = self.arguments;
        arguments.insert(name.to_owned(), value);
        CommandContextModel { arguments }
    }
}

impl Default for CommandContextModel {
    fn default() -> (r: Self)
        ensures
            r.view() == Map::<Seq<char>, GameTypeModel>::empty(),
    {
        CommandContextModel { arguments: ArgMap::new() }
    }
}

/// The value bound to `name`, if any.
pub fn get_game_mode(context: &CommandContextModel, name: &str) -> (r: Option<GameTypeModel>)
    ensures
        r matches Some(v) ==> context.view().contains_key(name@) && context.view()[name@] == v,
        r is None ==> !context.view().contains_key(name@),
{
    match context.arguments.get(name) {
        Some(v) => Some(*v),
        None => None,
    }
}


/// Each game type has an id and a name of its own: looking one up by its id
/// or by its name gives it back.
pub proof fn lemma_game_type_ids_and_names_identify(a: GameTypeModel, b: GameTypeModel)
    ensures
        a.id_spec() == b.id_spec() ==> a == b,
        a.name_spec() == b.name_spec() ==> a == b,
{
    reveal_strlit("survival");
    reveal_strlit("creative");
    reveal_strlit("adventure");
    reveal_strlit("spectator");
    if a.name_spec() == b.name_spec() && a != b {
        assert(a.name_spec()[0] == b.name_spec()[0]);
        assert(a.name_spec()[1] == b.name_spec()[1]);
    }
}
} // verus!
