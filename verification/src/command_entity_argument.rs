//! The entity argument: one entity or many, any entity or players only. It
//! reads a selector token and refuses selectors that can give more than one
//! entity where one is wanted, or non-players where players are wanted.

use vstd::prelude::*;
use vstd::utf8::*;
use crate::text::utf8;
use crate::chars::{with_prefix, filter_prefix, chars_of};
use crate::string_reader::{StringReaderModel, advanced, bracket_token_end, skip_ascii_white};
use crate::command_selector::{Selector, SelectorError, SelectorView, BaseView, ErrorView, EntityRecord, selector_read};

verus! {

broadcast use vstd::utf8::encode_utf8_valid_utf8, vstd::utf8::encode_utf8_decode_utf8;

#[derive(Debug, Clone, PartialEq, Eq)]
pub struct EntityArgumentModel {
    single: bool,
    players_only: bool,
}

#[derive(Debug, Clone, PartialEq, Eq)]
pub enum EntityArgumentError {
    Selector(SelectorError),
    NotSingleEntity,
    NotSinglePlayer,
    OnlyPlayersAllowed,
    NoEntitiesFound,
    NoPlayersFound,
    SelectorsNotAllowed,
    MissingArgument,
}

pub enum EntityErrorView {
    Selector(ErrorView),
    NotSingleEntity,
    NotSinglePlayer,
    OnlyPlayersAllowed,
    NoEntitiesFound,
    NoPlayersFound,
    SelectorsNotAllowed,
    MissingArgument,
}

impl EntityArgumentError {
    pub open spec fn view(&self) -> EntityErrorView {
        match self {
            EntityArgumentError::Selector(e) => EntityErrorView::Selector(e.view()),
            EntityArgumentError::NotSingleEntity => EntityErrorView::NotSingleEntity,
            EntityArgumentError::NotSinglePlayer => EntityErrorView::NotSinglePlayer,
            EntityArgumentError::OnlyPlayersAllowed => EntityErrorView::OnlyPlayersAllowed,
            EntityArgumentError::NoEntitiesFound => EntityErrorView::NoEntitiesFound,
            EntityArgumentError::NoPlayersFound => EntityErrorView::NoPlayersFound,
            EntityArgumentError::SelectorsNotAllowed => EntityErrorView::SelectorsNotAllowed,
            EntityArgumentError::MissingArgument => EntityErrorView::MissingArgument,
        }
    }
}

/// The token that the entity argument reads at `p`: ASCII whitespace is
/// skipped, and the token ends at ASCII whitespace outside square brackets.
pub open spec fn entity_token_start(b: Seq<u8>, p: int) -> int {
    skip_ascii_white(b, p)
}

pub open spec fn entity_token_end(b: Seq<u8>, p: int) -> int {
    bracket_token_end(b, skip_ascii_white(b, p), 0)
}

/// What parsing an entity argument at `p` gives, and where the cursor is left.
pub open spec fn entity_parse(b: Seq<u8>, p: int, allow_selectors: bool, single: bool, players_only: bool)
    -> (Result<SelectorView, EntityErrorView>, int)
{
    let token = decode_utf8(b.subrange(entity_token_start(b, p), entity_token_end(b, p)));
    let end = entity_token_end(b, p);
    if token.len() > 0 && token[0] == '@' && !allow_selectors {
        (Err(EntityErrorView::SelectorsNotAllowed), end)
    } else {
        match selector_read(token) {
            Err(e) => (Err(EntityErrorView::Selector(e)), end),
            Ok(s) => if s.limit > 1 && single {
                (Err(if players_only { EntityErrorView::NotSinglePlayer } else { EntityErrorView::NotSingleEntity }), 0)
            } else if s.includes_entities && players_only && !s.current_entity && !(s.base is Name) {
                (Err(EntityErrorView::OnlyPlayersAllowed), 0)
            } else {
                (Ok(s), end)
            },
        }
    }
}

/// The selector heads offered where selectors may be used.
pub open spec fn selector_heads() -> Seq<Seq<char>> {
    seq!["@p"@, "@a"@, "@r"@, "@s"@, "@e"@, "@n"@]
}

pub open spec fn texts(v: Seq<String>) -> Seq<Seq<char>> {
    v.map_values(|s: String| s@)
}

impl EntityArgumentModel {
    pub closed spec fn is_single(&self) -> bool {
        self.single
    }

    pub closed spec fn is_players_only(&self) -> bool {
        self.players_only
    }

    pub fn entity() -> (r: Self)
        ensures
            r.is_single() && !r.is_players_only(),
    {
        EntityArgumentModel::new(true, false)
    }

    pub fn entities() -> (r: Self)
        ensures
            !r.is_single() && !r.is_players_only(),
    {
        EntityArgumentModel::new(false, false)
    }

    pub fn player() -> (r: Self)
        ensures
            r.is_single() && r.is_players_only(),
    {
        EntityArgumentModel::new(true, true)
    }

    pub fn players() -> (r: Self)
        ensures
            !r.is_single() && r.is_players_only(),
    {
        EntityArgumentModel::new(false, true)
    }

    fn new(single: bool, players_only: bool) -> (r: Self)
        ensures
            r.is_single() == single,
            r.is_players_only() == players_only,
    {
        EntityArgumentModel { single, players_only }
    }

    /// Reads a selector token and checks it against the argument's kind.
    /// On a kind error the cursor goes back to the start of the text.
    pub fn parse(&self, reader: &mut StringReaderModel, allow_selectors: bool) -> (r: Result<Selector, EntityArgumentError>)
        requires
            old(reader).at_cut(),
        ensures
            final(reader).text() == old(reader).text(),
            final(reader).bytes() == old(reader).bytes(),
            final(reader).pos() == entity_parse(old(reader).bytes(), old(reader).pos(), allow_selectors, self.is_single(), self.is_players_only()).1,
            match entity_parse(old(reader).bytes(), old(reader).pos(), allow_selectors, self.is_single(), self.is_players_only()).0 {
                Ok(v) => r matches Ok(s) && s.view() == v,
                Err(e) => r matches Err(x) && x.view() == e,
            },
    {
        let ghost b = reader.bytes();
        let ghost p = reader.pos();
        let token = reader.read_entity_token();
        proof {
            assert(decode_utf8(utf8(token@)) == token@);
        }
        let tc = chars_of(token.as_str());
        let starts_at = tc.len() > 0 && tc[0] == '@';
        if starts_at && !allow_selectors {
            return Err(EntityArgumentError::SelectorsNotAllowed);
        }
        let selector = match Selector::parse(token.as_str()) {
            Ok(s) => s,
            Err(e) => {
                return Err(EntityArgumentError::Selector(e));
            },
        };
        if selector.limit > 1 && self.single {
            reader.set_cursor(0);
            return Err(
                if self.players_only {
                    EntityArgumentError::NotSinglePlayer
                } else {
                    EntityArgumentError::NotSingleEntity
                },
            );
        }
        let is_name = match &selector.base {
            crate::command_selector::SelectorBase::Name(_) => true,
            _ => false,
        };
        if selector.includes_entities && self.players_only && !selector.current_entity && !is_name {
            reader.set_cursor(0);
            return Err(EntityArgumentError::OnlyPlayersAllowed);
        }
        Ok(selector)
    }

    /// Online player names, then (unless players only) the selected
    /// entities, then the selector heads where selectors may be used; those
    /// that start with the remaining text.
    pub fn list_suggestions(&self, source: &CommandSourceModel, remaining: &str) -> (r: Vec<String>)
        ensures
            texts(r@) == match source {
                CommandSourceModel::Shared(p) => with_prefix(
                    (if self.is_players_only() { texts(p.online_player_names@) } else { texts(p.online_player_names@) + texts(p.selected_entities@) })
                        + (if p.can_use_selectors { selector_heads() } else { seq![] }),
                    remaining@,
                ),
                CommandSourceModel::Other => seq![],
            },
    {
        let provider = match source {
            CommandSourceModel::Shared(p) => p,
            CommandSourceModel::Other => {
                let empty: Vec<String> = Vec::new();
                proof {
                    assert(texts(empty@) == Seq::<Seq<char>>::empty());
                }
                return empty;
            },
        };
        let mut all: Vec<String> = Vec::new();
        let mut i: usize = 0;
        while i < provider.online_player_names.len()
            invariant
                0 <= i <= provider.online_player_names@.len(),
                texts(all@) == texts(provider.online_player_names@.subrange(0, i as int)),
            decreases provider.online_player_names@.len() - i,
        {
            let s = provider.online_player_names[i].clone();
            proof {
                assert(texts(all@.push(s)) == texts(all@).push(s@));
                assert(provider.online_player_names@.subrange(0, i + 1) == provider.online_player_names@.subrange(0, i as int).push(provider.online_player_names@[i as int]));
                assert(texts(provider.online_player_names@.subrange(0, i + 1)) == texts(provider.online_player_names@.subrange(0, i as int)).push(s@));
            }
            all.push(s);
            i = i + 1;
        }
        proof {
            assert(provider.online_player_names@.subrange(0, i as int) == provider.online_player_names@);
        }
        let ghost first = texts(all@);
        if !self.players_only {
            let mut j: usize = 0;
            while j < provider.selected_entities.len()
                invariant
                    0 <= j <= provider.selected_entities@.len(),
                    texts(all@) == first + texts(provider.selected_entities@.subrange(0, j as int)),
                decreases provider.selected_entities@.len() - j,
            {
                let s = provider.selected_entities[j].clone();
                proof {
                    assert(texts(all@.push(s)) == texts(all@).push(s@));
                    assert(provider.selected_entities@.subrange(0, j + 1) == provider.selected_entities@.subrange(0, j as int).push(provider.selected_entities@[j as int]));
                    assert(texts(provider.selected_entities@.subrange(0, j + 1)) == texts(provider.selected_entities@.subrange(0, j as int)).push(s@));
                    assert(first + texts(provider.selected_entities@.subrange(0, j as int)).push(s@) == (first + texts(provider.selected_entities@.subrange(0, j as int))).push(s@));
                }
                all.push(s);
                j = j + 1;
            }
            proof {
                assert(provider.selected_entities@.subrange(0, j as int) == provider.selected_entities@);
            }
        } else {
            proof {
                assert(texts(all@) == texts(provider.online_player_names@));
            }
        }
        let ghost before = texts(all@);
        if provider.can_use_selectors {
            all.push("@p".to_owned());
            all.push("@a".to_owned());
            all.push("@r".to_owned());
            all.push("@s".to_owned());
            all.push("@e".to_owned());
            all.push("@n".to_owned());
            proof {
                assert(texts(all@) =~= before + selector_heads());
            }
        } else {
            proof {
                assert(texts(all@) =~= before + Seq::<Seq<char>>::empty());
            }
        }
        filter_prefix(&all, remaining)
    }

    pub fn examples(&self) -> (r: [&'static str; 5])
        ensures
            r@[0]@ == "Player"@,
            r@[1]@ == "0123"@,
            r@[2]@ == "@e"@,
            r@[3]@ == "@e[type=foo]"@,
            r@[4]@ == "dd12be42-52a9-4a91-a8a1-11c01849e498"@,
    {
        ["Player", "0123", "@e", "@e[type=foo]", "dd12be42-52a9-4a91-a8a1-11c01849e498"]
    }

    pub fn info_template(&self) -> (r: EntityArgumentInfoTemplate)
        ensures
            r.is_single() == self.is_single(),
            r.is_players_only() == self.is_players_only(),
    {
        EntityArgumentInfoTemplate { single: self.single, players_only: self.players_only }
    }
}

/// Whether a selector may be used by a source: plain names always may,
/// other selectors only where selectors are allowed.
pub fn check_selector_permission(can_use_selectors: bool, selector: &Selector) -> (r: Result<(), EntityArgumentError>)
    ensures
        r is Ok <==> (selector.view().base is Name || can_use_selectors),
        r is Err ==> r == Err::<(), EntityArgumentError>(EntityArgumentError::SelectorsNotAllowed),
{
    let is_name = match &selector.base {
        crate::command_selector::SelectorBase::Name(_) => true,
        _ => false,
    };
    if !is_name && !can_use_selectors {
        Err(EntityArgumentError::SelectorsNotAllowed)
    } else {
        Ok(())
    }
}

pub enum CommandSourceModel {
    Shared(SharedSuggestionProviderModel),
    Other,
}

impl Default for CommandSourceModel {
    fn default() -> (r: Self)
        ensures
            r is Other,
    {
        CommandSourceModel::Other
    }
}

pub struct SharedSuggestionProviderModel {
    pub online_player_names: Vec<String>,
    pub selected_entities: Vec<String>,
    pub can_use_selectors: bool,
}

fn strings_of(names: &[&str]) -> (r: Vec<String>)
    ensures
        texts(r@) == names@.map_values(|s: &str| s@),
{
    let mut out: Vec<String> = Vec::new();
    let mut i: usize = 0;
    while i < names.len()
        invariant
            0 <= i <= names@.len(),
            texts(out@) == names@.subrange(0, i as int).map_values(|s: &str| s@),
        decreases names@.len() - i,
    {
        let s = names[i].to_owned();
        proof {
            assert(texts(out@.push(s)) == texts(out@).push(s@));
            assert(names@.subrange(0, i + 1).map_values(|s: &str| s@) == names@.subrange(0, i as int).map_values(|s: &str| s@).push(names@[i as int]@));
        }
        out.push(s);
        i = i + 1;
    }
    proof {
        assert(names@.subrange(0, i as int) == names@);
    }
    out
}

impl SharedSuggestionProviderModel {
    pub fn new(can_use_selectors: bool) -> (r: Self)
        ensures
            r.online_player_names@.len() == 0,
            r.selected_entities@.len() == 0,
            r.can_use_selectors == can_use_selectors,
    {
        SharedSuggestionProviderModel { online_player_names: Vec::new(), selected_entities: Vec::new(), can_use_selectors }
    }

    pub fn with_online_players(self, names: &[&str]) -> (r: Self)
        ensures
            texts(r.online_player_names@) == names@.map_values(|s: &str| s@),
            r.selected_entities == self.selected_entities,
            r.can_use_selectors == self.can_use_selectors,
    {
        SharedSuggestionProviderModel { online_player_names: strings_of(names), ..self }
    }

    pub fn with_selected_entities(self, names: &[&str]) -> (r: Self)
        ensures
            texts(r.selected_entities@) == names@.map_values(|s: &str| s@),
            r.online_player_names == self.online_player_names,
            r.can_use_selectors == self.can_use_selectors,
    {
        SharedSuggestionProviderModel { selected_entities: strings_of(names), ..self }
    }
}

#[derive(Debug, Clone, PartialEq, Eq)]
pub struct EntityArgumentInfoTemplate {
    single: bool,
    players_only: bool,
}

impl EntityArgumentInfoTemplate {
    pub closed spec fn is_single(&self) -> bool {
        self.single
    }

    pub closed spec fn is_players_only(&self) -> bool {
        self.players_only
    }

    /// Bit 0 for one entity, bit 1 for players only.
    pub fn serialize_to_network(&self) -> (r: u8)
        ensures
            r == (if self.is_single() { 1u8 } else { 0u8 }) + (if self.is_players_only() { 2u8 } else { 0u8 }),
    {
        let a: u8 = if self.single { 1 } else { 0 };
        let b: u8 = if self.players_only { 2 } else { 0 };
        a + b
    }

    pub fn deserialize_from_network(flags: u8) -> (r: Self)
        ensures
            r.is_single() == (flags % 2 == 1),
            r.is_players_only() == ((flags / 2) % 2 == 1),
    {
        EntityArgumentInfoTemplate { single: flags % 2 == 1, players_only: (flags / 2) % 2 == 1 }
    }

    pub fn serialize_to_json(&self) -> (r: (&'static str, &'static str))
        ensures
            r.0@ == (if self.is_single() { "single"@ } else { "multiple"@ }),
            r.1@ == (if self.is_players_only() { "players"@ } else { "entities"@ }),
    {
        (if self.single { "single" } else { "multiple" }, if self.players_only { "players" } else { "entities" })
    }

    pub fn instantiate(&self) -> (r: EntityArgumentModel)
        ensures
            r.is_single() == self.is_single(),
            r.is_players_only() == self.is_players_only(),
    {
        EntityArgumentModel::new(self.single, self.players_only)
    }
}


/// The players among the entities, in order.
pub open spec fn players_of(es: Seq<EntityRecord>) -> Seq<EntityRecord>
    decreases es.len(),
{
    if es.len() == 0 {
        seq![]
    } else if es[0].player {
        seq![es[0]] + players_of(es.drop_first())
    } else {
        players_of(es.drop_first())
    }
}

/// The players among the entities that a selector found, in order.
pub fn players_among(found: Vec<EntityRecord>) -> (r: Vec<EntityRecord>)
    ensures
        r@ == players_of(found@),
{
    let ghost all = found@;
    let mut rest = found;
    let mut out: Vec<EntityRecord> = Vec::new();
    proof {
        assert(out@ + players_of(rest@) == players_of(all));
    }
    while rest.len() > 0
        invariant
            out@ + players_of(rest@) == players_of(all),
        decreases rest@.len(),
    {
        let ghost before = rest@;
        let e = rest.remove(0);
        proof {
            assert(rest@ == before.drop_first());
            assert(e == before[0]);
        }
        if e.player {
            proof {
                assert(out@.push(e) + players_of(rest@) == out@ + (seq![e] + players_of(rest@)));
            }
            out.push(e);
        }
    }
    proof {
        assert(out@ + Seq::<EntityRecord>::empty() == out@);
    }
    out
}

/// The one entity that a selector found: none, or more than one, is an error.
pub fn single_entity(found: Vec<EntityRecord>) -> (r: Result<EntityRecord, EntityArgumentError>)
    ensures
        found@.len() == 0 ==> r == Err::<EntityRecord, EntityArgumentError>(EntityArgumentError::NoEntitiesFound),
        found@.len() == 1 ==> r == Ok::<EntityRecord, EntityArgumentError>(found@[0]),
        found@.len() > 1 ==> r == Err::<EntityRecord, EntityArgumentError>(EntityArgumentError::NotSingleEntity),
{
    let mut found = found;
    if found.len() == 0 {
        Err(EntityArgumentError::NoEntitiesFound)
    } else if found.len() == 1 {
        Ok(found.remove(0))
    } else {
        Err(EntityArgumentError::NotSingleEntity)
    }
}

/// The one player among those found: anything but exactly one is an error.
pub fn single_player(players: Vec<EntityRecord>) -> (r: Result<EntityRecord, EntityArgumentError>)
    ensures
        players@.len() == 1 ==> r == Ok::<EntityRecord, EntityArgumentError>(players@[0]),
        players@.len() != 1 ==> r == Err::<EntityRecord, EntityArgumentError>(EntityArgumentError::NoPlayersFound),
{
    let mut players = players;
    if players.len() == 1 {
        Ok(players.remove(0))
    } else {
        Err(EntityArgumentError::NoPlayersFound)
    }
}

/// What was found, which must not be empty: `empty` is the error when it is.
pub fn non_empty(found: Vec<EntityRecord>, empty: EntityArgumentError) -> (r: Result<Vec<EntityRecord>, EntityArgumentError>)
    ensures
        found@.len() == 0 ==> r == Err::<Vec<EntityRecord>, EntityArgumentError>(empty),
        found@.len() > 0 ==> r == Ok::<Vec<EntityRecord>, EntityArgumentError>(found),
{
    if found.len() == 0 {
        Err(empty)
    } else {
        Ok(found)
    }
}

/// A single-entity argument never gives a selector of more than one entity;
/// a players-only argument never gives one that takes in other entities,
/// unless it is `@s` or a name; and where selectors may not be used, a
/// token that starts with `@` is refused.
pub proof fn lemma_entity_parse_respects_kind(b: Seq<u8>, p: int, allow_selectors: bool, single: bool, players_only: bool)
    ensures
        entity_parse(b, p, allow_selectors, single, players_only).0 matches Ok(s) ==> (single ==> s.limit <= 1)
            && (players_only ==> !s.includes_entities || s.current_entity || s.base is Name),
        ({
            let token = decode_utf8(b.subrange(entity_token_start(b, p), entity_token_end(b, p)));
            token.len() > 0 && token[0] == '@' && !allow_selectors
                ==> entity_parse(b, p, allow_selectors, single, players_only).0 == Err::<SelectorView, EntityErrorView>(EntityErrorView::SelectorsNotAllowed)
        }),
{
}
} // verus!
