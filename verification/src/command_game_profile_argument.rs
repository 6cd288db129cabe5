//! The game profile argument: a player name, looked up in the name cache
//! when the command runs, or a player selector, whose selected players give
//! the profiles.

use vstd::prelude::*;
use vstd::utf8::*;
use crate::text::utf8;
use crate::chars::{with_prefix, filter_prefix, chars_of};
use crate::string_reader::{StringReaderModel, bracket_token_end, space_end};
use crate::command_selector::{Selector, SelectorError, SelectorView, BaseView, ErrorView, EntityRecord, selector_read};
use crate::command_entity_argument::{selector_heads, texts};
use crate::player_access::NameAndId;
use crate::arg_map::ArgMap;

verus! {

broadcast use vstd::utf8::encode_utf8_valid_utf8, vstd::utf8::encode_utf8_decode_utf8;

#[derive(Debug, Clone, PartialEq, Eq)]
pub struct GameProfileArgumentModel;

#[derive(Debug, Clone, PartialEq, Eq)]
pub enum GameProfileArgumentError {
    Selector(SelectorError),
    OnlyPlayersAllowed,
    SelectorsNotAllowed,
    UnknownPlayer,
    NoPlayersFound,
    MissingArgument,
}

pub enum ProfileErrorView {
    Selector(ErrorView),
    OnlyPlayersAllowed,
    SelectorsNotAllowed,
    UnknownPlayer,
    NoPlayersFound,
    MissingArgument,
}

impl GameProfileArgumentError {
    pub open spec fn view(&self) -> ProfileErrorView {
        match self {
            GameProfileArgumentError::Selector(e) => ProfileErrorView::Selector(e.view()),
            GameProfileArgumentError::OnlyPlayersAllowed => ProfileErrorView::OnlyPlayersAllowed,
            GameProfileArgumentError::SelectorsNotAllowed => ProfileErrorView::SelectorsNotAllowed,
            GameProfileArgumentError::UnknownPlayer => ProfileErrorView::UnknownPlayer,
            GameProfileArgumentError::NoPlayersFound => ProfileErrorView::NoPlayersFound,
            GameProfileArgumentError::MissingArgument => ProfileErrorView::MissingArgument,
        }
    }
}

#[derive(Debug, PartialEq, Eq)]
pub enum GameProfileResultModel {
    Name(String),
    Selector(Box<Selector>),
}

pub enum ProfileResultView {
    Name(Seq<char>),
    Selector(SelectorView),
}

impl GameProfileResultModel {
    pub open spec fn view(&self) -> ProfileResultView {
        match self {
            GameProfileResultModel::Name(n) => ProfileResultView::Name(n@),
            GameProfileResultModel::Selector(s) => ProfileResultView::Selector(s.view()),
        }
    }
}

/// What parsing a game profile at `p` gives, and where the cursor is left.
pub open spec fn profile_parse(b: Seq<u8>, p: int, allow_selectors: bool) -> (Result<ProfileResultView, ProfileErrorView>, int) {
    if p < b.len() && b[p] == 64u8 {
        if !allow_selectors {
            (Err(ProfileErrorView::SelectorsNotAllowed), p)
        } else {
            let e = bracket_token_end(b, p, 0);
            match selector_read(decode_utf8(b.subrange(p, e))) {
                Err(er) => (Err(ProfileErrorView::Selector(er)), e),
                Ok(s) => if s.includes_entities {
                    (Err(ProfileErrorView::OnlyPlayersAllowed), e)
                } else {
                    (Ok(ProfileResultView::Selector(s)), e)
                },
            }
        }
    } else {
        let e = space_end(b, p);
        (Ok(ProfileResultView::Name(decode_utf8(b.subrange(p, e)))), e)
    }
}

impl GameProfileArgumentModel {
    pub fn game_profile() -> (r: Self) {
        GameProfileArgumentModel
    }

    /// A selector at an `@`, which must select only players, else a name up to the next space.
    pub fn parse(&self, reader: &mut StringReaderModel, allow_selectors: bool) -> (r: Result<GameProfileResultModel, GameProfileArgumentError>)
        requires
            old(reader).at_cut(),
        ensures
            final(reader).text() == old(reader).text(),
            final(reader).bytes() == old(reader).bytes(),
            final(reader).pos() == profile_parse(old(reader).bytes(), old(reader).pos(), allow_selectors).1,
            match profile_parse(old(reader).bytes(), old(reader).pos(), allow_selectors).0 {
                Ok(v) => r matches Ok(x) && x@ == v,
                Err(e) => r matches Err(x) && x.view() == e,
            },
    {
        if reader.can_read() && reader.peek_byte() == 64 {
            if !allow_selectors {
                return Err(GameProfileArgumentError::SelectorsNotAllowed);
            }
            let token = reader.read_bracketed_token();
            proof {
                assert(decode_utf8(utf8(token@)) == token@);
            }
            let selector = match Selector::parse(token.as_str()) {
                Ok(s) => s,
                Err(e) => {
                    return Err(GameProfileArgumentError::Selector(e));
                },
            };
            if selector.includes_entities {
                return Err(GameProfileArgumentError::OnlyPlayersAllowed);
            }
            Ok(GameProfileResultModel::Selector(Box::new(selector)))
        } else {
            let start = reader.cursor();
            reader.skip_to_space();
            let name = reader.slice_string(start, reader.cursor());
            proof {
                assert(decode_utf8(utf8(name@)) == name@);
            }
            Ok(GameProfileResultModel::Name(name))
        }
    }

    /// Online player names, then the selector heads where selectors may be
    /// used; those that start with the remaining text.
    pub fn list_suggestions(&self, source: &CommandSourceModel, remaining: &str) -> (r: Vec<String>)
        ensures
            texts(r@) == match source {
                CommandSourceModel::Shared(p) => with_prefix(
                    texts(p.online_player_names@) + (if p.can_use_selectors { selector_heads() } else { seq![] }),
                    remaining@,
                ),
                CommandSourceModel::Other => seq![],
            },
    {
        let provider = match source {
            CommandSourceModel::Shared(p) => p,
            CommandSourceModel::Other => {
                let empty: Vec<String> = Vec::new();
                proof {
                    assert(texts(empty@) == Seq::<Seq<char>>::empty());
                }
                return empty;
            },
        };
        let mut all: Vec<String> = Vec::new();
        let mut i: usize = 0;
        while i < provider.online_player_names.len()
            invariant
                0 <= i <= provider.online_player_names@.len(),
                texts(all@) == texts(provider.online_player_names@.subrange(0, i as int)),
            decreases provider.online_player_names@.len() - i,
        {
            let s = provider.online_player_names[i].clone();
            proof {
                assert(texts(all@.push(s)) == texts(all@).push(s@));
                assert(provider.online_player_names@.subrange(0, i + 1) == provider.online_player_names@.subrange(0, i as int).push(provider.online_player_names@[i as int]));
                assert(texts(provider.online_player_names@.subrange(0, i + 1)) == texts(provider.online_player_names@.subrange(0, i as int)).push(s@));
            }
            all.push(s);
            i = i + 1;
        }
        proof {
            assert(provider.online_player_names@.subrange(0, i as int) == provider.online_player_names@);
        }
        let ghost before = texts(all@);
        if provider.can_use_selectors {
            all.push("@p".to_owned());
            all.push("@a".to_owned());
            all.push("@r".to_owned());
            all.push("@s".to_owned());
            all.push("@e".to_owned());
            all.push("@n".to_owned());
            proof {
                assert(texts(all@) =~= before + selector_heads());
            }
        } else {
            proof {
                assert(texts(all@) =~= before + Seq::<Seq<char>>::empty());
            }
        }
        filter_prefix(&all, remaining)
    }

    pub fn examples(&self) -> (r: [&'static str; 4])
        ensures
            r@[0]@ == "Player"@,
            r@[1]@ == "0123"@,
            r@[2]@ == "dd12be42-52a9-4a91-a8a1-11c01849e498"@,
            r@[3]@ == "@e"@,
    {
        ["Player", "0123", "dd12be42-52a9-4a91-a8a1-11c01849e498", "@e"]
    }
}

/// The profiles of the selected entities that are players, in order.
pub open spec fn player_profiles(selected: Seq<EntityRecord>) -> Seq<(Seq<char>, Seq<char>)>
    decreases selected.len(),
{
    if selected.len() == 0 {
        seq![]
    } else if selected[0].player {
        seq![(selected[0].uuid@, selected[0].name@)] + player_profiles(selected.drop_first())
    } else {
        player_profiles(selected.drop_first())
    }
}

pub open spec fn profile_views(v: Seq<NameAndId>) -> Seq<(Seq<char>, Seq<char>)> {
    v.map_values(|p: NameAndId| p@)
}

/// What a game profile result gives: a cached profile for a name; for a
/// selector, the players among the entities it selected, if it may be used.
pub open spec fn profiles_of(
    result: ProfileResultView,
    cache: Map<Seq<char>, NameAndId>,
    can_use_selectors: bool,
    selected: Seq<EntityRecord>,
) -> Result<Seq<(Seq<char>, Seq<char>)>, ProfileErrorView> {
    match result {
        ProfileResultView::Name(n) => if cache.contains_key(n) {
            Ok(seq![cache[n]@])
        } else {
            Err(ProfileErrorView::UnknownPlayer)
        },
        ProfileResultView::Selector(s) => if !(s.base is Name) && !can_use_selectors {
            Err(ProfileErrorView::SelectorsNotAllowed)
        } else if player_profiles(selected).len() == 0 {
            Err(ProfileErrorView::NoPlayersFound)
        } else {
            Ok(player_profiles(selected))
        },
    }
}

impl GameProfileResultModel {
    /// The profiles this result stands for. For a selector, `selected` are
    /// the entities it selected, in order.
    pub fn get_names(&self, context: &CommandContextModel, selected: &[EntityRecord]) -> (r: Result<Vec<NameAndId>, GameProfileArgumentError>)
        ensures
            match profiles_of(self@, context.cache_view(), context.selectors_allowed(), selected@) {
                Ok(ps) => r matches Ok(v) && profile_views(v@) == ps,
                Err(e) => r matches Err(x) && x.view() == e,
            },
    {
        match self {
            GameProfileResultModel::Name(name) => match context.name_to_id_cache.get(name.as_str()) {
                Some(profile) => {
                    let mut out: Vec<NameAndId> = Vec::new();
                    out.push(profile.copy());
                    proof {
                        assert(profile_views(out@) =~= seq![context.cache_view()[name@]@]);
                    }
                    Ok(out)
                },
                None => Err(GameProfileArgumentError::UnknownPlayer),
            },
            GameProfileResultModel::Selector(selector) => {
                let is_name = match &selector.base {
                    crate::command_selector::SelectorBase::Name(_) => true,
                    _ => false,
                };
                if !is_name && !context.can_use_selectors {
                    return Err(GameProfileArgumentError::SelectorsNotAllowed);
                }
                let mut out: Vec<NameAndId> = Vec::new();
                let mut i: usize = 0;
                proof {
                    assert(selected@.subrange(0, selected@.len() as int) == selected@);
                    assert(profile_views(out@) == Seq::<(Seq<char>, Seq<char>)>::empty());
                    assert(profile_views(out@) + player_profiles(selected@) == player_profiles(selected@));
                }
                while i < selected.len()
                    invariant
                        0 <= i <= selected@.len(),
                        player_profiles(selected@) == profile_views(out@) + player_profiles(selected@.subrange(i as int, selected@.len() as int)),
                    decreases selected@.len() - i,
                {
                    let ghost rest = selected@.subrange(i as int, selected@.len() as int);
                    proof {
                        assert(rest[0] == selected@[i as int]);
                        assert(rest.drop_first() == selected@.subrange(i + 1, selected@.len() as int));
                    }
                    if selected[i].player {
                        let p = NameAndId { uuid: selected[i].uuid.clone(), name: selected[i].name.clone() };
                        proof {
                            assert(profile_views(out@.push(p)) == profile_views(out@).push(p@));
                            assert(profile_views(out@) + (seq![p@] + player_profiles(rest.drop_first()))
                                == profile_views(out@.push(p)) + player_profiles(rest.drop_first()));
                        }
                        out.push(p);
                    }
                    i = i + 1;
                }
                proof {
                    assert(selected@.subrange(i as int, selected@.len() as int) == Seq::<EntityRecord>::empty());
                    assert(profile_views(out@) + Seq::<(Seq<char>, Seq<char>)>::empty() == profile_views(out@));
                }
                if out.len() == 0 {
                    Err(GameProfileArgumentError::NoPlayersFound)
                } else {
                    Ok(out)
                }
            },
        }
    }
}

/// The parsed game profile arguments of a command, the name cache, and
/// whether the source may use selectors.
pub struct CommandContextModel {
    arguments: ArgMap<GameProfileResultModel>,
    name_to_id_cache: ArgMap<NameAndId>,
    can_use_selectors: bool,
}

impl CommandContextModel {
    pub closed spec fn arguments_view(&self) -> Map<Seq<char>, GameProfileResultModel> {
        self.arguments@
    }

    pub closed spec fn cache_view(&self) -> Map<Seq<char>, NameAndId> {
        self.name_to_id_cache@
    }

    pub closed spec fn selectors_allowed(&self) -> bool {
        self.can_use_selectors
    }

    pub fn new() -> (r: Self)
        ensures
            r.arguments_view() == Map::<Seq<char>, GameProfileResultModel>::empty(),
            r.cache_view() == Map::<Seq<char>, NameAndId>::empty(),
            r.selectors_allowed(),
    {
        CommandContextModel { arguments: ArgMap::new(), name_to_id_cache: ArgMap::new(), can_use_selectors: true }
    }

    pub fn with_argument(self, name: &str, result: GameProfileResultModel) -> (r: Self)
        ensures
            r.arguments_view() == self.arguments_view().insert(name@, result),
            r.cache_view() == self.cache_view(),
            r.selectors_allowed() == self.selectors_allowed(),
    {
        let mut arguments = self.arguments;
        arguments.insert(name.to_owned(), result);
        CommandContextModel { arguments, ..self }
    }

    pub fn with_cached_profile(self, profile: NameAndId) -> (r: Self)
        ensures
            r.cache_view() == self.cache_view().insert(profile.name@, profile),
            r.arguments_view() == self.arguments_view(),
            r.selectors_allowed() == self.selectors_allowed(),
    {
        let mut cache = self.name_to_id_cache;
        let key = profile.name.clone();
        cache.insert(key, profile);
        CommandContextModel { name_to_id_cache: cache, ..self }
    }

    pub fn with_selector_permission(self, allowed: bool) -> (r: Self)
        ensures
            r.selectors_allowed() == allowed,
            r.arguments_view() == self.arguments_view(),
            r.cache_view() == self.cache_view(),
    {
        CommandContextModel { can_use_selectors: allowed, ..self }
    }

    pub fn argument(&self, name: &str) -> (r: Option<&GameProfileResultModel>)
        ensures
            r is Some <==> self.arguments_view().contains_key(name@),
            r matches Some(v) ==> *v == self.arguments_view()[name@],
    {
        self.arguments.get(name)
    }
}

impl Default for CommandContextModel {
    fn default() -> (r: Self)
        ensures
            r.arguments_view() == Map::<Seq<char>, GameProfileResultModel>::empty(),
            r.cache_view() == Map::<Seq<char>, NameAndId>::empty(),
            r.selectors_allowed(),
    {
        CommandContextModel::new()
    }
}

/// The profiles of the named argument; `selected` are the entities its
/// selector selected, if it is one.
pub fn get_game_profiles(context: &CommandContextModel, name: &str, selected: &[EntityRecord]) -> (r: Result<Vec<NameAndId>, GameProfileArgumentError>)
    ensures
        !context.arguments_view().contains_key(name@) ==> r == Err::<Vec<NameAndId>, GameProfileArgumentError>(GameProfileArgumentError::MissingArgument),
        context.arguments_view().contains_key(name@) ==> match profiles_of(context.arguments_view()[name@]@, context.cache_view(), context.selectors_allowed(), selected@) {
            Ok(ps) => r matches Ok(v) && profile_views(v@) == ps,
            Err(e) => r matches Err(x) && x.view() == e,
        },
{
    match context.argument(name) {
        Some(result) => result.get_names(context, selected),
        None => Err(GameProfileArgumentError::MissingArgument),
    }
}

pub enum CommandSourceModel {
    Shared(SharedSuggestionProviderModel),
    Other,
}

pub struct SharedSuggestionProviderModel {
    pub online_player_names: Vec<String>,
    pub can_use_selectors: bool,
}

impl SharedSuggestionProviderModel {
    pub fn new(can_use_selectors: bool) -> (r: Self)
        ensures
            r.online_player_names@.len() == 0,
            r.can_use_selectors == can_use_selectors,
    {
        SharedSuggestionProviderModel { online_player_names: Vec::new(), can_use_selectors }
    }

    pub fn with_online_players(self, names: &[&str]) -> (r: Self)
        ensures
            texts(r.online_player_names@) == names@.map_values(|s: &str| s@),
            r.can_use_selectors == self.can_use_selectors,
    {
        let mut out: Vec<String> = Vec::new();
        let mut i: usize = 0;
        while i < names.len()
            invariant
                0 <= i <= names@.len(),
                texts(out@) == names@.subrange(0, i as int).map_values(|s: &str| s@),
            decreases names@.len() - i,
        {
            let s = names[i].to_owned();
            proof {
                assert(texts(out@.push(s)) == texts(out@).push(s@));
                assert(names@.subrange(0, i + 1).map_values(|s: &str| s@) == names@.subrange(0, i as int).map_values(|s: &str| s@).push(names@[i as int]@));
            }
            out.push(s);
            i = i + 1;
        }
        proof {
            assert(names@.subrange(0, i as int) == names@);
        }
        SharedSuggestionProviderModel { online_player_names: out, can_use_selectors: self.can_use_selectors }
    }
}

} // verus!
