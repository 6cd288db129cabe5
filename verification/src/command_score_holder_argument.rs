//! The score holder argument: a selector, `*` for every tracked holder, a
//! `#name` that is only a name, a UUID, or a player name (which is also only
//! a name when no such player is there).

use vstd::prelude::*;
use vstd::utf8::*;
use crate::text::{utf8, str_eq};
use crate::chars::{with_prefix, filter_prefix, chars_of};
use crate::string_reader::{StringReaderModel, selector_token_end, space_end};
use crate::command_selector::{Selector, SelectorError, SelectorView, ErrorView, EntityRecord, selector_read};
use crate::command_entity_argument::{selector_heads, texts};
use crate::arg_map::ArgMap;

verus! {

broadcast use vstd::utf8::encode_utf8_valid_utf8, vstd::utf8::encode_utf8_decode_utf8;

#[derive(Debug, Clone, PartialEq, Eq)]
pub struct ScoreHolderArgumentModel {
    multiple: bool,
}

#[derive(Debug, Clone, PartialEq, Eq)]
pub enum ScoreHolderArgumentError {
    Selector(SelectorError),
    NotSingleEntity,
    SelectorsNotAllowed,
    NoEntitiesFound,
    NoResults,
    MissingArgument,
}

pub enum HolderErrorView {
    Selector(ErrorView),
    NotSingleEntity,
    SelectorsNotAllowed,
    NoEntitiesFound,
    NoResults,
    MissingArgument,
}

impl ScoreHolderArgumentError {
    pub open spec fn view(&self) -> HolderErrorView {
        match self {
            ScoreHolderArgumentError::Selector(e) => HolderErrorView::Selector(e.view()),
            ScoreHolderArgumentError::NotSingleEntity => HolderErrorView::NotSingleEntity,
            ScoreHolderArgumentError::SelectorsNotAllowed => HolderErrorView::SelectorsNotAllowed,
            ScoreHolderArgumentError::NoEntitiesFound => HolderErrorView::NoEntitiesFound,
            ScoreHolderArgumentError::NoResults => HolderErrorView::NoResults,
            ScoreHolderArgumentError::MissingArgument => HolderErrorView::MissingArgument,
        }
    }
}

#[derive(Debug, PartialEq, Eq)]
pub enum ScoreHolderResultModel {
    Selector(Box<Selector>),
    Wildcard,
    NameOnly(String),
    UuidOrName(String),
    PlayerNameOrNameOnly(String),
}

pub enum HolderResultView {
    Selector(SelectorView),
    Wildcard,
    NameOnly(Seq<char>),
    UuidOrName(Seq<char>),
    PlayerNameOrNameOnly(Seq<char>),
}

impl ScoreHolderResultModel {
    pub open spec fn view(&self) -> HolderResultView {
        match self {
            ScoreHolderResultModel::Selector(s) => HolderResultView::Selector(s.view()),
            ScoreHolderResultModel::Wildcard => HolderResultView::Wildcard,
            ScoreHolderResultModel::NameOnly(n) => HolderResultView::NameOnly(n@),
            ScoreHolderResultModel::UuidOrName(n) => HolderResultView::UuidOrName(n@),
            ScoreHolderResultModel::PlayerNameOrNameOnly(n) => HolderResultView::PlayerNameOrNameOnly(n@),
        }
    }
}

pub open spec fn is_hex_byte(c: u8) -> bool {
    ||| 48 <= c <= 57
    ||| 65 <= c <= 70
    ||| 97 <= c <= 102
}

/// A UUID in its text form: hex digits in groups of 8, 4, 4, 4 and 12,
/// joined by `-`.
pub open spec fn uuid_text(b: Seq<u8>) -> bool {
    &&& b.len() == 36
    &&& forall|i: int| 0 <= i < 36 ==> if i == 8 || i == 13 || i == 18 || i == 23 {
        #[trigger] b[i] == 45u8
    } else {
        is_hex_byte(b[i])
    }
}

/// What a plain (non-selector) holder text reads as.
pub open spec fn plain_holder(t: Seq<char>) -> HolderResultView {
    if t == "*"@ {
        HolderResultView::Wildcard
    } else if t.len() > 0 && t[0] == '#' {
        HolderResultView::NameOnly(t)
    } else if uuid_text(utf8(t)) {
        HolderResultView::UuidOrName(t)
    } else {
        HolderResultView::PlayerNameOrNameOnly(t)
    }
}

/// What parsing a score holder at `p` gives, and where the cursor is left.
pub open spec fn holder_parse(b: Seq<u8>, p: int, allow_selectors: bool, multiple: bool) -> (Result<HolderResultView, HolderErrorView>, int) {
    if p < b.len() && b[p] == 64u8 {
        if !allow_selectors {
            (Err(HolderErrorView::SelectorsNotAllowed), p)
        } else {
            let e = selector_token_end(b, p);
            match selector_read(decode_utf8(b.subrange(p, e))) {
                Err(er) => (Err(HolderErrorView::Selector(er)), e),
                Ok(s) => if !multiple && s.limit > 1 {
                    (Err(HolderErrorView::NotSingleEntity), e)
                } else {
                    (Ok(HolderResultView::Selector(s)), e)
                },
            }
        }
    } else {
        let e = space_end(b, p);
        (Ok(plain_holder(decode_utf8(b.subrange(p, e)))), e)
    }
}

fn is_uuid(t: &str) -> (r: bool)
    ensures
        r == uuid_text(utf8(t@)),
{
    let b = t.as_bytes();
    if b.len() != 36 {
        return false;
    }
    let mut i: usize = 0;
    while i < 36
        invariant
            b@.len() == 36,
            b@ == utf8(t@),
            0 <= i <= 36,
            forall|j: int| 0 <= j < i ==> if j == 8 || j == 13 || j == 18 || j == 23 {
                #[trigger] b@[j] == 45u8
            } else {
                is_hex_byte(b@[j])
            },
        decreases 36 - i,
    {
        let c = b[i];
        let ok = if i == 8 || i == 13 || i == 18 || i == 23 {
            c == 45
        } else {
            (c >= 48 && c <= 57) || (c >= 65 && c <= 70) || (c >= 97 && c <= 102)
        };
        if !ok {
            return false;
        }
        i = i + 1;
    }
    true
}

impl ScoreHolderArgumentModel {
    pub closed spec fn is_multiple(&self) -> bool {
        self.multiple
    }

    pub fn score_holder() -> (r: Self)
        ensures
            !r.is_multiple(),
    {
        ScoreHolderArgumentModel { multiple: false }
    }

    pub fn score_holders() -> (r: Self)
        ensures
            r.is_multiple(),
    {
        ScoreHolderArgumentModel { multiple: true }
    }

    /// A selector at an `@` (one entity at most unless several are allowed),
    /// else the text up to the next space.
    pub fn parse(&self, reader: &mut StringReaderModel, allow_selectors: bool) -> (r: Result<ScoreHolderResultModel, ScoreHolderArgumentError>)
        requires
            old(reader).at_cut(),
            allow_selectors && old(reader).pos() + 1 < old(reader).bytes().len() && old(reader).bytes()[old(reader).pos()] == 64u8
                ==> old(reader).bytes()[old(reader).pos() + 1] < 0x80,
        ensures
            final(reader).text() == old(reader).text(),
            final(reader).bytes() == old(reader).bytes(),
            final(reader).pos() == holder_parse(old(reader).bytes(), old(reader).pos(), allow_selectors, self.is_multiple()).1,
            match holder_parse(old(reader).bytes(), old(reader).pos(), allow_selectors, self.is_multiple()).0 {
                Ok(v) => r matches Ok(x) && x@ == v,
                Err(e) => r matches Err(x) && x.view() == e,
            },
    {
        if reader.can_read() && reader.peek_byte() == 64 {
            if !allow_selectors {
                return Err(ScoreHolderArgumentError::SelectorsNotAllowed);
            }
            let token = reader.read_argument_token();
            proof {
                assert(decode_utf8(utf8(token@)) == token@);
            }
            let selector = match Selector::parse(token.as_str()) {
                Ok(s) => s,
                Err(e) => {
                    return Err(ScoreHolderArgumentError::Selector(e));
                },
            };
            if !self.multiple && selector.limit > 1 {
                return Err(ScoreHolderArgumentError::NotSingleEntity);
            }
            Ok(ScoreHolderResultModel::Selector(Box::new(selector)))
        } else {
            let start = reader.cursor();
            reader.skip_to_space();
            let text = reader.slice_string(start, reader.cursor());
            proof {
                assert(decode_utf8(utf8(text@)) == text@);
            }
            if str_eq(text.as_str(), "*") {
                Ok(ScoreHolderResultModel::Wildcard)
            } else {
                let tc = chars_of(text.as_str());
                if tc.len() > 0 && tc[0] == '#' {
                    Ok(ScoreHolderResultModel::NameOnly(text))
                } else if is_uuid(text.as_str()) {
                    Ok(ScoreHolderResultModel::UuidOrName(text))
                } else {
                    Ok(ScoreHolderResultModel::PlayerNameOrNameOnly(text))
                }
            }
        }
    }

    /// Online player names, then the selector heads where selectors may be
    /// used; those that start with the remaining text.
    pub fn list_suggestions(&self, source: &CommandSourceModel, remaining: &str) -> (r: Vec<String>)
        ensures
            texts(r@) == match source {
                CommandSourceModel::Shared(p) => with_prefix(
                    texts(p.online_player_names@) + (if p.can_use_selectors { selector_heads() } else { seq![] }),
                    remaining@,
                ),
                CommandSourceModel::Other => seq![],
            },
    {
        let provider = match source {
            CommandSourceModel::Shared(p) => p,
            CommandSourceModel::Other => {
                let empty: Vec<String> = Vec::new();
                proof {
                    assert(texts(empty@) == Seq::<Seq<char>>::empty());
                }
                return empty;
            },
        };
        let mut all: Vec<String> = Vec::new();
        let mut i: usize = 0;
        while i < provider.online_player_names.len()
            invariant
                0 <= i <= provider.online_player_names@.len(),
                texts(all@) == texts(provider.online_player_names@.subrange(0, i as int)),
            decreases provider.online_player_names@.len() - i,
        {
            let s = provider.online_player_names[i].clone();
            proof {
                assert(texts(all@.push(s)) == texts(all@).push(s@));
                assert(provider.online_player_names@.subrange(0, i + 1) == provider.online_player_names@.subrange(0, i as int).push(provider.online_player_names@[i as int]));
                assert(texts(provider.online_player_names@.subrange(0, i + 1)) == texts(provider.online_player_names@.subrange(0, i as int)).push(s@));
            }
            all.push(s);
            i = i + 1;
        }
        proof {
            assert(provider.online_player_names@.subrange(0, i as int) == provider.online_player_names@);
        }
        let ghost before = texts(all@);
        if provider.can_use_selectors {
            all.push("@p".to_owned());
            all.push("@a".to_owned());
            all.push("@r".to_owned());
            all.push("@s".to_owned());
            all.push("@e".to_owned());
            all.push("@n".to_owned());
            proof {
                assert(texts(all@) =~= before + selector_heads());
            }
        } else {
            proof {
                assert(texts(all@) =~= before + Seq::<Seq<char>>::empty());
            }
        }
        filter_prefix(&all, remaining)
    }

    pub fn examples(&self) -> (r: [&'static str; 4])
        ensures
            r@[0]@ == "Player"@,
            r@[1]@ == "0123"@,
            r@[2]@ == "*"@,
            r@[3]@ == "@e"@,
    {
        ["Player", "0123", "*", "@e"]
    }

    pub fn info_template(&self) -> (r: ScoreHolderInfoTemplate)
        ensures
            r.is_multiple() == self.is_multiple(),
    {
        ScoreHolderInfoTemplate { multiple: self.multiple }
    }
}

/// Something that can hold scores: an entity (with its UUID) or a plain name.
#[derive(Debug, Clone, PartialEq, Eq)]
pub struct ScoreHolderModel {
    name: String,
    uuid: Option<String>,
    entity: bool,
}

pub open spec fn opt_text(o: Option<String>) -> Option<Seq<char>> {
    match o {
        Some(s) => Some(s@),
        None => None,
    }
}

/// A score holder as values: name, UUID if an entity, whether an entity.
pub open spec fn name_only_view(name: Seq<char>) -> (Seq<char>, Option<Seq<char>>, bool) {
    (name, None, false)
}

pub open spec fn entity_view(e: EntityRecord) -> (Seq<char>, Option<Seq<char>>, bool) {
    (e.name@, Some(e.uuid@), true)
}

impl ScoreHolderModel {
    pub closed spec fn view(&self) -> (Seq<char>, Option<Seq<char>>, bool) {
        (self.name@, opt_text(self.uuid), self.entity)
    }

    pub fn name_only(name: &str) -> (r: Self)
        ensures
            r@ == name_only_view(name@),
    {
        ScoreHolderModel { name: name.to_owned(), uuid: None, entity: false }
    }

    fn from_entity(entity: &EntityRecord) -> (r: Self)
        ensures
            r@ == entity_view(*entity),
    {
        ScoreHolderModel { name: entity.name.clone(), uuid: Some(entity.uuid.clone()), entity: true }
    }

    pub fn name(&self) -> (r: &str)
        ensures
            r@ == self@.0,
    {
        self.name.as_str()
    }

    pub fn uuid(&self) -> (r: Option<&str>)
        ensures
            match r {
                Some(u) => self@.1 == Some(u@),
                None => self@.1 is None,
            },
    {
        match &self.uuid {
            Some(u) => Some(u.as_str()),
            None => None,
        }
    }

    pub fn copy(&self) -> (r: Self)
        ensures
            r@ == self@,
    {
        let uuid = match &self.uuid {
            Some(u) => Some(u.clone()),
            None => None,
        };
        ScoreHolderModel { name: self.name.clone(), uuid, entity: self.entity }
    }
}

pub open spec fn holder_views(v: Seq<ScoreHolderModel>) -> Seq<(Seq<char>, Option<Seq<char>>, bool)> {
    v.map_values(|h: ScoreHolderModel| h@)
}

/// The holders for entities, in order.
pub open spec fn entity_holders(es: Seq<EntityRecord>) -> Seq<(Seq<char>, Option<Seq<char>>, bool)> {
    es.map_values(|e: EntityRecord| entity_view(e))
}

/// The entities with this UUID, as holders, in order.
pub open spec fn with_uuid(es: Seq<EntityRecord>, uuid: Seq<char>) -> Seq<(Seq<char>, Option<Seq<char>>, bool)>
    decreases es.len(),
{
    if es.len() == 0 {
        seq![]
    } else if es[0].uuid@ == uuid {
        seq![entity_view(es[0])] + with_uuid(es.drop_first(), uuid)
    } else {
        with_uuid(es.drop_first(), uuid)
    }
}

/// The first player with this name, if any.
pub open spec fn player_named(es: Seq<EntityRecord>, name: Seq<char>) -> Option<EntityRecord>
    decreases es.len(),
{
    if es.len() == 0 {
        None
    } else if es[0].player && es[0].name@ == name {
        Some(es[0])
    } else {
        player_named(es.drop_first(), name)
    }
}

/// What a score holder result gives. `wildcard` are the holders that `*`
/// stands for; `selected` the entities that a selector selected.
pub open spec fn holders_of(
    result: HolderResultView,
    entities: Seq<EntityRecord>,
    can_use_selectors: bool,
    wildcard: Seq<(Seq<char>, Option<Seq<char>>, bool)>,
    selected: Seq<EntityRecord>,
) -> Result<Seq<(Seq<char>, Option<Seq<char>>, bool)>, HolderErrorView> {
    match result {
        HolderResultView::Selector(s) => if !(s.base is Name) && !can_use_selectors {
            Err(HolderErrorView::SelectorsNotAllowed)
        } else if selected.len() == 0 {
            Err(HolderErrorView::NoEntitiesFound)
        } else {
            Ok(entity_holders(selected))
        },
        HolderResultView::Wildcard => if wildcard.len() == 0 {
            Err(HolderErrorView::NoResults)
        } else {
            Ok(wildcard)
        },
        HolderResultView::NameOnly(n) => Ok(seq![name_only_view(n)]),
        HolderResultView::UuidOrName(t) => if with_uuid(entities, t).len() == 0 {
            Ok(seq![name_only_view(t)])
        } else {
            Ok(with_uuid(entities, t))
        },
        HolderResultView::PlayerNameOrNameOnly(t) => match player_named(entities, t) {
            Some(e) => Ok(seq![entity_view(e)]),
            None => Ok(seq![name_only_view(t)]),
        },
    }
}

fn copy_holders(v: &Vec<ScoreHolderModel>) -> (r: Vec<ScoreHolderModel>)
    ensures
        holder_views(r@) == holder_views(v@),
{
    let mut out: Vec<ScoreHolderModel> = Vec::new();
    let mut i: usize = 0;
    while i < v.len()
        invariant
            0 <= i <= v@.len(),
            holder_views(out@) == holder_views(v@.subrange(0, i as int)),
        decreases v@.len() - i,
    {
        let h = v[i].copy();
        proof {
            assert(holder_views(out@.push(h)) == holder_views(out@).push(h@));
            assert(v@.subrange(0, i + 1) == v@.subrange(0, i as int).push(v@[i as int]));
            assert(holder_views(v@.subrange(0, i + 1)) == holder_views(v@.subrange(0, i as int)).push(v@[i as int]@));
        }
        out.push(h);
        i = i + 1;
    }
    proof {
        assert(v@.subrange(0, i as int) == v@);
    }
    out
}

fn holders_of_entities(es: &[EntityRecord]) -> (r: Vec<ScoreHolderModel>)
    ensures
        holder_views(r@) == entity_holders(es@),
{
    let mut out: Vec<ScoreHolderModel> = Vec::new();
    let mut i: usize = 0;
    while i < es.len()
        invariant
            0 <= i <= es@.len(),
            holder_views(out@) == entity_holders(es@.subrange(0, i as int)),
        decreases es@.len() - i,
    {
        let h = ScoreHolderModel::from_entity(&es[i]);
        proof {
            assert(holder_views(out@.push(h)) == holder_views(out@).push(h@));
            assert(es@.subrange(0, i + 1) == es@.subrange(0, i as int).push(es@[i as int]));
            assert(entity_holders(es@.subrange(0, i + 1)) == entity_holders(es@.subrange(0, i as int)).push(entity_view(es@[i as int])));
        }
        out.push(h);
        i = i + 1;
    }
    proof {
        assert(es@.subrange(0, i as int) == es@);
    }
    out
}

impl ScoreHolderResultModel {
    /// The holders this result stands for.
    pub fn get_names(&self, context: &CommandContextModel, wildcard: Vec<ScoreHolderModel>, selected: &[EntityRecord]) -> (r: Result<Vec<ScoreHolderModel>, ScoreHolderArgumentError>)
        ensures
            match holders_of(self@, context.entities_view(), context.selectors_allowed(), holder_views(wildcard@), selected@) {
                Ok(hs) => r matches Ok(v) && holder_views(v@) == hs,
                Err(e) => r matches Err(x) && x.view() == e,
            },
    {
        match self {
            ScoreHolderResultModel::Selector(selector) => {
                let is_name = match &selector.base {
                    crate::command_selector::SelectorBase::Name(_) => true,
                    _ => false,
                };
                if !is_name && !context.can_use_selectors {
                    return Err(ScoreHolderArgumentError::SelectorsNotAllowed);
                }
                if selected.len() == 0 {
                    return Err(ScoreHolderArgumentError::NoEntitiesFound);
                }
                Ok(holders_of_entities(selected))
            },
            ScoreHolderResultModel::Wildcard => {
                if wildcard.len() == 0 {
                    Err(ScoreHolderArgumentError::NoResults)
                } else {
                    Ok(wildcard)
                }
            },
            ScoreHolderResultModel::NameOnly(name) => {
                let mut out: Vec<ScoreHolderModel> = Vec::new();
                out.push(ScoreHolderModel::name_only(name.as_str()));
                proof {
                    assert(holder_views(out@) =~= seq![name_only_view(name@)]);
                }
                Ok(out)
            },
            ScoreHolderResultModel::UuidOrName(text) => {
                let es = &context.entities;
                let mut out: Vec<ScoreHolderModel> = Vec::new();
                let mut i: usize = 0;
                proof {
                    assert(es@.subrange(0, es@.len() as int) == es@);
                    assert(holder_views(out@) + with_uuid(es@, text@) == with_uuid(es@, text@));
                }
                while i < es.len()
                    invariant
                        0 <= i <= es@.len(),
                        with_uuid(es@, text@) == holder_views(out@) + with_uuid(es@.subrange(i as int, es@.len() as int), text@),
                    decreases es@.len() - i,
                {
                    let ghost rest = es@.subrange(i as int, es@.len() as int);
                    proof {
                        assert(rest[0] == es@[i as int]);
                        assert(rest.drop_first() == es@.subrange(i + 1, es@.len() as int));
                    }
                    if str_eq(es[i].uuid.as_str(), text.as_str()) {
                        let h = ScoreHolderModel::from_entity(&es[i]);
                        proof {
                            assert(holder_views(out@.push(h)) == holder_views(out@).push(h@));
                            assert(holder_views(out@) + (seq![h@] + with_uuid(rest.drop_first(), text@))
                                == holder_views(out@.push(h)) + with_uuid(rest.drop_first(), text@));
                        }
                        out.push(h);
                    }
                    i = i + 1;
                }
                proof {
                    assert(es@.subrange(i as int, es@.len() as int) == Seq::<EntityRecord>::empty());
                    assert(holder_views(out@) + Seq::<(Seq<char>, Option<Seq<char>>, bool)>::empty() == holder_views(out@));
                }
                if out.len() == 0 {
                    let mut only: Vec<ScoreHolderModel> = Vec::new();
                    only.push(ScoreHolderModel::name_only(text.as_str()));
                    proof {
                        assert(holder_views(only@) =~= seq![name_only_view(text@)]);
                    }
                    Ok(only)
                } else {
                    Ok(out)
                }
            },
            ScoreHolderResultModel::PlayerNameOrNameOnly(text) => {
                let es = &context.entities;
                let mut i: usize = 0;
                proof {
                    assert(es@.subrange(0, es@.len() as int) == es@);
                }
                while i < es.len()
                    invariant
                        0 <= i <= es@.len(),
                        player_named(es@, text@) == player_named(es@.subrange(i as int, es@.len() as int), text@),
                    decreases es@.len() - i,
                {
                    let ghost rest = es@.subrange(i as int, es@.len() as int);
                    proof {
                        assert(rest[0] == es@[i as int]);
                        assert(rest.drop_first() == es@.subrange(i + 1, es@.len() as int));
                    }
                    if es[i].player && str_eq(es[i].name.as_str(), text.as_str()) {
                        let mut one: Vec<ScoreHolderModel> = Vec::new();
                        one.push(ScoreHolderModel::from_entity(&es[i]));
                        proof {
                            assert(holder_views(one@) =~= seq![entity_view(es@[i as int])]);
                        }
                        return Ok(one);
                    }
                    i = i + 1;
                }
                let mut only: Vec<ScoreHolderModel> = Vec::new();
                only.push(ScoreHolderModel::name_only(text.as_str()));
                proof {
                    assert(holder_views(only@) =~= seq![name_only_view(text@)]);
                }
                Ok(only)
            },
        }
    }
}

/// The parsed score holders of a command, the entities that are there,
/// whether the source may use selectors, and the holders that are tracked.
pub struct CommandContextModel {
    arguments: ArgMap<ScoreHolderResultModel>,
    entities: Vec<EntityRecord>,
    can_use_selectors: bool,
    tracked_score_holders: Vec<ScoreHolderModel>,
}

impl CommandContextModel {
    pub closed spec fn arguments_view(&self) -> Map<Seq<char>, ScoreHolderResultModel> {
        self.arguments@
    }

    pub closed spec fn selectors_allowed(&self) -> bool {
        self.can_use_selectors
    }

    pub closed spec fn entities_view(&self) -> Seq<EntityRecord> {
        self.entities@
    }

    pub closed spec fn tracked_view(&self) -> Seq<(Seq<char>, Option<Seq<char>>, bool)> {
        holder_views(self.tracked_score_holders@)
    }

    pub fn new() -> (r: Self)
        ensures
            r.arguments_view() == Map::<Seq<char>, ScoreHolderResultModel>::empty(),
            r.entities_view().len() == 0,
            r.selectors_allowed(),
            r.tracked_view().len() == 0,
    {
        let holders: Vec<ScoreHolderModel> = Vec::new();
        proof {
            assert(holder_views(holders@).len() == 0);
        }
        CommandContextModel { arguments: ArgMap::new(), entities: Vec::new(), can_use_selectors: true, tracked_score_holders: holders }
    }

    pub fn with_argument(self, name: &str, value: ScoreHolderResultModel) -> (r: Self)
        ensures
            r.arguments_view() == self.arguments_view().insert(name@, value),
            r.entities_view() == self.entities_view(),
            r.selectors_allowed() == self.selectors_allowed(),
            r.tracked_view() == self.tracked_view(),
    {
        let mut arguments = self.arguments;
        arguments.insert(name.to_owned(), value);
        CommandContextModel { arguments, ..self }
    }

    pub fn with_entities(self, entities: Vec<EntityRecord>) -> (r: Self)
        ensures
            r.entities_view() == entities@,
            r.arguments_view() == self.arguments_view(),
            r.selectors_allowed() == self.selectors_allowed(),
            r.tracked_view() == self.tracked_view(),
    {
        CommandContextModel { entities, ..self }
    }

    pub fn with_selector_permission(self, allowed: bool) -> (r: Self)
        ensures
            r.selectors_allowed() == allowed,
            r.entities_view() == self.entities_view(),
            r.arguments_view() == self.arguments_view(),
            r.tracked_view() == self.tracked_view(),
    {
        CommandContextModel { can_use_selectors: allowed, ..self }
    }

    pub fn with_tracked_score_holders(self, holders: &[&str]) -> (r: Self)
        ensures
            r.tracked_view() == holders@.map_values(|h: &str| name_only_view(h@)),
            r.entities_view() == self.entities_view(),
            r.arguments_view() == self.arguments_view(),
            r.selectors_allowed() == self.selectors_allowed(),
    {
        let mut out: Vec<ScoreHolderModel> = Vec::new();
        let mut i: usize = 0;
        while i < holders.len()
            invariant
                0 <= i <= holders@.len(),
                holder_views(out@) == holders@.subrange(0, i as int).map_values(|h: &str| name_only_view(h@)),
            decreases holders@.len() - i,
        {
            let h = ScoreHolderModel::name_only(holders[i]);
            proof {
                assert(holder_views(out@.push(h)) == holder_views(out@).push(h@));
                assert(holders@.subrange(0, i + 1).map_values(|h: &str| name_only_view(h@))
                    == holders@.subrange(0, i as int).map_values(|h: &str| name_only_view(h@)).push(name_only_view(holders@[i as int]@)));
            }
            out.push(h);
            i = i + 1;
        }
        proof {
            assert(holders@.subrange(0, i as int) == holders@);
        }
        CommandContextModel { tracked_score_holders: out, ..self }
    }

    pub fn argument(&self, name: &str) -> (r: Option<&ScoreHolderResultModel>)
        ensures
            r is Some <==> self.arguments_view().contains_key(name@),
            r matches Some(v) ==> *v == self.arguments_view()[name@],
    {
        self.arguments.get(name)
    }

    pub fn tracked_holders(&self) -> (r: Vec<ScoreHolderModel>)
        ensures
            holder_views(r@) == self.tracked_view(),
    {
        copy_holders(&self.tracked_score_holders)
    }
}

impl Default for CommandContextModel {
    fn default() -> (r: Self)
        ensures
            r.arguments_view() == Map::<Seq<char>, ScoreHolderResultModel>::empty(),
            r.entities_view().len() == 0,
            r.selectors_allowed(),
            r.tracked_view().len() == 0,
    {
        CommandContextModel::new()
    }
}

/// What the named argument gives with these wildcard holders and selected entities.
pub open spec fn names_with(context: CommandContextModel, name: Seq<char>, wildcard: Seq<(Seq<char>, Option<Seq<char>>, bool)>, selected: Seq<EntityRecord>)
    -> Result<Seq<(Seq<char>, Option<Seq<char>>, bool)>, HolderErrorView>
{
    if !context.arguments_view().contains_key(name) {
        Err(HolderErrorView::MissingArgument)
    } else {
        match holders_of(context.arguments_view()[name]@, context.entities_view(), context.selectors_allowed(), wildcard, selected) {
            Ok(hs) => if hs.len() == 0 { Err(HolderErrorView::NoEntitiesFound) } else { Ok(hs) },
            Err(e) => Err(e),
        }
    }
}

/// The holders of the named argument, `*` standing for `wildcard`.
pub fn get_names_with_wildcard(context: &CommandContextModel, name: &str, wildcard: Vec<ScoreHolderModel>, selected: &[EntityRecord]) -> (r: Result<Vec<ScoreHolderModel>, ScoreHolderArgumentError>)
    ensures
        match names_with(*context, name@, holder_views(wildcard@), selected@) {
            Ok(hs) => r matches Ok(v) && holder_views(v@) == hs,
            Err(e) => r matches Err(x) && x.view() == e,
        },
{
    let result = match context.argument(name) {
        Some(r) => r,
        None => {
            return Err(ScoreHolderArgumentError::MissingArgument);
        },
    };
    match result.get_names(context, wildcard, selected) {
        Ok(v) => if v.len() == 0 {
            Err(ScoreHolderArgumentError::NoEntitiesFound)
        } else {
            Ok(v)
        },
        Err(e) => Err(e),
    }
}

/// The holders of the named argument, `*` standing for nothing.
pub fn get_names(context: &CommandContextModel, name: &str, selected: &[EntityRecord]) -> (r: Result<Vec<ScoreHolderModel>, ScoreHolderArgumentError>)
    ensures
        match names_with(*context, name@, seq![], selected@) {
            Ok(hs) => r matches Ok(v) && holder_views(v@) == hs,
            Err(e) => r matches Err(x) && x.view() == e,
        },
{
    let none: Vec<ScoreHolderModel> = Vec::new();
    proof {
        assert(holder_views(none@) == Seq::<(Seq<char>, Option<Seq<char>>, bool)>::empty());
    }
    get_names_with_wildcard(context, name, none, selected)
}

/// The holders of the named argument, `*` standing for the tracked holders.
pub fn get_names_with_default_wildcard(context: &CommandContextModel, name: &str, selected: &[EntityRecord]) -> (r: Result<Vec<ScoreHolderModel>, ScoreHolderArgumentError>)
    ensures
        match names_with(*context, name@, context.tracked_view(), selected@) {
            Ok(hs) => r matches Ok(v) && holder_views(v@) == hs,
            Err(e) => r matches Err(x) && x.view() == e,
        },
{
    let holders = context.tracked_holders();
    get_names_with_wildcard(context, name, holders, selected)
}

/// The first holder of the named argument.
pub fn get_name(context: &CommandContextModel, name: &str, selected: &[EntityRecord]) -> (r: Result<ScoreHolderModel, ScoreHolderArgumentError>)
    ensures
        match names_with(*context, name@, seq![], selected@) {
            Ok(hs) => r matches Ok(h) && h@ == hs[0],
            Err(e) => r matches Err(x) && x.view() == e,
        },
{
    match get_names(context, name, selected) {
        Ok(v) => Ok(v[0].copy()),
        Err(e) => Err(e),
    }
}

pub enum CommandSourceModel {
    Shared(SharedSuggestionProviderModel),
    Other,
}

pub struct SharedSuggestionProviderModel {
    pub online_player_names: Vec<String>,
    pub can_use_selectors: bool,
}

impl SharedSuggestionProviderModel {
    pub fn new(can_use_selectors: bool) -> (r: Self)
        ensures
            r.online_player_names@.len() == 0,
            r.can_use_selectors == can_use_selectors,
    {
        SharedSuggestionProviderModel { online_player_names: Vec::new(), can_use_selectors }
    }

    pub fn with_online_players(self, names: &[&str]) -> (r: Self)
        ensures
            texts(r.online_player_names@) == names@.map_values(|s: &str| s@),
            r.can_use_selectors == self.can_use_selectors,
    {
        let mut out: Vec<String> = Vec::new();
        let mut i: usize = 0;
        while i < names.len()
            invariant
                0 <= i <= names@.len(),
                texts(out@) == names@.subrange(0, i as int).map_values(|s: &str| s@),
            decreases names@.len() - i,
        {
            let s = names[i].to_owned();
            proof {
                assert(texts(out@.push(s)) == texts(out@).push(s@));
                assert(names@.subrange(0, i + 1).map_values(|s: &str| s@) == names@.subrange(0, i as int).map_values(|s: &str| s@).push(names@[i as int]@));
            }
            out.push(s);
            i = i + 1;
        }
        proof {
            assert(names@.subrange(0, i as int) == names@);
        }
        SharedSuggestionProviderModel { online_player_names: out, can_use_selectors: self.can_use_selectors }
    }
}

#[derive(Debug, Clone, PartialEq, Eq)]
pub struct ScoreHolderInfoTemplate {
    multiple: bool,
}

impl ScoreHolderInfoTemplate {
    pub closed spec fn is_multiple(&self) -> bool {
        self.multiple
    }

    pub fn serialize_to_network(&self) -> (r: u8)
        ensures
            r == (if self.is_multiple() { 1u8 } else { 0u8 }),
    {
        if self.multiple { 1 } else { 0 }
    }

    pub fn deserialize_from_network(flags: u8) -> (r: Self)
        ensures
            r.is_multiple() == (flags % 2 == 1),
    {
        ScoreHolderInfoTemplate { multiple: flags % 2 == 1 }
    }

    pub fn serialize_to_json_amount(&self) -> (r: &'static str)
        ensures
            r@ == (if self.is_multiple() { "multiple"@ } else { "single"@ }),
    {
        if self.multiple { "multiple" } else { "single" }
    }

    pub fn instantiate(&self) -> (r: ScoreHolderArgumentModel)
        ensures
            r.is_multiple() == self.is_multiple(),
    {
        ScoreHolderArgumentModel { multiple: self.multiple }
    }
}

} // verus!
