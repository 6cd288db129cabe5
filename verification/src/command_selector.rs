//! Entity selectors as written in commands: a player name, or `@p`, `@a`,
//! `@e`, `@s`, `@r` with options in brackets (`@e[type=pig,limit=2]`).
//! Reading a selector checks its options and keeps them; coordinates and
//! distances are kept as the decimal text that was written.

use vstd::prelude::*;
use crate::chars::{
    trim, split_once, split_once_dots, find_from, float_text, int_text, usize_text, chars_of,
    to_string, slice_chars, trim_chars, split_once_char, split_once_dots_chars, int_of, usize_of,
    is_float_text, find_char,
};
use crate::str_map::StrMap;
use crate::text::str_eq;

verus! {

#[derive(Debug, Clone, PartialEq, Eq)]
pub enum SelectorBase {
    NearestPlayer,
    AllPlayers,
    AllEntities,
    CurrentEntity,
    RandomPlayer,
    Name(String),
}

#[derive(Debug, Clone, Copy, PartialEq, Eq, Structural)]
pub enum SelectorSort {
    Nearest,
    Furthest,
    Random,
    Arbitrary,
}

/// A value that an entity must have, or (`!`) must not have.
#[derive(Debug, Clone, PartialEq, Eq)]
pub struct Inverted<T> {
    pub value: T,
    pub inverted: bool,
}

/// Bounds on the distance, as the decimal text of each bound.
#[derive(Debug, Clone, PartialEq, Eq)]
pub struct RangeF64 {
    pub min: Option<String>,
    pub max: Option<String>,
}

/// Bounds on a score.
#[derive(Debug, Clone, Copy, PartialEq, Eq)]
pub struct RangeI32 {
    pub min: Option<i32>,
    pub max: Option<i32>,
}

#[derive(Debug, Clone, PartialEq, Eq)]
pub enum SelectorError {
    Empty,
    InvalidBase,
    InvalidOption(String),
    InvalidRange(String),
    InvalidLimit,
}

/// A selector and its options.
#[derive(Debug, PartialEq, Eq)]
pub struct Selector {
    pub base: SelectorBase,
    pub includes_entities: bool,
    pub current_entity: bool,
    pub world_limited: bool,
    pub limit: usize,
    pub sort: SelectorSort,
    pub name: Option<Inverted<String>>,
    pub entity_type: Option<Inverted<String>>,
    pub team: Option<Inverted<String>>,
    pub tag: Option<Inverted<String>>,
    pub distance: Option<RangeF64>,
    pub x: Option<String>,
    pub y: Option<String>,
    pub z: Option<String>,
    pub dx: Option<String>,
    pub dy: Option<String>,
    pub dz: Option<String>,
    pub scores: StrMap<RangeI32>,
    pub nbt: StrMap<String>,
    pub predicate: Option<Inverted<String>>,
}

/// An entity as a selector sees it.
#[derive(Debug, PartialEq, Eq)]
pub struct EntityRecord {
    pub name: String,
    pub entity_type: String,
    pub uuid: String,
    pub player: bool,
    pub level: String,
    pub team: Option<String>,
    pub tags: Vec<String>,
    pub scores: StrMap<i32>,
    pub nbt: StrMap<String>,
    pub predicates: Vec<String>,
}

pub enum BaseView {
    NearestPlayer,
    AllPlayers,
    AllEntities,
    CurrentEntity,
    RandomPlayer,
    Name(Seq<char>),
}

pub enum ErrorView {
    Empty,
    InvalidBase,
    InvalidOption(Seq<char>),
    InvalidRange(Seq<char>),
    InvalidLimit,
}

/// A selector as values: texts as character sequences, maps as maps.
pub struct SelectorView {
    pub base: BaseView,
    pub includes_entities: bool,
    pub current_entity: bool,
    pub world_limited: bool,
    pub limit: usize,
    pub sort: SelectorSort,
    pub name: Option<(Seq<char>, bool)>,
    pub entity_type: Option<(Seq<char>, bool)>,
    pub team: Option<(Seq<char>, bool)>,
    pub tag: Option<(Seq<char>, bool)>,
    pub distance: Option<(Option<Seq<char>>, Option<Seq<char>>)>,
    pub x: Option<Seq<char>>,
    pub y: Option<Seq<char>>,
    pub z: Option<Seq<char>>,
    pub dx: Option<Seq<char>>,
    pub dy: Option<Seq<char>>,
    pub dz: Option<Seq<char>>,
    pub scores: Map<Seq<char>, RangeI32>,
    pub nbt: Map<Seq<char>, Seq<char>>,
    pub predicate: Option<(Seq<char>, bool)>,
}

pub open spec fn text_opt(o: Option<String>) -> Option<Seq<char>> {
    match o {
        Some(s) => Some(s@),
        None => None,
    }
}

pub open spec fn inverted_view(o: Option<Inverted<String>>) -> Option<(Seq<char>, bool)> {
    match o {
        Some(i) => Some((i.value@, i.inverted)),
        None => None,
    }
}

pub open spec fn range_view(o: Option<RangeF64>) -> Option<(Option<Seq<char>>, Option<Seq<char>>)> {
    match o {
        Some(r) => Some((text_opt(r.min), text_opt(r.max))),
        None => None,
    }
}

/// The values that a map holds under its keys.
pub open spec fn map_view<V>(m: StrMap<V>) -> Map<Seq<char>, V> {
    Map::new(|k: Seq<char>| m.lookup(k) is Some, |k: Seq<char>| m.lookup(k)->Some_0)
}

/// The texts that a map holds under its keys.
pub open spec fn text_map_view(m: StrMap<String>) -> Map<Seq<char>, Seq<char>> {
    Map::new(|k: Seq<char>| m.lookup(k) is Some, |k: Seq<char>| m.lookup(k)->Some_0@)
}

impl SelectorBase {
    pub open spec fn view(&self) -> BaseView {
        match self {
            SelectorBase::NearestPlayer => BaseView::NearestPlayer,
            SelectorBase::AllPlayers => BaseView::AllPlayers,
            SelectorBase::AllEntities => BaseView::AllEntities,
            SelectorBase::CurrentEntity => BaseView::CurrentEntity,
            SelectorBase::RandomPlayer => BaseView::RandomPlayer,
            SelectorBase::Name(n) => BaseView::Name(n@),
        }
    }
}

impl SelectorError {
    pub open spec fn view(&self) -> ErrorView {
        match self {
            SelectorError::Empty => ErrorView::Empty,
            SelectorError::InvalidBase => ErrorView::InvalidBase,
            SelectorError::InvalidOption(s) => ErrorView::InvalidOption(s@),
            SelectorError::InvalidRange(s) => ErrorView::InvalidRange(s@),
            SelectorError::InvalidLimit => ErrorView::InvalidLimit,
        }
    }
}

impl Selector {
    pub open spec fn view(&self) -> SelectorView {
        SelectorView {
            base: self.base.view(),
            includes_entities: self.includes_entities,
            current_entity: self.current_entity,
            world_limited: self.world_limited,
            limit: self.limit,
            sort: self.sort,
            name: inverted_view(self.name),
            entity_type: inverted_view(self.entity_type),
            team: inverted_view(self.team),
            tag: inverted_view(self.tag),
            distance: range_view(self.distance),
            x: text_opt(self.x),
            y: text_opt(self.y),
            z: text_opt(self.z),
            dx: text_opt(self.dx),
            dy: text_opt(self.dy),
            dz: text_opt(self.dz),
            scores: map_view(self.scores),
            nbt: text_map_view(self.nbt),
            predicate: inverted_view(self.predicate),
        }
    }
}

/// A selector of the given kind with no options.
pub open spec fn plain_view(base: BaseView, includes_entities: bool, limit: usize, sort: SelectorSort) -> SelectorView {
    SelectorView {
        base,
        includes_entities,
        current_entity: false,
        world_limited: false,
        limit,
        sort,
        name: None,
        entity_type: None,
        team: None,
        tag: None,
        distance: None,
        x: None,
        y: None,
        z: None,
        dx: None,
        dy: None,
        dz: None,
        scores: Map::empty(),
        nbt: Map::empty(),
        predicate: None,
    }
}

/// The selector of a head such as `@p`, if it is one.
pub open spec fn head_view(head: Seq<char>) -> Option<SelectorView> {
    if head == "@p"@ {
        Some(plain_view(BaseView::NearestPlayer, false, 1, SelectorSort::Nearest))
    } else if head == "@a"@ {
        Some(plain_view(BaseView::AllPlayers, false, usize::MAX, SelectorSort::Arbitrary))
    } else if head == "@e"@ {
        Some(plain_view(BaseView::AllEntities, true, usize::MAX, SelectorSort::Arbitrary))
    } else if head == "@s"@ {
        Some(SelectorView {
            current_entity: true,
            ..plain_view(BaseView::CurrentEntity, true, 1, SelectorSort::Arbitrary)
        })
    } else if head == "@r"@ {
        Some(plain_view(BaseView::RandomPlayer, false, 1, SelectorSort::Random))
    } else {
        None
    }
}

/// A value with a leading `!` is inverted.
pub open spec fn inverted_of(v: Seq<char>) -> (Seq<char>, bool) {
    if v.len() > 0 && v[0] == '!' {
        (v.subrange(1, v.len() as int), true)
    } else {
        (v, false)
    }
}

pub open spec fn float_bound(t: Seq<char>) -> Result<Seq<char>, ErrorView> {
    if float_text(t) { Ok(t) } else { Err(ErrorView::InvalidRange(t)) }
}

pub open spec fn opt_float(t: Seq<char>) -> Result<Option<Seq<char>>, ErrorView> {
    if t.len() == 0 {
        Ok(None)
    } else {
        match float_bound(t) {
            Ok(v) => Ok(Some(v)),
            Err(e) => Err(e),
        }
    }
}

/// Distance bounds: `a..b` with either side open, or one exact value.
pub open spec fn float_range(v: Seq<char>) -> Result<(Option<Seq<char>>, Option<Seq<char>>), ErrorView> {
    match split_once_dots(v) {
        Some((a, b)) => match opt_float(a) {
            Err(e) => Err(e),
            Ok(lo) => match opt_float(b) {
                Err(e) => Err(e),
                Ok(hi) => Ok((lo, hi)),
            },
        },
        None => match float_bound(v) {
            Err(e) => Err(e),
            Ok(x) => Ok((Some(x), Some(x))),
        },
    }
}

pub open spec fn opt_int(t: Seq<char>) -> Result<Option<i32>, ErrorView> {
    if t.len() == 0 {
        Ok(None)
    } else {
        match int_text(t) {
            Some(v) => Ok(Some(v)),
            None => Err(ErrorView::InvalidRange(t)),
        }
    }
}

/// Score bounds: `a..b` with either side open, or one exact value.
pub open spec fn int_range(v: Seq<char>) -> Result<RangeI32, ErrorView> {
    match split_once_dots(v) {
        Some((a, b)) => match opt_int(a) {
            Err(e) => Err(e),
            Ok(lo) => match opt_int(b) {
                Err(e) => Err(e),
                Ok(hi) => Ok(RangeI32 { min: lo, max: hi }),
            },
        },
        None => match int_text(v) {
            None => Err(ErrorView::InvalidRange(v)),
            Some(x) => Ok(RangeI32 { min: Some(x), max: Some(x) }),
        },
    }
}

/// `str::split(',')`: the pieces between commas, from `start`, scanning at `i`.
pub open spec fn pieces_from(t: Seq<char>, start: int, i: int) -> Seq<Seq<char>>
    decreases t.len() - i,
{
    if i >= t.len() {
        seq![t.subrange(start, t.len() as int)]
    } else if t[i] == ',' {
        seq![t.subrange(start, i)] + pieces_from(t, i + 1, i + 1)
    } else {
        pieces_from(t, start, i + 1)
    }
}

/// One `key=value` (or `key:value`) entry of a map option, both sides trimmed.
pub open spec fn map_entry(piece: Seq<char>) -> Result<(Seq<char>, Seq<char>), ErrorView> {
    match split_once(piece, '=') {
        Some((k, v)) => Ok((trim(k), trim(v))),
        None => match split_once(piece, ':') {
            Some((k, v)) => Ok((trim(k), trim(v))),
            None => Err(ErrorView::InvalidOption(piece)),
        },
    }
}

/// The entries of the pieces, or the error of the first that has none.
pub open spec fn entries_of(ps: Seq<Seq<char>>) -> Result<Seq<(Seq<char>, Seq<char>)>, ErrorView>
    decreases ps.len(),
{
    if ps.len() == 0 {
        Ok(seq![])
    } else {
        match map_entry(ps[0]) {
            Err(e) => Err(e),
            Ok(en) => match entries_of(ps.drop_first()) {
                Err(e) => Err(e),
                Ok(rest) => Ok(seq![en] + rest),
            },
        }
    }
}

/// A map option: `{key=value,...}`, trimmed.
pub open spec fn map_read(input: Seq<char>) -> Result<Seq<(Seq<char>, Seq<char>)>, ErrorView> {
    let t = trim(input);
    if !(t.len() > 0 && t[0] == '{' && t[t.len() - 1] == '}') {
        Err(ErrorView::InvalidOption(input))
    } else {
        let body = t.subrange(1, t.len() - 1);
        if body.len() == 0 {
            Ok(seq![])
        } else {
            entries_of(pieces_from(body, 0, 0))
        }
    }
}

/// The scores map after each entry's bounds are put under its name.
pub open spec fn scores_after(m: Map<Seq<char>, RangeI32>, es: Seq<(Seq<char>, Seq<char>)>) -> Result<Map<Seq<char>, RangeI32>, ErrorView>
    decreases es.len(),
{
    if es.len() == 0 {
        Ok(m)
    } else {
        match int_range(es[0].1) {
            Err(e) => Err(e),
            Ok(r) => scores_after(m.insert(es[0].0, r), es.drop_first()),
        }
    }
}

/// The NBT map after each entry is put under its key.
pub open spec fn nbt_after(m: Map<Seq<char>, Seq<char>>, es: Seq<(Seq<char>, Seq<char>)>) -> Map<Seq<char>, Seq<char>>
    decreases es.len(),
{
    if es.len() == 0 {
        m
    } else {
        nbt_after(m.insert(es[0].0, es[0].1), es.drop_first())
    }
}

/// The selector after one `key=value` option.
pub open spec fn apply_option(s: SelectorView, option: Seq<char>) -> Result<SelectorView, ErrorView> {
    match split_once(option, '=') {
        None => Err(ErrorView::InvalidOption(option)),
        Some((key, value)) => if key == "name"@ {
            Ok(SelectorView { name: Some(inverted_of(value)), ..s })
        } else if key == "type"@ {
            Ok(SelectorView { entity_type: Some(inverted_of(value)), ..s })
        } else if key == "team"@ {
            Ok(SelectorView { team: Some(inverted_of(value)), ..s })
        } else if key == "tag"@ {
            Ok(SelectorView { tag: Some(inverted_of(value)), ..s })
        } else if key == "predicate"@ {
            Ok(SelectorView { predicate: Some(inverted_of(value)), ..s })
        } else if key == "distance"@ {
            match float_range(value) {
                Err(e) => Err(e),
                Ok(r) => Ok(SelectorView { distance: Some(r), ..s }),
            }
        } else if key == "x"@ || key == "y"@ || key == "z"@ || key == "dx"@ || key == "dy"@ || key == "dz"@ {
            match float_bound(value) {
                Err(e) => Err(e),
                Ok(v) => Ok(if key == "x"@ {
                    SelectorView { x: Some(v), ..s }
                } else if key == "y"@ {
                    SelectorView { y: Some(v), ..s }
                } else if key == "z"@ {
                    SelectorView { z: Some(v), ..s }
                } else if key == "dx"@ {
                    SelectorView { dx: Some(v), world_limited: true, ..s }
                } else if key == "dy"@ {
                    SelectorView { dy: Some(v), world_limited: true, ..s }
                } else {
                    SelectorView { dz: Some(v), world_limited: true, ..s }
                }),
            }
        } else if key == "limit"@ {
            match usize_text(value) {
                Some(l) => if l == 0 { Err(ErrorView::InvalidLimit) } else { Ok(SelectorView { limit: l, ..s }) },
                None => Err(ErrorView::InvalidLimit),
            }
        } else if key == "sort"@ {
            if value == "nearest"@ {
                Ok(SelectorView { sort: SelectorSort::Nearest, ..s })
            } else if value == "furthest"@ {
                Ok(SelectorView { sort: SelectorSort::Furthest, ..s })
            } else if value == "random"@ {
                Ok(SelectorView { sort: SelectorSort::Random, ..s })
            } else if value == "arbitrary"@ {
                Ok(SelectorView { sort: SelectorSort::Arbitrary, ..s })
            } else {
                Err(ErrorView::InvalidOption(option))
            }
        } else if key == "scores"@ {
            match map_read(value) {
                Err(e) => Err(e),
                Ok(es) => match scores_after(s.scores, es) {
                    Err(e) => Err(e),
                    Ok(m) => Ok(SelectorView { scores: m, ..s }),
                },
            }
        } else if key == "nbt"@ {
            match map_read(value) {
                Err(e) => Err(e),
                Ok(es) => Ok(SelectorView { nbt: nbt_after(s.nbt, es), ..s }),
            }
        } else {
            Err(ErrorView::InvalidOption(key))
        },
    }
}

/// The selector after each option in turn, or the first option's error.
pub open spec fn apply_all(s: SelectorView, opts: Seq<Seq<char>>) -> Result<SelectorView, ErrorView>
    decreases opts.len(),
{
    if opts.len() == 0 {
        Ok(s)
    } else {
        match apply_option(s, opts[0]) {
            Err(e) => Err(e),
            Ok(s2) => apply_all(s2, opts.drop_first()),
        }
    }
}

/// The options between the brackets, split at the commas that stand outside
/// braces, each trimmed; an empty last option is left out.
pub open spec fn options_from(t: Seq<char>, start: int, i: int, depth: int) -> Seq<Seq<char>>
    decreases t.len() - i,
{
    if i >= t.len() {
        let tail = trim(t.subrange(start, t.len() as int));
        if tail.len() > 0 { seq![tail] } else { seq![] }
    } else if t[i] == '{' {
        options_from(t, start, i + 1, depth + 1)
    } else if t[i] == '}' {
        options_from(t, start, i + 1, depth - 1)
    } else if t[i] == ',' && depth == 0 {
        seq![trim(t.subrange(start, i))] + options_from(t, i + 1, i + 1, depth)
    } else {
        options_from(t, start, i + 1, depth)
    }
}

/// A selector as it is read from its text.
pub open spec fn selector_read(t: Seq<char>) -> Result<SelectorView, ErrorView> {
    if t.len() == 0 {
        Err(ErrorView::Empty)
    } else if t[0] != '@' {
        Ok(plain_view(BaseView::Name(t), true, 1, SelectorSort::Arbitrary))
    } else {
        let k = find_from(t, '[', 0);
        if k >= 0 && t[t.len() - 1] != ']' {
            Err(ErrorView::InvalidBase)
        } else {
            let head = if k >= 0 { t.subrange(0, k) } else { t };
            match head_view(head) {
                None => Err(ErrorView::InvalidBase),
                Some(s) => if k >= 0 {
                    apply_all(s, options_from(t.subrange(k + 1, t.len() - 1), 0, 0, 0))
                } else {
                    Ok(s)
                },
            }
        }
    }
}


/// The views of a sequence of character vectors.
pub open spec fn views(vs: Seq<Vec<char>>) -> Seq<Seq<char>> {
    vs.map_values(|v: Vec<char>| v@)
}

pub open spec fn entry_views(vs: Seq<(Vec<char>, Vec<char>)>) -> Seq<(Seq<char>, Seq<char>)> {
    vs.map_values(|e: (Vec<char>, Vec<char>)| (e.0@, e.1@))
}

proof fn lemma_map_insert<V>(before: StrMap<V>, after: StrMap<V>, k: Seq<char>, v: V)
    requires
        forall|j: Seq<char>| #[trigger] after.lookup(j) == if j == k { Some(v) } else { before.lookup(j) },
    ensures
        map_view(after) == map_view(before).insert(k, v),
{
    assert(map_view(after) =~= map_view(before).insert(k, v));
}

proof fn lemma_text_map_insert(before: StrMap<String>, after: StrMap<String>, k: Seq<char>, v: String)
    requires
        forall|j: Seq<char>| #[trigger] after.lookup(j) == if j == k { Some(v) } else { before.lookup(j) },
    ensures
        text_map_view(after) == text_map_view(before).insert(k, v@),
{
    assert(text_map_view(after) =~= text_map_view(before).insert(k, v@));
}

/// The text equals the word.
fn is_word(t: &Vec<char>, w: &str) -> (r: bool)
    ensures
        r == (t@ == w@),
{
    let s = to_string(t);
    str_eq(s.as_str(), w)
}

fn inverted(v: &Vec<char>) -> (r: Inverted<String>)
    ensures
        (r.value@, r.inverted) == inverted_of(v@),
{
    if v.len() > 0 && v[0] == '!' {
        Inverted { value: to_string(&slice_chars(v, 1, v.len())), inverted: true }
    } else {
        Inverted { value: to_string(v), inverted: false }
    }
}

fn float_bound_exec(t: &Vec<char>) -> (r: Result<String, SelectorError>)
    ensures
        match float_bound(t@) {
            Ok(v) => r matches Ok(x) && x@ == v,
            Err(e) => r matches Err(x) && x.view() == e,
        },
{
    if is_float_text(t) {
        Ok(to_string(t))
    } else {
        Err(SelectorError::InvalidRange(to_string(t)))
    }
}

fn opt_float_exec(t: &Vec<char>) -> (r: Result<Option<String>, SelectorError>)
    ensures
        match opt_float(t@) {
            Ok(v) => r matches Ok(x) && text_opt(x) == v,
            Err(e) => r matches Err(x) && x.view() == e,
        },
{
    if t.len() == 0 {
        Ok(None)
    } else {
        match float_bound_exec(t) {
            Ok(v) => Ok(Some(v)),
            Err(e) => Err(e),
        }
    }
}

fn float_range_exec(v: &Vec<char>) -> (r: Result<RangeF64, SelectorError>)
    ensures
        match float_range(v@) {
            Ok((lo, hi)) => r matches Ok(x) && text_opt(x.min) == lo && text_opt(x.max) == hi,
            Err(e) => r matches Err(x) && x.view() == e,
        },
{
    match split_once_dots_chars(v) {
        Some((a, b)) => {
            let lo = match opt_float_exec(&a) {
                Ok(x) => x,
                Err(e) => {
                    return Err(e);
                },
            };
            let hi = match opt_float_exec(&b) {
                Ok(x) => x,
                Err(e) => {
                    return Err(e);
                },
            };
            Ok(RangeF64 { min: lo, max: hi })
        },
        None => match float_bound_exec(v) {
            Ok(x) => {
                let y = x.clone();
                Ok(RangeF64 { min: Some(x), max: Some(y) })
            },
            Err(e) => Err(e),
        },
    }
}

fn opt_int_exec(t: &Vec<char>) -> (r: Result<Option<i32>, SelectorError>)
    ensures
        match opt_int(t@) {
            Ok(v) => r == Ok::<Option<i32>, SelectorError>(v),
            Err(e) => r matches Err(x) && x.view() == e,
        },
{
    if t.len() == 0 {
        Ok(None)
    } else {
        match int_of(t) {
            Some(v) => Ok(Some(v)),
            None => Err(SelectorError::InvalidRange(to_string(t))),
        }
    }
}

fn int_range_exec(v: &Vec<char>) -> (r: Result<RangeI32, SelectorError>)
    ensures
        match int_range(v@) {
            Ok(x) => r == Ok::<RangeI32, SelectorError>(x),
            Err(e) => r matches Err(x) && x.view() == e,
        },
{
    match split_once_dots_chars(v) {
        Some((a, b)) => {
            let lo = match opt_int_exec(&a) {
                Ok(x) => x,
                Err(e) => {
                    return Err(e);
                },
            };
            let hi = match opt_int_exec(&b) {
                Ok(x) => x,
                Err(e) => {
                    return Err(e);
                },
            };
            Ok(RangeI32 { min: lo, max: hi })
        },
        None => match int_of(v) {
            Some(x) => Ok(RangeI32 { min: Some(x), max: Some(x) }),
            None => Err(SelectorError::InvalidRange(to_string(v))),
        },
    }
}

/// `str::split(',')`.
fn pieces_exec(t: &Vec<char>) -> (r: Vec<Vec<char>>)
    ensures
        views(r@) == pieces_from(t@, 0, 0),
{
    let mut out: Vec<Vec<char>> = Vec::new();
    let mut start: usize = 0;
    let mut i: usize = 0;
    while i < t.len()
        invariant
            0 <= start <= i <= t@.len(),
            pieces_from(t@, 0, 0) == views(out@) + pieces_from(t@, start as int, i as int),
        decreases t@.len() - i,
    {
        if t[i] == ',' {
            let piece = slice_chars(t, start, i);
            proof {
                assert(views(out@.push(piece)) == views(out@).push(piece@));
                assert(views(out@) + pieces_from(t@, start as int, i as int) == views(out@.push(piece))
                    + pieces_from(t@, i + 1, i + 1));
            }
            out.push(piece);
            start = i + 1;
        }
        i = i + 1;
    }
    let last = slice_chars(t, start, t.len());
    proof {
        assert(views(out@.push(last)) == views(out@).push(last@));
        assert(views(out@) + pieces_from(t@, start as int, i as int) == views(out@.push(last)));
    }
    out.push(last);
    out
}

fn map_entry_exec(piece: &Vec<char>) -> (r: Result<(Vec<char>, Vec<char>), SelectorError>)
    ensures
        match map_entry(piece@) {
            Ok((k, v)) => r matches Ok((a, b)) && a@ == k && b@ == v,
            Err(e) => r matches Err(x) && x.view() == e,
        },
{
    match split_once_char(piece, '=') {
        Some((k, v)) => Ok((trim_chars(&k), trim_chars(&v))),
        None => match split_once_char(piece, ':') {
            Some((k, v)) => Ok((trim_chars(&k), trim_chars(&v))),
            None => Err(SelectorError::InvalidOption(to_string(piece))),
        },
    }
}

proof fn lemma_entries_step(ps: Seq<Seq<char>>, i: int)
    requires
        0 <= i < ps.len(),
    ensures
        entries_of(ps.subrange(i, ps.len() as int)) == (match map_entry(ps[i]) {
            Err(e) => Err(e),
            Ok(en) => match entries_of(ps.subrange(i + 1, ps.len() as int)) {
                Err(e) => Err(e),
                Ok(rest) => Ok(seq![en] + rest),
            },
        }),
{
    let s = ps.subrange(i, ps.len() as int);
    assert(s[0] == ps[i]);
    assert(s.drop_first() == ps.subrange(i + 1, ps.len() as int));
}

fn map_read_exec(input: &Vec<char>) -> (r: Result<Vec<(Vec<char>, Vec<char>)>, SelectorError>)
    ensures
        match map_read(input@) {
            Ok(es) => r matches Ok(x) && entry_views(x@) == es,
            Err(e) => r matches Err(x) && x.view() == e,
        },
{
    let t = trim_chars(input);
    if !(t.len() > 0 && t[0] == '{' && t[t.len() - 1] == '}') {
        return Err(SelectorError::InvalidOption(to_string(input)));
    }
    let body = slice_chars(&t, 1, t.len() - 1);
    if body.len() == 0 {
        let out: Vec<(Vec<char>, Vec<char>)> = Vec::new();
        proof {
            assert(entry_views(out@) == Seq::<(Seq<char>, Seq<char>)>::empty());
        }
        return Ok(out);
    }
    let ps = pieces_exec(&body);
    let ghost pv = views(ps@);
    let mut out: Vec<(Vec<char>, Vec<char>)> = Vec::new();
    let mut i: usize = 0;
    proof {
        assert(pv.subrange(0, pv.len() as int) == pv);
    }
    while i < ps.len()
        invariant
            0 <= i <= ps@.len(),
            pv == views(ps@),
            pv.len() == ps@.len(),
            pv == pieces_from(body@, 0, 0),
            entries_of(pv) == (match entries_of(pv.subrange(i as int, pv.len() as int)) {
                Err(e) => Err(e),
                Ok(rest) => Ok(entry_views(out@) + rest),
            }),
        decreases ps@.len() - i,
    {
        proof {
            lemma_entries_step(pv, i as int);
        }
        match map_entry_exec(&ps[i]) {
            Ok(en) => {
                proof {
                    assert(entry_views(out@.push(en)) == entry_views(out@).push((en.0@, en.1@)));
                    assert forall|rest: Seq<(Seq<char>, Seq<char>)>| entry_views(out@) + (seq![(en.0@, en.1@)] + rest)
                        == #[trigger] (entry_views(out@.push(en)) + rest) by {
                        assert(entry_views(out@) + (seq![(en.0@, en.1@)] + rest) =~= entry_views(out@.push(en)) + rest);
                    }
                }
                out.push(en);
            },
            Err(e) => {
                return Err(e);
            },
        }
        i = i + 1;
    }
    proof {
        assert(pv.subrange(i as int, pv.len() as int) == Seq::<Seq<char>>::empty());
        assert(entry_views(out@) + Seq::<(Seq<char>, Seq<char>)>::empty() == entry_views(out@));
    }
    Ok(out)
}


/// Splits the bracketed options at the commas outside braces.
fn split_options(t: &Vec<char>) -> (r: Vec<Vec<char>>)
    ensures
        views(r@) == options_from(t@, 0, 0, 0),
{
    let mut out: Vec<Vec<char>> = Vec::new();
    let mut start: usize = 0;
    let mut depth: i128 = 0;
    let mut i: usize = 0;
    while i < t.len()
        invariant
            0 <= start <= i <= t@.len(),
            -(i as int) <= depth <= i as int,
            options_from(t@, 0, 0, 0) == views(out@) + options_from(t@, start as int, i as int, depth as int),
        decreases t@.len() - i,
    {
        let c = t[i];
        if c == '{' {
            depth = depth + 1;
        } else if c == '}' {
            depth = depth - 1;
        } else if c == ',' && depth == 0 {
            let part = trim_chars(&slice_chars(t, start, i));
            proof {
                assert(views(out@.push(part)) == views(out@).push(part@));
                assert(views(out@) + options_from(t@, start as int, i as int, depth as int) == views(out@.push(part))
                    + options_from(t@, i + 1, i + 1, depth as int));
            }
            out.push(part);
            start = i + 1;
        }
        i = i + 1;
    }
    let tail = trim_chars(&slice_chars(t, start, t.len()));
    if tail.len() > 0 {
        proof {
            assert(views(out@.push(tail)) == views(out@).push(tail@));
            assert(views(out@) + options_from(t@, start as int, i as int, depth as int) == views(out@.push(tail)));
        }
        out.push(tail);
    } else {
        proof {
            assert(views(out@) + options_from(t@, start as int, i as int, depth as int) == views(out@));
        }
    }
    out
}

/// Sets one of the coordinate options.
fn set_coordinate(sel: &mut Selector, key: &Vec<char>, v: String)
    requires
        key@ == "x"@ || key@ == "y"@ || key@ == "z"@ || key@ == "dx"@ || key@ == "dy"@ || key@ == "dz"@,
    ensures
        final(sel).view() == (if key@ == "x"@ {
            SelectorView { x: Some(v@), ..old(sel).view() }
        } else if key@ == "y"@ {
            SelectorView { y: Some(v@), ..old(sel).view() }
        } else if key@ == "z"@ {
            SelectorView { z: Some(v@), ..old(sel).view() }
        } else if key@ == "dx"@ {
            SelectorView { dx: Some(v@), world_limited: true, ..old(sel).view() }
        } else if key@ == "dy"@ {
            SelectorView { dy: Some(v@), world_limited: true, ..old(sel).view() }
        } else {
            SelectorView { dz: Some(v@), world_limited: true, ..old(sel).view() }
        }),
{
    if is_word(key, "x") {
        sel.x = Some(v);
    } else if is_word(key, "y") {
        sel.y = Some(v);
    } else if is_word(key, "z") {
        sel.z = Some(v);
    } else if is_word(key, "dx") {
        sel.dx = Some(v);
        sel.world_limited = true;
    } else if is_word(key, "dy") {
        sel.dy = Some(v);
        sel.world_limited = true;
    } else {
        sel.dz = Some(v);
        sel.world_limited = true;
    }
}

/// Puts each entry's score bounds under its name.
fn insert_scores(sel: &mut Selector, es: &Vec<(Vec<char>, Vec<char>)>) -> (r: Result<(), SelectorError>)
    ensures
        match scores_after(old(sel).view().scores, entry_views(es@)) {
            Ok(m) => r is Ok && final(sel).view() == (SelectorView { scores: m, ..old(sel).view() }),
            Err(e) => r matches Err(x) && x.view() == e,
        },
{
    let ghost ev = entry_views(es@);
    let mut i: usize = 0;
    proof {
        assert(ev.subrange(0, ev.len() as int) == ev);
    }
    while i < es.len()
        invariant
            0 <= i <= es@.len(),
            ev == entry_views(es@),
            ev.len() == es@.len(),
            sel.view() == (SelectorView { scores: sel.view().scores, ..old(sel).view() }),
            scores_after(old(sel).view().scores, ev) == scores_after(sel.view().scores, ev.subrange(i as int, ev.len() as int)),
        decreases es@.len() - i,
    {
        let ghost rest = ev.subrange(i as int, ev.len() as int);
        proof {
            assert(rest[0] == ev[i as int]);
            assert(rest.drop_first() == ev.subrange(i + 1, ev.len() as int));
            assert(ev[i as int] == (es@[i as int].0@, es@[i as int].1@));
        }
        match int_range_exec(&es[i].1) {
            Ok(range) => {
                let ghost before = sel.scores;
                sel.scores.insert(to_string(&es[i].0), range);
                proof {
                    lemma_map_insert(before, sel.scores, es@[i as int].0@, range);
                }
            },
            Err(e) => {
                return Err(e);
            },
        }
        i = i + 1;
    }
    proof {
        assert(ev.subrange(i as int, ev.len() as int) == Seq::<(Seq<char>, Seq<char>)>::empty());
    }
    Ok(())
}

/// Puts each NBT entry under its key.
fn insert_nbt(sel: &mut Selector, es: &Vec<(Vec<char>, Vec<char>)>)
    ensures
        final(sel).view() == (SelectorView { nbt: nbt_after(old(sel).view().nbt, entry_views(es@)), ..old(sel).view() }),
{
    let ghost ev = entry_views(es@);
    let mut i: usize = 0;
    proof {
        assert(ev.subrange(0, ev.len() as int) == ev);
    }
    while i < es.len()
        invariant
            0 <= i <= es@.len(),
            ev == entry_views(es@),
            ev.len() == es@.len(),
            sel.view() == (SelectorView { nbt: sel.view().nbt, ..old(sel).view() }),
            nbt_after(old(sel).view().nbt, ev) == nbt_after(sel.view().nbt, ev.subrange(i as int, ev.len() as int)),
        decreases es@.len() - i,
    {
        let ghost rest = ev.subrange(i as int, ev.len() as int);
        proof {
            assert(rest[0] == ev[i as int]);
            assert(rest.drop_first() == ev.subrange(i + 1, ev.len() as int));
            assert(ev[i as int] == (es@[i as int].0@, es@[i as int].1@));
        }
        let ghost before = sel.nbt;
        let value = to_string(&es[i].1);
        sel.nbt.insert(to_string(&es[i].0), value);
        proof {
            lemma_text_map_insert(before, sel.nbt, es@[i as int].0@, value);
        }
        i = i + 1;
    }
    proof {
        assert(ev.subrange(i as int, ev.len() as int) == Seq::<(Seq<char>, Seq<char>)>::empty());
    }
}

/// Applies one `key=value` option.
fn apply_option_exec(sel: &mut Selector, option: &Vec<char>) -> (r: Result<(), SelectorError>)
    ensures
        match apply_option(old(sel).view(), option@) {
            Ok(v) => r is Ok && final(sel).view() == v,
            Err(e) => r matches Err(x) && x.view() == e,
        },
{
    let (key, value) = match split_once_char(option, '=') {
        Some(kv) => kv,
        None => {
            return Err(SelectorError::InvalidOption(to_string(option)));
        },
    };
    if is_word(&key, "name") {
        sel.name = Some(inverted(&value));
    } else if is_word(&key, "type") {
        sel.entity_type = Some(inverted(&value));
    } else if is_word(&key, "team") {
        sel.team = Some(inverted(&value));
    } else if is_word(&key, "tag") {
        sel.tag = Some(inverted(&value));
    } else if is_word(&key, "predicate") {
        sel.predicate = Some(inverted(&value));
    } else if is_word(&key, "distance") {
        match float_range_exec(&value) {
            Ok(range) => {
                sel.distance = Some(range);
            },
            Err(e) => {
                return Err(e);
            },
        }
    } else if is_word(&key, "x") || is_word(&key, "y") || is_word(&key, "z") || is_word(&key, "dx")
        || is_word(&key, "dy") || is_word(&key, "dz") {
        match float_bound_exec(&value) {
            Ok(v) => {
                set_coordinate(sel, &key, v);
            },
            Err(e) => {
                return Err(e);
            },
        }
    } else if is_word(&key, "limit") {
        match usize_of(&value) {
            Some(l) => {
                if l == 0 {
                    return Err(SelectorError::InvalidLimit);
                }
                sel.limit = l;
            },
            None => {
                return Err(SelectorError::InvalidLimit);
            },
        }
    } else if is_word(&key, "sort") {
        if is_word(&value, "nearest") {
            sel.sort = SelectorSort::Nearest;
        } else if is_word(&value, "furthest") {
            sel.sort = SelectorSort::Furthest;
        } else if is_word(&value, "random") {
            sel.sort = SelectorSort::Random;
        } else if is_word(&value, "arbitrary") {
            sel.sort = SelectorSort::Arbitrary;
        } else {
            return Err(SelectorError::InvalidOption(to_string(option)));
        }
    } else if is_word(&key, "scores") {
        match map_read_exec(&value) {
            Ok(es) => {
                return insert_scores(sel, &es);
            },
            Err(e) => {
                return Err(e);
            },
        }
    } else if is_word(&key, "nbt") {
        match map_read_exec(&value) {
            Ok(es) => {
                insert_nbt(sel, &es);
            },
            Err(e) => {
                return Err(e);
            },
        }
    } else {
        return Err(SelectorError::InvalidOption(to_string(&key)));
    }
    Ok(())
}


fn plain_selector(base: SelectorBase, includes_entities: bool, limit: usize, sort: SelectorSort) -> (r: Selector)
    ensures
        r.view() == plain_view(base.view(), includes_entities, limit, sort),
{
    let scores: StrMap<RangeI32> = StrMap::new();
    let nbt: StrMap<String> = StrMap::new();
    proof {
        assert(map_view(scores) =~= Map::<Seq<char>, RangeI32>::empty());
        assert(text_map_view(nbt) =~= Map::<Seq<char>, Seq<char>>::empty());
    }
    Selector {
        base,
        includes_entities,
        current_entity: false,
        world_limited: false,
        limit,
        sort,
        name: None,
        entity_type: None,
        team: None,
        tag: None,
        distance: None,
        x: None,
        y: None,
        z: None,
        dx: None,
        dy: None,
        dz: None,
        scores,
        nbt,
        predicate: None,
    }
}

/// The selector of a head such as `@p`.
fn head_selector(head: &Vec<char>) -> (r: Option<Selector>)
    ensures
        match head_view(head@) {
            Some(v) => r matches Some(x) && x.view() == v,
            None => r is None,
        },
{
    if is_word(head, "@p") {
        Some(plain_selector(SelectorBase::NearestPlayer, false, 1, SelectorSort::Nearest))
    } else if is_word(head, "@a") {
        Some(plain_selector(SelectorBase::AllPlayers, false, usize::MAX, SelectorSort::Arbitrary))
    } else if is_word(head, "@e") {
        Some(plain_selector(SelectorBase::AllEntities, true, usize::MAX, SelectorSort::Arbitrary))
    } else if is_word(head, "@s") {
        let mut sel = plain_selector(SelectorBase::CurrentEntity, true, 1, SelectorSort::Arbitrary);
        sel.current_entity = true;
        Some(sel)
    } else if is_word(head, "@r") {
        Some(plain_selector(SelectorBase::RandomPlayer, false, 1, SelectorSort::Random))
    } else {
        None
    }
}

/// Applies the options in turn, stopping at the first that fails.
fn apply_options(sel: Selector, opts: &Vec<Vec<char>>) -> (r: Result<Selector, SelectorError>)
    ensures
        match apply_all(sel.view(), views(opts@)) {
            Ok(v) => r matches Ok(x) && x.view() == v,
            Err(e) => r matches Err(x) && x.view() == e,
        },
{
    let mut sel = sel;
    let ghost ov = views(opts@);
    let ghost start = sel.view();
    let mut i: usize = 0;
    proof {
        assert(ov.subrange(0, ov.len() as int) == ov);
    }
    while i < opts.len()
        invariant
            0 <= i <= opts@.len(),
            ov == views(opts@),
            ov.len() == opts@.len(),
            apply_all(start, ov) == apply_all(sel.view(), ov.subrange(i as int, ov.len() as int)),
        decreases opts@.len() - i,
    {
        let ghost rest = ov.subrange(i as int, ov.len() as int);
        proof {
            assert(rest[0] == ov[i as int]);
            assert(rest.drop_first() == ov.subrange(i + 1, ov.len() as int));
        }
        match apply_option_exec(&mut sel, &opts[i]) {
            Ok(()) => {},
            Err(e) => {
                return Err(e);
            },
        }
        i = i + 1;
    }
    proof {
        assert(ov.subrange(i as int, ov.len() as int) == Seq::<Seq<char>>::empty());
    }
    Ok(sel)
}

impl Selector {
    /// Reads a selector: a plain name, or a head and its bracketed options.
    pub fn parse(input: &str) -> (r: Result<Selector, SelectorError>)
        ensures
            match selector_read(input@) {
                Ok(v) => r matches Ok(x) && x.view() == v,
                Err(e) => r matches Err(x) && x.view() == e,
            },
    {
        let t = chars_of(input);
        if t.len() == 0 {
            return Err(SelectorError::Empty);
        }
        if t[0] != '@' {
            return Ok(plain_selector(SelectorBase::Name(to_string(&t)), true, 1, SelectorSort::Arbitrary));
        }
        let bracket = find_char(&t, '[', 0);
        let head = match bracket {
            Some(k) => {
                if t[t.len() - 1] != ']' {
                    return Err(SelectorError::InvalidBase);
                }
                slice_chars(&t, 0, k)
            },
            None => slice_chars(&t, 0, t.len()),
        };
        proof {
            assert(t@.subrange(0, t@.len() as int) == t@);
        }
        let mut sel = match head_selector(&head) {
            Some(x) => x,
            None => {
                return Err(SelectorError::InvalidBase);
            },
        };
        let k = match bracket {
            Some(k) => k,
            None => {
                return Ok(sel);
            },
        };
        proof {
            assert(t@[k as int] == '[');
            assert(t@[t@.len() - 1] == ']');
        }
        let body = slice_chars(&t, k + 1, t.len() - 1);
        let opts = split_options(&body);
        apply_options(sel, &opts)
    }
}


proof fn lemma_apply_keeps_limit(s: SelectorView, opts: Seq<Seq<char>>)
    requires
        s.limit >= 1,
    ensures
        apply_all(s, opts) matches Ok(v) ==> v.limit >= 1,
    decreases opts.len(),
{
    if opts.len() > 0 {
        match apply_option(s, opts[0]) {
            Ok(s2) => {
                lemma_apply_keeps_limit(s2, opts.drop_first());
            },
            Err(_) => {},
        }
    }
}

/// Every selector that is read selects at least one entity at most: its
/// limit is never zero.
pub proof fn lemma_read_limit_positive(t: Seq<char>)
    ensures
        selector_read(t) matches Ok(v) ==> v.limit >= 1,
{
    if t.len() > 0 && t[0] == '@' {
        let k = find_from(t, '[', 0);
        let head = if k >= 0 { t.subrange(0, k) } else { t };
        match head_view(head) {
            Some(s) => {
                if k >= 0 && t[t.len() - 1] == ']' {
                    lemma_apply_keeps_limit(s, options_from(t.subrange(k + 1, t.len() - 1), 0, 0, 0));
                }
            },
            None => {},
        }
    }
}

/// A text that does not start with `@` reads as the selector of that name:
/// one entity, players or not, in no particular order.
pub proof fn lemma_plain_name(t: Seq<char>)
    requires
        t.len() > 0,
        t[0] != '@',
    ensures
        selector_read(t) == Ok::<SelectorView, ErrorView>(plain_view(BaseView::Name(t), true, 1, SelectorSort::Arbitrary)),
{
}
/// An optional text test: none admits anything; else the text must equal
/// the value, or differ from it when inverted.
pub open spec fn inverted_admits(expected: Option<Inverted<String>>, actual: Seq<char>) -> bool {
    match expected {
        Some(e) => (actual == e.value@) != e.inverted,
        None => true,
    }
}

/// A membership test: the value must be among the texts, or not among
/// them when inverted.
pub open spec fn membership_admits(expected: Option<Inverted<String>>, texts: Seq<String>) -> bool {
    match expected {
        Some(e) => (exists|i: int| 0 <= i < texts.len() && (#[trigger] texts[i])@ == e.value@) != e.inverted,
        None => true,
    }
}

/// A score within the bounds that are given.
pub open spec fn score_in(range: RangeI32, value: i32) -> bool {
    &&& (range.min matches Some(m) ==> value >= m)
    &&& (range.max matches Some(m) ==> value <= m)
}

/// The entity's score for the objective, zero when it has none.
pub open spec fn score_of(entity: EntityRecord, objective: Seq<char>) -> i32 {
    match entity.scores.lookup(objective) {
        Some(v) => v,
        None => 0,
    }
}

/// Whether the selector admits the entity, given the outcomes of its
/// distance and box tests (which work on floating-point positions): the
/// kind, world and current-entity limits; then a named selector admits the
/// entity of that name or UUID, and any other selector applies its name,
/// type, team, tag, distance, box, score, NBT and predicate filters.
pub open spec fn selector_admits(selector: Selector, entity: EntityRecord, source_level: Seq<char>,
    current_entity: Option<Seq<char>>, in_distance: bool, in_box: bool) -> bool
{
    &&& selector.includes_entities || entity.player
    &&& !selector.world_limited || entity.level@ == source_level
    &&& !selector.current_entity || current_entity == Some(entity.uuid@)
    &&& match selector.base {
        SelectorBase::Name(n) => entity.name@ == n@ || entity.uuid@ == n@,
        _ => {
            &&& inverted_admits(selector.name, entity.name@)
            &&& inverted_admits(selector.entity_type, entity.entity_type@)
            &&& inverted_admits(selector.team, match entity.team {
                Some(t) => t@,
                None => Seq::<char>::empty(),
            })
            &&& membership_admits(selector.tag, entity.tags@)
            &&& in_distance
            &&& in_box
            &&& forall|i: int| 0 <= i < selector.scores.entries().len()
                ==> score_in(#[trigger] selector.scores.entries()[i].1, score_of(entity, selector.scores.entries()[i].0))
            &&& forall|i: int| 0 <= i < selector.nbt.entries().len()
                ==> (entity.nbt.lookup(#[trigger] selector.nbt.entries()[i].0) matches Some(v) && v@ == selector.nbt.entries()[i].1@)
            &&& membership_admits(selector.predicate, entity.predicates@)
        },
    }
}

fn inverted_test(expected: &Option<Inverted<String>>, actual: &str) -> (r: bool)
    ensures
        r == inverted_admits(*expected, actual@),
{
    match expected {
        Some(e) => str_eq(actual, e.value.as_str()) != e.inverted,
        None => true,
    }
}

fn membership_test(expected: &Option<Inverted<String>>, texts: &Vec<String>) -> (r: bool)
    ensures
        r == membership_admits(*expected, texts@),
{
    match expected {
        Some(e) => {
            let mut found = false;
            let mut i: usize = 0;
            while i < texts.len()
                invariant
                    0 <= i <= texts@.len(),
                    found == exists|k: int| 0 <= k < i && (#[trigger] texts@[k])@ == e.value@,
                decreases texts@.len() - i,
            {
                if str_eq(texts[i].as_str(), e.value.as_str()) {
                    found = true;
                }
                i = i + 1;
            }
            found != e.inverted
        },
        None => true,
    }
}

/// The selector's filters on one entity; the distance and box tests, which
/// work on floating-point positions, come in as their outcomes.
pub fn matches_filters(selector: &Selector, entity: &EntityRecord, source_level: &str, current_entity: Option<&str>,
    in_distance: bool, in_box: bool) -> (r: bool)
    ensures
        r == selector_admits(*selector, *entity, source_level@, match current_entity {
            Some(s) => Some(s@),
            None => None,
        }, in_distance, in_box),
{
    if !selector.includes_entities && !entity.player {
        return false;
    }
    if selector.world_limited && !str_eq(entity.level.as_str(), source_level) {
        return false;
    }
    if selector.current_entity {
        match current_entity {
            Some(c) => {
                if !str_eq(entity.uuid.as_str(), c) {
                    return false;
                }
            },
            None => {
                return false;
            },
        }
    }
    if let SelectorBase::Name(name) = &selector.base {
        return str_eq(entity.name.as_str(), name.as_str()) || str_eq(entity.uuid.as_str(), name.as_str());
    }
    if !inverted_test(&selector.name, entity.name.as_str()) {
        return false;
    }
    if !inverted_test(&selector.entity_type, entity.entity_type.as_str()) {
        return false;
    }
    let team: &str = match &entity.team {
        Some(t) => t.as_str(),
        None => "",
    };
    proof {
        reveal_strlit("");
        assert(""@ =~= Seq::<char>::empty());
    }
    if !inverted_test(&selector.team, team) {
        return false;
    }
    if !membership_test(&selector.tag, &entity.tags) {
        return false;
    }
    if !in_distance || !in_box {
        return false;
    }
    let n = selector.scores.len();
    let mut i: usize = 0;
    while i < n
        invariant
            n == selector.scores.entries().len(),
            0 <= i <= n,
            forall|k: int| 0 <= k < i ==> score_in(#[trigger] selector.scores.entries()[k].1, score_of(*entity, selector.scores.entries()[k].0)),
        decreases n - i,
    {
        let range = selector.scores.value_at(i);
        let score: i32 = match entity.scores.get(selector.scores.key_at(i)) {
            Some(v) => *v,
            None => 0,
        };
        let inside = match range.min {
            Some(m) => score >= m,
            None => true,
        } && match range.max {
            Some(m) => score <= m,
            None => true,
        };
        if !inside {
            return false;
        }
        i = i + 1;
    }
    let m = selector.nbt.len();
    let mut j: usize = 0;
    while j < m
        invariant
            m == selector.nbt.entries().len(),
            0 <= j <= m,
            forall|k: int| 0 <= k < j ==> (entity.nbt.lookup(#[trigger] selector.nbt.entries()[k].0) matches Some(v)
                && v@ == selector.nbt.entries()[k].1@),
        decreases m - j,
    {
        match entity.nbt.get(selector.nbt.key_at(j)) {
            Some(v) => {
                if !str_eq(v.as_str(), selector.nbt.value_at(j).as_str()) {
                    return false;
                }
            },
            None => {
                return false;
            },
        }
        j = j + 1;
    }
    membership_test(&selector.predicate, &entity.predicates)
}

/// A selector with score bounds (other than a named one, which applies no
/// filters) admits an entity only if the entity's score for each objective,
/// zero when it has none, lies within that objective's bounds: a score above
/// the upper bound, or below the lower one, keeps the entity out.
pub proof fn lemma_scores_bound_selection(selector: Selector, entity: EntityRecord, source_level: Seq<char>,
    current_entity: Option<Seq<char>>, in_distance: bool, in_box: bool, i: int)
    requires
        0 <= i < selector.scores.entries().len(),
        !(selector.base is Name),
    ensures
        ({
            let range = selector.scores.entries()[i].1;
            let score = match entity.scores.lookup(selector.scores.entries()[i].0) {
                Some(v) => v,
                None => 0i32,
            };
            &&& (range.max matches Some(m) && score > m) ==> !selector_admits(selector, entity, source_level, current_entity, in_distance, in_box)
            &&& (range.min matches Some(m) && score < m) ==> !selector_admits(selector, entity, source_level, current_entity, in_distance, in_box)
        }),
{
    let range = selector.scores.entries()[i].1;
    if selector_admits(selector, entity, source_level, current_entity, in_distance, in_box) {
        assert(score_in(range, score_of(entity, selector.scores.entries()[i].0)));
    }
}

} // verus!
