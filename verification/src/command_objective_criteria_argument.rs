//! The `criteria` argument of `/scoreboard objectives add`: a custom
//! criterion by name, or a statistic `type:value` whose identifiers are
//! written with dots.

use vstd::prelude::*;
use vstd::string::StringSliceAdditionalSpecFns;
use vstd::utf8::decode_utf8;
use crate::text::{utf8, cut_point, push_char, push_str, lemma_utf8_injective, lemma_utf8_concat, lemma_utf8_lacks_ascii,
    lemma_utf8_ascii_char};
use crate::string_reader::{space_end, lemma_cut_after_ascii, lemma_cut_at_ascii};
use crate::arg_map::ArgMap;
use crate::command_identifier_argument::{find_byte, lemma_find_byte, lemma_find_byte_at};
use crate::command_shared_suggestion_provider::{suggest, SuggestionModel, SuggestionsBuilderModel, offered};
pub use crate::string_reader::StringReaderModel;

verus! {

broadcast use vstd::utf8::encode_utf8_decode_utf8, vstd::utf8::encode_utf8_valid_utf8;

#[derive(Debug, Clone, Copy, PartialEq, Eq, Structural)]
pub enum RenderTypeModel {
    Integer,
    Hearts,
}

#[derive(Debug, Clone, PartialEq, Eq, Hash)]
pub struct IdentifierModel {
    namespace: String,
    path: String,
}

#[derive(Debug, Clone, PartialEq, Eq)]
pub struct StatValueModel {
    key: IdentifierModel,
}

#[derive(Debug, Clone, PartialEq, Eq)]
pub struct StatTypeModel {
    registry_key: IdentifierModel,
    pub values: Vec<StatValueModel>,
}

#[derive(Debug, Clone, PartialEq, Eq)]
pub struct StatModel;

#[derive(Debug, Clone, PartialEq, Eq)]
pub struct ObjectiveCriteriaModel {
    name: String,
    read_only: bool,
    render_type: RenderTypeModel,
}

pub struct CriteriaRegistryModel {
    custom_criteria: Vec<ObjectiveCriteriaModel>,
    criteria_cache: ArgMap<ObjectiveCriteriaModel>,
    stat_types: Vec<StatTypeModel>,
}

pub struct ObjectiveCriteriaArgumentModel {
    registry: CriteriaRegistryModel,
}

pub struct CommandContextModel {
    arguments: ArgMap<ObjectiveCriteriaModel>,
}

#[derive(Debug, Clone, PartialEq, Eq)]
pub enum ObjectiveCriteriaParseError {
    InvalidValue { value: String },
}

/// Splits identifier bytes at the first `sep`: no separator, or a separator
/// first, means the `minecraft` namespace.
pub open spec fn split_by(v: Seq<u8>, sep: u8) -> (Seq<u8>, Seq<u8>) {
    let c = find_byte(v, sep, 0);
    if c >= v.len() {
        (utf8("minecraft"@), v)
    } else if c == 0 {
        (utf8("minecraft"@), v.subrange(1, v.len() as int))
    } else {
        (v.subrange(0, c), v.subrange(c + 1, v.len() as int))
    }
}

/// A statistic key: the identifier text with every colon written as a dot.
pub open spec fn stat_key(s: Seq<char>) -> Seq<char> {
    s.map_values(|c: char| if c == ':' { '.' } else { c })
}

impl RenderTypeModel {
    pub open spec fn id_spec(self) -> Seq<char> {
        match self {
            RenderTypeModel::Integer => "integer"@,
            RenderTypeModel::Hearts => "hearts"@,
        }
    }

    pub fn id(self) -> (r: &'static str)
        ensures
            r@ == self.id_spec(),
    {
        match self {
            RenderTypeModel::Integer => "integer",
            RenderTypeModel::Hearts => "hearts",
        }
    }
}

impl IdentifierModel {
    pub closed spec fn namespace_view(&self) -> Seq<char> {
        self.namespace@
    }

    pub closed spec fn path_view(&self) -> Seq<char> {
        self.path@
    }

    pub open spec fn display(&self) -> Seq<char> {
        self.namespace_view() + ":"@ + self.path_view()
    }

    pub open spec fn same(&self, other: &IdentifierModel) -> bool {
        self.namespace_view() == other.namespace_view() && self.path_view() == other.path_view()
    }

    pub fn new(namespace: &str, path: &str) -> (r: Self)
        ensures
            r.namespace_view() == namespace@,
            r.path_view() == path@,
    {
        IdentifierModel { namespace: namespace.to_owned(), path: path.to_owned() }
    }

    fn copy(&self) -> (r: Self)
        ensures
            r.same(self),
    {
        IdentifierModel { namespace: self.namespace.clone(), path: self.path.clone() }
    }

    fn equals(&self, other: &IdentifierModel) -> (r: bool)
        ensures
            r == self.same(other),
    {
        self.namespace == other.namespace && self.path == other.path
    }

    /// `namespace:path`, split at the first colon.
    pub fn parse(value: &str) -> (r: Self)
        ensures
            (utf8(r.namespace_view()), utf8(r.path_view())) == split_by(value.spec_bytes(), 58),
    {
        Self::by_separator(value, ':')
    }

    /// Splits at the first `separator`. A separator outside ASCII can only
    /// be absent (cutting just after one would split a character).
    pub fn by_separator(value: &str, separator: char) -> (r: Self)
        requires
            (separator as u32) < 128 || !value@.contains(separator),
        ensures
            (separator as u32) < 128 ==> (utf8(r.namespace_view()), utf8(r.path_view())) == split_by(value.spec_bytes(), separator as u8),
            (separator as u32) >= 128 ==> r.namespace_view() == "minecraft"@ && r.path_view() == value@,
    {
        if (separator as u32) >= 128 {
            return Self::new("minecraft", value);
        }
        let sep = separator as u8;
        let b = value.as_bytes();
        let ghost v = b@;
        let mut c: usize = 0;
        proof {
            lemma_find_byte(v, sep, 0);
        }
        while c < b.len() && b[c] != sep
            invariant
                b@ == v,
                v == value.spec_bytes(),
                0 <= c <= v.len(),
                find_byte(v, sep, c as int) == find_byte(v, sep, 0),
            decreases v.len() - c,
        {
            c = c + 1;
        }
        proof {
            lemma_find_byte(v, sep, c as int);
            lemma_cut_at_ascii(v, c as int);
        }
        if c == b.len() {
            let r = Self::new("minecraft", value);
            return r;
        }
        proof {
            lemma_cut_after_ascii(v, c + 1);
        }
        let path = crate::text::substring(value, c + 1, b.len());
        if c == 0 {
            Self::new("minecraft", path)
        } else {
            let ns = crate::text::substring(value, 0, c);
            Self::new(ns, path)
        }
    }

    /// `namespace:path`.
    pub fn to_string(&self) -> (r: String)
        ensures
            r@ == self.display(),
    {
        let mut s = self.namespace.clone();
        push_str(&mut s, ":");
        push_str(&mut s, self.path.as_str());
        s
    }

    /// The identifier text with colons written as dots.
    pub fn to_stat_key(&self) -> (r: String)
        ensures
            r@ == stat_key(self.display()),
    {
        let full = self.to_string();
        let s = full.as_str();
        let n = s.unicode_len();
        let mut out = String::new();
        let mut i: usize = 0;
        while i < n
            invariant
                n == s@.len(),
                s@ == self.display(),
                0 <= i <= n,
                out@ == stat_key(s@.subrange(0, i as int)),
            decreases n - i,
        {
            let c = s.get_char(i);
            let d = if c == ':' { '.' } else { c };
            push_char(&mut out, d);
            i = i + 1;
            assert(stat_key(s@.subrange(0, i as int)) =~= stat_key(s@.subrange(0, i - 1)).push(d));
        }
        assert(s@.subrange(0, n as int) =~= s@);
        out
    }
}

impl StatValueModel {
    pub closed spec fn key_view(&self) -> IdentifierModel {
        self.key
    }

    pub fn new(key: IdentifierModel) -> (r: Self)
        ensures
            r.key_view() == key,
    {
        StatValueModel { key }
    }
}

/// `type_key:value_key`, both written as statistic keys.
pub open spec fn stat_name(t: IdentifierModel, v: IdentifierModel) -> Seq<char> {
    stat_key(t.display()) + ":"@ + stat_key(v.display())
}

impl StatTypeModel {
    pub closed spec fn key_view(&self) -> IdentifierModel {
        self.registry_key
    }

    pub closed spec fn values_view(&self) -> Seq<StatValueModel> {
        self.values@
    }

    pub fn new(registry_key: IdentifierModel, values: Vec<StatValueModel>) -> (r: Self)
        ensures
            r.key_view() == registry_key,
            r.values_view() == values@,
    {
        StatTypeModel { registry_key, values }
    }

    /// The criterion of the first value with this key.
    fn get(&self, value_key: &IdentifierModel) -> (r: Option<ObjectiveCriteriaModel>)
        ensures
            r matches Some(c) ==> (exists|j: int| 0 <= j < self.values_view().len()
                && (#[trigger] self.values_view()[j]).key_view().same(value_key)
                && c.name_view() == stat_name(self.key_view(), self.values_view()[j].key_view()))
                && !c.read_only_view() && c.render_view() == RenderTypeModel::Integer,
            r is None ==> forall|j: int| 0 <= j < self.values_view().len() ==> !(#[trigger] self.values_view()[j]).key_view().same(value_key),
    {
        let mut j: usize = 0;
        while j < self.values.len()
            invariant
                0 <= j <= self.values_view().len(),
                forall|k: int| 0 <= k < j ==> !(#[trigger] self.values_view()[k]).key_view().same(value_key),
            decreases self.values_view().len() - j,
        {
            let v = &self.values[j];
            if v.key.equals(value_key) {
                let c = ObjectiveCriteriaModel::stat_owned(StatModel::build_name(self, v));
                assert(self.values_view()[j as int].key_view().same(value_key));
                return Some(c);
            }
            j = j + 1;
        }
        None
    }
}

impl StatModel {
    pub fn build_name(stat_type: &StatTypeModel, value: &StatValueModel) -> (r: String)
        ensures
            r@ == stat_name(stat_type.key_view(), value.key_view()),
    {
        let mut s = stat_type.registry_key.to_stat_key();
        push_str(&mut s, ":");
        let v = value.key.to_stat_key();
        push_str(&mut s, v.as_str());
        s
    }
}

impl ObjectiveCriteriaModel {
    pub closed spec fn name_view(&self) -> Seq<char> {
        self.name@
    }

    pub closed spec fn read_only_view(&self) -> bool {
        self.read_only
    }

    pub closed spec fn render_view(&self) -> RenderTypeModel {
        self.render_type
    }

    pub open spec fn same(&self, other: &ObjectiveCriteriaModel) -> bool {
        self.name_view() == other.name_view() && self.read_only_view() == other.read_only_view()
            && self.render_view() == other.render_view()
    }

    fn copy(&self) -> (r: Self)
        ensures
            r.same(self),
    {
        ObjectiveCriteriaModel { name: self.name.clone(), read_only: self.read_only, render_type: self.render_type }
    }

    /// A writable criterion rendered as an integer.
    pub fn custom(name: &str) -> (r: Self)
        ensures
            r.name_view() == name@,
            !r.read_only_view(),
            r.render_view() == RenderTypeModel::Integer,
    {
        ObjectiveCriteriaModel { name: name.to_owned(), read_only: false, render_type: RenderTypeModel::Integer }
    }

    fn custom_owned(name: String) -> (r: Self)
        ensures
            r.name_view() == name@,
            !r.read_only_view(),
            r.render_view() == RenderTypeModel::Integer,
    {
        ObjectiveCriteriaModel { name, read_only: false, render_type: RenderTypeModel::Integer }
    }

    /// A criterion that commands cannot set.
    pub fn read_only(name: &str, render_type: RenderTypeModel) -> (r: Self)
        ensures
            r.name_view() == name@,
            r.read_only_view(),
            r.render_view() == render_type,
    {
        ObjectiveCriteriaModel { name: name.to_owned(), read_only: true, render_type }
    }

    /// The criterion of a statistic.
    pub fn stat(name: &str) -> (r: Self)
        ensures
            r.name_view() == name@,
            !r.read_only_view(),
            r.render_view() == RenderTypeModel::Integer,
    {
        ObjectiveCriteriaModel { name: name.to_owned(), read_only: false, render_type: RenderTypeModel::Integer }
    }

    fn stat_owned(name: String) -> (r: Self)
        ensures
            r.name_view() == name@,
            !r.read_only_view(),
            r.render_view() == RenderTypeModel::Integer,
    {
        ObjectiveCriteriaModel { name, read_only: false, render_type: RenderTypeModel::Integer }
    }

    pub fn name(&self) -> (r: &str)
        ensures
            r@ == self.name_view(),
    {
        self.name.as_str()
    }

    pub fn is_read_only(&self) -> (r: bool)
        ensures
            r == self.read_only_view(),
    {
        self.read_only
    }

    pub fn default_render_type(&self) -> (r: RenderTypeModel)
        ensures
            r == self.render_view(),
    {
        self.render_type
    }

    /// The built-in custom criteria: five writable ones, six read-only ones,
    /// then `teamkill.<color>` and `killedByTeam.<color>` for each of the
    /// sixteen team colors.
    pub fn java_custom_criteria() -> (r: Vec<ObjectiveCriteriaModel>)
        ensures
            criteria_entries(r@) == java_criteria_table(),
    {
        let ghost table = java_criteria_table();
        let mut c: Vec<ObjectiveCriteriaModel> = Vec::new();
        c.push(Self::custom("dummy"));
        c.push(Self::custom("trigger"));
        c.push(Self::custom("deathCount"));
        c.push(Self::custom("playerKillCount"));
        c.push(Self::custom("totalKillCount"));
        c.push(Self::read_only("health", RenderTypeModel::Hearts));
        c.push(Self::read_only("food", RenderTypeModel::Integer));
        c.push(Self::read_only("air", RenderTypeModel::Integer));
        c.push(Self::read_only("armor", RenderTypeModel::Integer));
        c.push(Self::read_only("xp", RenderTypeModel::Integer));
        c.push(Self::read_only("level", RenderTypeModel::Integer));
        proof {
            assert(table.len() == 43);
            assert(criteria_entries(c@) =~= table.subrange(0, 11));
        }
        let mut p: usize = 0;
        while p < 2
            invariant
                0 <= p <= 2,
                table == java_criteria_table(),
                c@.len() == 11 + 16 * p,
                criteria_entries(c@) == table.subrange(0, c@.len() as int),
            decreases 2 - p,
        {
            let prefix: &'static str = if p == 0 { "teamkill" } else { "killedByTeam" };
            let mut k: usize = 0;
            while k < 16
                invariant
                    0 <= p < 2,
                    0 <= k <= 16,
                    table == java_criteria_table(),
                    prefix@ == (if p == 0 { "teamkill"@ } else { "killedByTeam"@ }),
                    c@.len() == 11 + 16 * p + k,
                    criteria_entries(c@) == table.subrange(0, c@.len() as int),
                decreases 16 - k,
            {
                let mut name = prefix.to_owned();
                push_str(&mut name, ".");
                push_str(&mut name, team_color(k));
                let ghost before = c@;
                c.push(Self::custom_owned(name));
                proof {
                    let at = 11 + 16 * p + k;
                    assert(table[at as int] == (prefix@ + "."@ + team_colors()[k as int], false, RenderTypeModel::Integer)) by {
                        if p == 0 {
                            assert(table[at as int] == team_criteria("teamkill"@)[k as int]);
                        } else {
                            assert(table[at as int] == team_criteria("killedByTeam"@)[k as int]);
                        }
                    }
                    assert(criteria_entries(c@) =~= criteria_entries(before).push(table[at as int]));
                    assert(table.subrange(0, at + 1) =~= table.subrange(0, at as int).push(table[at as int]));
                }
                k = k + 1;
            }
            p = p + 1;
        }
        proof {
            assert(table.subrange(0, 43) =~= table);
        }
        c
    }
}

/// The sixteen team colors, in order.
pub open spec fn team_colors() -> Seq<Seq<char>> {
    seq!["black"@, "dark_blue"@, "dark_green"@, "dark_aqua"@, "dark_red"@, "dark_purple"@, "gold"@, "gray"@,
        "dark_gray"@, "blue"@, "green"@, "aqua"@, "red"@, "light_purple"@, "yellow"@, "white"@]
}

/// `<prefix>.<color>` for each team color, writable and shown as an integer.
pub open spec fn team_criteria(prefix: Seq<char>) -> Seq<(Seq<char>, bool, RenderTypeModel)> {
    team_colors().map_values(|c: Seq<char>| (prefix + "."@ + c, false, RenderTypeModel::Integer))
}

/// The built-in custom criteria, in order: name, read-only, render type.
pub open spec fn java_criteria_table() -> Seq<(Seq<char>, bool, RenderTypeModel)> {
    seq![
        ("dummy"@, false, RenderTypeModel::Integer),
        ("trigger"@, false, RenderTypeModel::Integer),
        ("deathCount"@, false, RenderTypeModel::Integer),
        ("playerKillCount"@, false, RenderTypeModel::Integer),
        ("totalKillCount"@, false, RenderTypeModel::Integer),
        ("health"@, true, RenderTypeModel::Hearts),
        ("food"@, true, RenderTypeModel::Integer),
        ("air"@, true, RenderTypeModel::Integer),
        ("armor"@, true, RenderTypeModel::Integer),
        ("xp"@, true, RenderTypeModel::Integer),
        ("level"@, true, RenderTypeModel::Integer),
    ] + team_criteria("teamkill"@) + team_criteria("killedByTeam"@)
}

/// Each criterion's name, read-only flag and render type, in order.
pub open spec fn criteria_entries(cs: Seq<ObjectiveCriteriaModel>) -> Seq<(Seq<char>, bool, RenderTypeModel)> {
    cs.map_values(|c: ObjectiveCriteriaModel| (c.name_view(), c.read_only_view(), c.render_view()))
}

fn team_color(k: usize) -> (r: &'static str)
    requires
        k < 16,
    ensures
        r@ == team_colors()[k as int],
{
    if k == 0 { "black" } else if k == 1 { "dark_blue" } else if k == 2 { "dark_green" } else if k == 3 { "dark_aqua" }
    else if k == 4 { "dark_red" } else if k == 5 { "dark_purple" } else if k == 6 { "gold" } else if k == 7 { "gray" }
    else if k == 8 { "dark_gray" } else if k == 9 { "blue" } else if k == 10 { "green" } else if k == 11 { "aqua" }
    else if k == 12 { "red" } else if k == 13 { "light_purple" } else if k == 14 { "yellow" } else { "white" }
}

/// The index of the first stat type with this key (or the count).
pub open spec fn first_type(types: Seq<StatTypeModel>, ns: Seq<u8>, path: Seq<u8>, from: int) -> int
    decreases types.len() - from,
{
    if from >= types.len() {
        types.len() as int
    } else if utf8(types[from].key_view().namespace_view()) == ns && utf8(types[from].key_view().path_view()) == path {
        from
    } else {
        first_type(types, ns, path, from + 1)
    }
}

/// What looking `name` up in the registry gives: the cached custom
/// criterion of that name; else, for `type:value` with identifiers written
/// with dots, a statistic of a known type on one of its values; else none.
pub open spec fn criteria_found(registry: CriteriaRegistryModel, name: Seq<char>, r: Option<ObjectiveCriteriaModel>) -> bool {
    if registry.cache_view().contains_key(name) {
        r matches Some(c) && c.same(&registry.cache_view()[name])
    } else {
        let v = utf8(name);
        let colon = find_byte(v, 58, 0);
        if colon >= v.len() {
            r is None
        } else {
            let (tns, tpath) = split_by(v.subrange(0, colon), 46);
            let (vns, vpath) = split_by(v.subrange(colon + 1, v.len() as int), 46);
            let i = first_type(registry.types_view(), tns, tpath, 0);
            if i >= registry.types_view().len() {
                r is None
            } else {
                let t = registry.types_view()[i];
                match r {
                    Some(c) => exists|j: int| 0 <= j < t.values_view().len()
                        && utf8((#[trigger] t.values_view()[j]).key_view().namespace_view()) == vns
                        && utf8(t.values_view()[j].key_view().path_view()) == vpath
                        && c.name_view() == stat_name(t.key_view(), t.values_view()[j].key_view())
                        && !c.read_only_view() && c.render_view() == RenderTypeModel::Integer,
                    None => forall|j: int| 0 <= j < t.values_view().len() ==>
                        !(utf8((#[trigger] t.values_view()[j]).key_view().namespace_view()) == vns
                        && utf8(t.values_view()[j].key_view().path_view()) == vpath),
                }
            }
        }
    }
}

/// The cache holds the custom criteria under their names, and nothing else.
pub open spec fn cache_of_custom(r: CriteriaRegistryModel) -> bool {
    &&& forall|k: Seq<char>| r.cache_view().contains_key(k) <==> exists|i: int| 0 <= i < r.custom_view().len()
        && (#[trigger] r.custom_view()[i]).name_view() == k
    &&& forall|k: Seq<char>| #[trigger] r.cache_view().contains_key(k) ==> exists|i: int| 0 <= i < r.custom_view().len()
        && r.custom_view()[i].name_view() == k && r.cache_view()[k].same(&r.custom_view()[i])
}

/// The built-in custom criteria, cached under their names.
pub open spec fn holds_java_custom(r: CriteriaRegistryModel) -> bool {
    &&& criteria_entries(r.custom_view()) == java_criteria_table()
    &&& cache_of_custom(r)
}

/// The registry of the built-in custom criteria, without statistics.
pub open spec fn java_registry(r: CriteriaRegistryModel) -> bool {
    &&& holds_java_custom(r)
    &&& r.types_view().len() == 0
}

/// No `:` in the text.
pub open spec fn colon_free(s: Seq<char>) -> bool {
    forall|j: int| 0 <= j < s.len() ==> s[j] != ':'
}

proof fn lemma_colon_free_concat(a: Seq<char>, b: Seq<char>)
    requires
        colon_free(a),
        colon_free(b),
    ensures
        colon_free(a + b),
{
    assert forall|j: int| 0 <= j < (a + b).len() implies (a + b)[j] != ':' by {
        if j >= a.len() {
            assert((a + b)[j] == b[j - a.len()]);
        }
    }
}

/// No built-in custom criterion has a `:` in its name.
proof fn lemma_table_colon_free()
    ensures
        forall|i: int| 0 <= i < java_criteria_table().len() ==> colon_free(#[trigger] java_criteria_table()[i].0),
{
    reveal_strlit("dummy");
    reveal_strlit("trigger");
    reveal_strlit("deathCount");
    reveal_strlit("playerKillCount");
    reveal_strlit("totalKillCount");
    reveal_strlit("health");
    reveal_strlit("food");
    reveal_strlit("air");
    reveal_strlit("armor");
    reveal_strlit("xp");
    reveal_strlit("level");
    reveal_strlit("black");
    reveal_strlit("dark_blue");
    reveal_strlit("dark_green");
    reveal_strlit("dark_aqua");
    reveal_strlit("dark_red");
    reveal_strlit("dark_purple");
    reveal_strlit("gold");
    reveal_strlit("gray");
    reveal_strlit("dark_gray");
    reveal_strlit("blue");
    reveal_strlit("green");
    reveal_strlit("aqua");
    reveal_strlit("red");
    reveal_strlit("light_purple");
    reveal_strlit("yellow");
    reveal_strlit("white");
    reveal_strlit("teamkill");
    reveal_strlit("killedByTeam");
    reveal_strlit(".");
    assert(colon_free("dummy"@));
    assert(colon_free("trigger"@));
    assert(colon_free("deathCount"@));
    assert(colon_free("playerKillCount"@));
    assert(colon_free("totalKillCount"@));
    assert(colon_free("health"@));
    assert(colon_free("food"@));
    assert(colon_free("air"@));
    assert(colon_free("armor"@));
    assert(colon_free("xp"@));
    assert(colon_free("level"@));
    assert(colon_free("black"@));
    assert(colon_free("dark_blue"@));
    assert(colon_free("dark_green"@));
    assert(colon_free("dark_aqua"@));
    assert(colon_free("dark_red"@));
    assert(colon_free("dark_purple"@));
    assert(colon_free("gold"@));
    assert(colon_free("gray"@));
    assert(colon_free("dark_gray"@));
    assert(colon_free("blue"@));
    assert(colon_free("green"@));
    assert(colon_free("aqua"@));
    assert(colon_free("red"@));
    assert(colon_free("light_purple"@));
    assert(colon_free("yellow"@));
    assert(colon_free("white"@));
    assert(colon_free("teamkill"@));
    assert(colon_free("killedByTeam"@));
    assert(colon_free("."@));
    let cs = team_colors();
    assert forall|k: int| 0 <= k < 16 implies colon_free(#[trigger] cs[k]) by {
        if k == 0 {} else if k == 1 {} else if k == 2 {} else if k == 3 {} else if k == 4 {} else if k == 5 {} else if k == 6 {} else if k == 7 {} else if k == 8 {} else if k == 9 {} else if k == 10 {} else if k == 11 {} else if k == 12 {} else if k == 13 {} else if k == 14 {} else {}
    }
    let t = java_criteria_table();
    assert forall|i: int| 0 <= i < t.len() implies colon_free(#[trigger] t[i].0) by {
        if i < 11 {
            if i == 0 {} else if i == 1 {} else if i == 2 {} else if i == 3 {} else if i == 4 {} else if i == 5 {} else if i == 6 {} else if i == 7 {} else if i == 8 {} else if i == 9 {} else {}
        } else if i < 27 {
            let k = i - 11;
            assert(t[i] == team_criteria("teamkill"@)[k]);
            lemma_colon_free_concat("teamkill"@, "."@);
            lemma_colon_free_concat("teamkill"@ + "."@, cs[k]);
        } else {
            let k = i - 27;
            assert(t[i] == team_criteria("killedByTeam"@)[k]);
            lemma_colon_free_concat("killedByTeam"@, "."@);
            lemma_colon_free_concat("killedByTeam"@ + "."@, cs[k]);
        }
    }
}

impl CriteriaRegistryModel {
    pub closed spec fn cache_view(&self) -> Map<Seq<char>, ObjectiveCriteriaModel> {
        self.criteria_cache.view()
    }

    pub closed spec fn custom_view(&self) -> Seq<ObjectiveCriteriaModel> {
        self.custom_criteria@
    }

    pub closed spec fn types_view(&self) -> Seq<StatTypeModel> {
        self.stat_types@
    }

    /// The registry of the built-in custom criteria, without statistics.
    pub fn java_subset() -> (r: Self)
        ensures
            java_registry(r),
    {
        let mut registry = CriteriaRegistryModel {
            custom_criteria: Vec::new(),
            criteria_cache: ArgMap::new(),
            stat_types: Vec::new(),
        };
        let all = ObjectiveCriteriaModel::java_custom_criteria();
        let ghost table = java_criteria_table();
        proof {
            assert(criteria_entries(all@).len() == all@.len());
            assert(registry.cache_view().dom() =~= Set::<Seq<char>>::empty());
        }
        let mut i: usize = 0;
        while i < all.len()
            invariant
                0 <= i <= all@.len(),
                all@.len() == 43,
                criteria_entries(all@) == table,
                registry.custom_view().len() == i,
                criteria_entries(registry.custom_view()) == table.subrange(0, i as int),
                registry.types_view().len() == 0,
                cache_of_custom(registry),
            decreases all@.len() - i,
        {
            let ghost before = registry;
            let c = all[i].copy();
            let ghost name = c.name_view();
            registry.register_custom(c);
            proof {
                assert(criteria_entries(all@)[i as int] == table[i as int]);
                assert(criteria_entries(registry.custom_view()) =~= table.subrange(0, i + 1));
                let cs = registry.custom_view();
                let n = cs.len() - 1;
                assert(cs[n] == c);
                assert forall|k: Seq<char>| registry.cache_view().contains_key(k) <==> exists|m: int| 0 <= m < cs.len()
                    && (#[trigger] cs[m]).name_view() == k by {
                    if registry.cache_view().contains_key(k) {
                        if k == name {
                            assert(cs[n].name_view() == k);
                        } else {
                            assert(before.cache_view().contains_key(k));
                            let m = choose|m: int| 0 <= m < before.custom_view().len() && (#[trigger] before.custom_view()[m]).name_view() == k;
                            assert(cs[m] == before.custom_view()[m]);
                        }
                    }
                    if exists|m: int| 0 <= m < cs.len() && (#[trigger] cs[m]).name_view() == k {
                        let m = choose|m: int| 0 <= m < cs.len() && (#[trigger] cs[m]).name_view() == k;
                        if m < n {
                            assert(cs[m] == before.custom_view()[m]);
                            assert(before.cache_view().contains_key(k));
                        }
                    }
                }
                assert forall|k: Seq<char>| #[trigger] registry.cache_view().contains_key(k) implies exists|m: int| 0 <= m < cs.len()
                    && cs[m].name_view() == k && registry.cache_view()[k].same(&cs[m]) by {
                    if k == name {
                        assert(cs[n].name_view() == k && registry.cache_view()[k].same(&cs[n]));
                    } else {
                        assert(before.cache_view().contains_key(k));
                        let m = choose|m: int| 0 <= m < before.custom_view().len() && before.custom_view()[m].name_view() == k
                            && before.cache_view()[k].same(&before.custom_view()[m]);
                        assert(cs[m] == before.custom_view()[m]);
                    }
                }
            }
            i = i + 1;
        }
        proof {
            assert(table.subrange(0, 43) =~= table);
        }
        registry
    }

    pub fn with_stat_type(self, stat_type: StatTypeModel) -> (r: Self)
        ensures
            r.types_view() == self.types_view().push(stat_type),
            r.cache_view() == self.cache_view(),
            r.custom_view() == self.custom_view(),
    {
        let mut stat_types = self.stat_types;
        stat_types.push(stat_type);
        CriteriaRegistryModel { custom_criteria: self.custom_criteria, criteria_cache: self.criteria_cache, stat_types }
    }

    /// A cached custom criterion by exact name; else a statistic
    /// `type:value` whose type and value identifiers are written with dots.
    pub fn by_name(&self, name: &str) -> (r: Option<ObjectiveCriteriaModel>)
        ensures
            criteria_found(*self, name@, r),
    {
        if let Some(c) = self.criteria_cache.get(name) {
            return Some(c.copy());
        }
        let b = name.as_bytes();
        let ghost v = b@;
        let mut colon: usize = 0;
        proof {
            lemma_find_byte(v, 58, 0);
        }
        while colon < b.len() && b[colon] != 58
            invariant
                b@ == v,
                v == name.spec_bytes(),
                0 <= colon <= v.len(),
                find_byte(v, 58, colon as int) == find_byte(v, 58, 0),
            decreases v.len() - colon,
        {
            colon = colon + 1;
        }
        proof {
            lemma_find_byte(v, 58, colon as int);
        }
        if colon == b.len() {
            return None;
        }
        proof {
            lemma_cut_at_ascii(v, colon as int);
            lemma_cut_after_ascii(v, colon + 1);
        }
        let prefix = crate::text::substring(name, 0, colon);
        let suffix = crate::text::substring(name, colon + 1, b.len());
        let type_key = IdentifierModel::by_separator(prefix, '.');
        let value_key = IdentifierModel::by_separator(suffix, '.');
        let ghost tns = utf8(type_key.namespace_view());
        let ghost tpath = utf8(type_key.path_view());
        let mut i: usize = 0;
        while i < self.stat_types.len()
            invariant
                0 <= i <= self.stat_types@.len(),
                first_type(self.stat_types@, tns, tpath, i as int) == first_type(self.stat_types@, tns, tpath, 0),
            decreases self.stat_types@.len() - i,
        {
            let t = &self.stat_types[i];
            if t.registry_key.equals(&type_key) {
                let r = t.get(&value_key);
                proof {
                    if r is None {
                        assert forall|j: int| 0 <= j < t.values_view().len() implies
                            !(utf8((#[trigger] t.values_view()[j]).key_view().namespace_view()) == utf8(value_key.namespace_view())
                            && utf8(t.values_view()[j].key_view().path_view()) == utf8(value_key.path_view())) by {
                            if utf8(t.values_view()[j].key_view().namespace_view()) == utf8(value_key.namespace_view())
                                && utf8(t.values_view()[j].key_view().path_view()) == utf8(value_key.path_view()) {
                                lemma_utf8_injective(t.values_view()[j].key_view().namespace_view(), value_key.namespace_view());
                                lemma_utf8_injective(t.values_view()[j].key_view().path_view(), value_key.path_view());
                            }
                        }
                    }
                }
                return r;
            }
            proof {
                if utf8(t.key_view().namespace_view()) == tns && utf8(t.key_view().path_view()) == tpath {
                    lemma_utf8_injective(t.key_view().namespace_view(), type_key.namespace_view());
                    lemma_utf8_injective(t.key_view().path_view(), type_key.path_view());
                }
            }
            i = i + 1;
        }
        None
    }

    /// The names of the custom criteria, in registration order.
    pub fn custom_criteria_names(&self) -> (r: Vec<String>)
        ensures
            r@.map_values(|s: String| s@) == self.custom_view().map_values(|c: ObjectiveCriteriaModel| c.name_view()),
    {
        let mut out: Vec<String> = Vec::new();
        let mut i: usize = 0;
        while i < self.custom_criteria.len()
            invariant
                0 <= i <= self.custom_criteria@.len(),
                out@.len() == i,
                forall|k: int| 0 <= k < i ==> (#[trigger] out@[k])@ == self.custom_criteria@[k].name_view(),
            decreases self.custom_criteria@.len() - i,
        {
            out.push(self.custom_criteria[i].name.clone());
            i = i + 1;
        }
        assert(out@.map_values(|s: String| s@) =~= self.custom_view().map_values(|c: ObjectiveCriteriaModel| c.name_view()));
        out
    }

    fn register_custom(&mut self, criteria: ObjectiveCriteriaModel)
        ensures
            final(self).custom_view() == old(self).custom_view().push(criteria),
            final(self).cache_view().dom() == old(self).cache_view().dom().insert(criteria.name_view()),
            final(self).cache_view()[criteria.name_view()].same(&criteria),
            forall|k: Seq<char>| k != criteria.name_view() ==> #[trigger] final(self).cache_view()[k] == old(self).cache_view()[k],
            final(self).types_view() == old(self).types_view(),
    {
        self.criteria_cache.insert(criteria.name.clone(), criteria.copy());
        self.custom_criteria.push(criteria);
    }
}

/// The names of a statistic type's values, in order.
pub open spec fn type_stat_names(t: StatTypeModel) -> Seq<Seq<char>> {
    t.values_view().map_values(|v: StatValueModel| stat_name(t.key_view(), v.key_view()))
}

/// The statistic names of the types, type by type, in order.
pub open spec fn stat_names(types: Seq<StatTypeModel>) -> Seq<Seq<char>>
    decreases types.len(),
{
    if types.len() == 0 {
        seq![]
    } else {
        stat_names(types.drop_last()) + type_stat_names(types.last())
    }
}

/// Every criterion name of the registry: the custom criteria, then the
/// statistics.
pub open spec fn criteria_names(registry: CriteriaRegistryModel) -> Seq<Seq<char>> {
    registry.custom_view().map_values(|c: ObjectiveCriteriaModel| c.name_view()) + stat_names(registry.types_view())
}

/// A key that a statistic name can be read back into: a namespace that is
/// not empty and holds no `.` or `:`, and a path without `:`.
pub open spec fn plain_key(k: IdentifierModel) -> bool {
    &&& k.namespace_view().len() > 0
    &&& !k.namespace_view().contains('.')
    &&& !k.namespace_view().contains(':')
    &&& !k.path_view().contains(':')
}

proof fn lemma_stat_key_plain(k: IdentifierModel)
    requires
        plain_key(k),
    ensures
        stat_key(k.display()) == k.namespace_view() + "."@ + k.path_view(),
{
    reveal_strlit(":");
    reveal_strlit(".");
    let ns = k.namespace_view();
    let p = k.path_view();
    let d = k.display();
    let e = ns + "."@ + p;
    assert(d.len() == e.len());
    assert forall|i: int| 0 <= i < d.len() implies #[trigger] stat_key(d)[i] == e[i] by {
        if i < ns.len() {
            assert(d[i] == ns[i]);
            assert(ns[i] != ':');
        } else if i == ns.len() {
            assert(d[i] == ':');
        } else {
            assert(d[i] == p[i - ns.len() - 1]);
            assert(p[i - ns.len() - 1] != ':');
        }
    }
    assert(stat_key(d) =~= e);
}

/// The bytes of a plain key's statistic form split at their first `.` into
/// the key's namespace and path, and hold no `:`.
proof fn lemma_split_plain(k: IdentifierModel)
    requires
        plain_key(k),
    ensures
        split_by(utf8(stat_key(k.display())), 46) == (utf8(k.namespace_view()), utf8(k.path_view())),
        !utf8(stat_key(k.display())).contains(58u8),
{
    reveal_strlit(".");
    lemma_stat_key_plain(k);
    let ns = k.namespace_view();
    let p = k.path_view();
    lemma_utf8_concat(ns, "."@);
    lemma_utf8_concat(ns + "."@, p);
    assert("."@ =~= seq!['.']);
    lemma_utf8_ascii_char('.');
    assert(('.' as u32) == 46u32);
    assert((':' as u32) == 58u32);
    let w = utf8(ns) + seq![46u8] + utf8(p);
    assert(utf8(stat_key(k.display())) == w);
    lemma_utf8_lacks_ascii(ns, '.');
    lemma_utf8_lacks_ascii(ns, ':');
    lemma_utf8_lacks_ascii(p, ':');
    let n = utf8(ns).len() as int;
    if n == 0 {
        assert(utf8(ns) =~= Seq::<u8>::empty());
        assert(utf8(Seq::<char>::empty()) =~= Seq::<u8>::empty());
        lemma_utf8_injective(ns, Seq::<char>::empty());
    }
    assert forall|i: int| 0 <= i < n implies #[trigger] w[i] != 46u8 by {
        assert(w[i] == utf8(ns)[i]);
    }
    lemma_find_byte_at(w, 46u8, n);
    assert(w.subrange(0, n) =~= utf8(ns));
    assert(w.subrange(n + 1, w.len() as int) =~= utf8(p));
    if w.contains(58u8) {
        let i = choose|i: int| 0 <= i < w.len() && w[i] == 58u8;
        if i < n {
            assert(utf8(ns)[i] == 58u8);
        } else if i > n {
            assert(utf8(p)[i - n - 1] == 58u8);
        }
    }
}

proof fn lemma_first_type_at(types: Seq<StatTypeModel>, ns: Seq<u8>, path: Seq<u8>, from: int, i: int)
    requires
        0 <= from <= i < types.len(),
        utf8(types[i].key_view().namespace_view()) == ns && utf8(types[i].key_view().path_view()) == path,
        forall|k: int| from <= k < i ==> !(utf8((#[trigger] types[k]).key_view().namespace_view()) == ns
            && utf8(types[k].key_view().path_view()) == path),
    ensures
        first_type(types, ns, path, from) == i,
    decreases i - from,
{
    if from < i {
        lemma_first_type_at(types, ns, path, from + 1, i);
    }
}

/// The name that `build_name` writes for a statistic looks that statistic up
/// again: for the first type with its key and one of its values, where both
/// keys are plain and no custom criterion has that name, the lookup gives a
/// criterion of that name, not read-only and shown as an integer.
pub proof fn lemma_by_name_finds_built_stat(registry: CriteriaRegistryModel, i: int, j: int)
    requires
        0 <= i < registry.types_view().len(),
        0 <= j < registry.types_view()[i].values_view().len(),
        plain_key(registry.types_view()[i].key_view()),
        plain_key(registry.types_view()[i].values_view()[j].key_view()),
        forall|k: int| 0 <= k < i ==> !(#[trigger] registry.types_view()[k]).key_view().same(&registry.types_view()[i].key_view()),
        !registry.cache_view().contains_key(
            stat_name(registry.types_view()[i].key_view(), registry.types_view()[i].values_view()[j].key_view()),
        ),
    ensures
        forall|r: Option<ObjectiveCriteriaModel>| #[trigger] criteria_found(registry,
            stat_name(registry.types_view()[i].key_view(), registry.types_view()[i].values_view()[j].key_view()), r)
            ==> (r matches Some(c) && c.name_view() == stat_name(registry.types_view()[i].key_view(),
                registry.types_view()[i].values_view()[j].key_view()) && !c.read_only_view()
                && c.render_view() == RenderTypeModel::Integer),
{
    reveal_strlit(":");
    let types = registry.types_view();
    let t = types[i];
    let tk = t.key_view();
    let vk = t.values_view()[j].key_view();
    let name = stat_name(tk, vk);
    lemma_split_plain(tk);
    lemma_split_plain(vk);
    let a = utf8(stat_key(tk.display()));
    let b = utf8(stat_key(vk.display()));
    lemma_utf8_concat(stat_key(tk.display()), ":"@);
    lemma_utf8_concat(stat_key(tk.display()) + ":"@, stat_key(vk.display()));
    assert(":"@ =~= seq![':']);
    lemma_utf8_ascii_char(':');
    assert((':' as u32) == 58u32);
    let v = utf8(name);
    assert(v =~= a + seq![58u8] + b);
    assert forall|x: int| 0 <= x < a.len() implies #[trigger] v[x] != 58u8 by {
        assert(v[x] == a[x]);
    }
    lemma_find_byte_at(v, 58u8, a.len() as int);
    assert(v.subrange(0, a.len() as int) =~= a);
    assert(v.subrange(a.len() as int + 1, v.len() as int) =~= b);
    let tns = utf8(tk.namespace_view());
    let tpath = utf8(tk.path_view());
    assert forall|k: int| 0 <= k < i implies !(utf8((#[trigger] types[k]).key_view().namespace_view()) == tns
        && utf8(types[k].key_view().path_view()) == tpath) by {
        if utf8(types[k].key_view().namespace_view()) == tns && utf8(types[k].key_view().path_view()) == tpath {
            lemma_utf8_injective(types[k].key_view().namespace_view(), tk.namespace_view());
            lemma_utf8_injective(types[k].key_view().path_view(), tk.path_view());
        }
    }
    lemma_first_type_at(types, tns, tpath, 0, i);
    let vns = utf8(vk.namespace_view());
    let vpath = utf8(vk.path_view());
    let colon = find_byte(v, 58, 0);
    assert(colon == a.len() && colon < v.len());
    assert(split_by(v.subrange(0, colon), 46) == (tns, tpath));
    assert(split_by(v.subrange(colon + 1, v.len() as int), 46) == (vns, vpath));
    assert(first_type(registry.types_view(), tns, tpath, 0) == i);
    assert forall|r: Option<ObjectiveCriteriaModel>| #[trigger] criteria_found(registry, name, r) implies
        (r matches Some(c) && c.name_view() == name && !c.read_only_view() && c.render_view() == RenderTypeModel::Integer) by {
        match r {
            Some(c) => {
                let j2 = choose|j2: int| 0 <= j2 < t.values_view().len()
                    && utf8((#[trigger] t.values_view()[j2]).key_view().namespace_view()) == vns
                    && utf8(t.values_view()[j2].key_view().path_view()) == vpath
                    && c.name_view() == stat_name(t.key_view(), t.values_view()[j2].key_view())
                    && !c.read_only_view() && c.render_view() == RenderTypeModel::Integer;
                let k2 = t.values_view()[j2].key_view();
                lemma_utf8_injective(k2.namespace_view(), vk.namespace_view());
                lemma_utf8_injective(k2.path_view(), vk.path_view());
            },
            None => {
                assert(utf8(t.values_view()[j].key_view().namespace_view()) == vns);
            },
        }
    }
}

/// On the built-in registry with statistic types added, the name that
/// `build_name` writes for a statistic looks that statistic up: for the
/// first type with its key and one of its values, where both keys are
/// plain, the lookup gives a criterion of that name, not read-only and
/// shown as an integer.
pub proof fn lemma_java_registry_finds_built_stat(registry: CriteriaRegistryModel, i: int, j: int)
    requires
        holds_java_custom(registry),
        0 <= i < registry.types_view().len(),
        0 <= j < registry.types_view()[i].values_view().len(),
        plain_key(registry.types_view()[i].key_view()),
        plain_key(registry.types_view()[i].values_view()[j].key_view()),
        forall|k: int| 0 <= k < i ==> !(#[trigger] registry.types_view()[k]).key_view().same(&registry.types_view()[i].key_view()),
    ensures
        forall|r: Option<ObjectiveCriteriaModel>| #[trigger] criteria_found(registry,
            stat_name(registry.types_view()[i].key_view(), registry.types_view()[i].values_view()[j].key_view()), r)
            ==> (r matches Some(c) && c.name_view() == stat_name(registry.types_view()[i].key_view(),
                registry.types_view()[i].values_view()[j].key_view()) && !c.read_only_view()
                && c.render_view() == RenderTypeModel::Integer),
{
    reveal_strlit(":");
    let tk = registry.types_view()[i].key_view();
    let vk = registry.types_view()[i].values_view()[j].key_view();
    let name = stat_name(tk, vk);
    let front = stat_key(tk.display());
    assert(name[front.len() as int] == ':');
    lemma_table_colon_free();
    if registry.cache_view().contains_key(name) {
        let cs = registry.custom_view();
        let m = choose|m: int| 0 <= m < cs.len() && (#[trigger] cs[m]).name_view() == name;
        assert(criteria_entries(cs)[m] == java_criteria_table()[m]);
        assert(colon_free(java_criteria_table()[m].0));
    }
    lemma_by_name_finds_built_stat(registry, i, j);
}

impl ObjectiveCriteriaArgumentModel {
    pub closed spec fn registry_view(&self) -> &CriteriaRegistryModel {
        &self.registry
    }

    /// The argument over the built-in criteria registry.
    pub fn criteria() -> (r: Self)
        ensures
            java_registry(*r.registry_view()),
    {
        ObjectiveCriteriaArgumentModel { registry: CriteriaRegistryModel::java_subset() }
    }

    pub fn with_registry(registry: CriteriaRegistryModel) -> (r: Self)
        ensures
            *r.registry_view() == registry,
    {
        ObjectiveCriteriaArgumentModel { registry }
    }

    /// Reads up to the next space and looks the token up; on failure the
    /// cursor goes back to where the token started.
    pub fn parse(&self, reader: &mut StringReaderModel) -> (r: Result<ObjectiveCriteriaModel, ObjectiveCriteriaParseError>)
        requires
            old(reader).at_cut(),
        ensures
            final(reader).text() == old(reader).text(),
            ({
                let end = space_end(old(reader).bytes(), old(reader).pos());
                let tok = old(reader).bytes().subrange(old(reader).pos(), end);
                match r {
                    Ok(c) => criteria_found(*self.registry_view(), decode_utf8(tok), Some(c)) && final(reader).pos() == end,
                    Err(ObjectiveCriteriaParseError::InvalidValue { value }) => utf8(value@) == tok
                        && criteria_found(*self.registry_view(), decode_utf8(tok), None)
                        && final(reader).pos() == old(reader).pos(),
                }
            }),
    {
        let start = reader.cursor();
        reader.skip_to_space();
        let end = reader.cursor();
        let id = reader.slice_string(start, end);
        match self.registry.by_name(id.as_str()) {
            Some(c) => Ok(c),
            None => {
                reader.set_cursor(start);
                Err(ObjectiveCriteriaParseError::InvalidValue { value: id })
            },
        }
    }

    /// Suggests the custom criteria names, then every statistic name, that
    /// match the remaining text.
    pub fn list_suggestions(&self, builder: &mut SuggestionsBuilderModel) -> (r: Vec<SuggestionModel>)
        ensures
            final(builder).remaining_view() == old(builder).remaining_view(),
            final(builder).values() == old(builder).values()
                + offered(criteria_names(*self.registry_view()), old(builder).remaining_view()),
            r@.map_values(|s: SuggestionModel| s.value@) == final(builder).values(),
    {
        let mut ids = self.registry.custom_criteria_names();
        let ghost custom = self.registry.custom_view().map_values(|c: ObjectiveCriteriaModel| c.name_view());
        let ghost types = self.registry.types_view();
        proof {
            assert(types.subrange(0, 0) =~= Seq::<StatTypeModel>::empty());
            assert(custom + stat_names(types.subrange(0, 0)) =~= custom);
        }
        let mut t: usize = 0;
        while t < self.registry.stat_types.len()
            invariant
                0 <= t <= types.len(),
                types == self.registry.types_view(),
                ids@.map_values(|s: String| s@) == custom + stat_names(types.subrange(0, t as int)),
            decreases types.len() - t,
        {
            let st = &self.registry.stat_types[t];
            let ghost done = custom + stat_names(types.subrange(0, t as int));
            let ghost names = type_stat_names(*st);
            proof {
                assert(done + names.subrange(0, 0) =~= done);
            }
            let mut j: usize = 0;
            while j < st.values.len()
                invariant
                    0 <= j <= st.values_view().len(),
                    names == type_stat_names(*st),
                    names.len() == st.values_view().len(),
                    ids@.map_values(|s: String| s@) == done + names.subrange(0, j as int),
                decreases st.values_view().len() - j,
            {
                let ghost before = ids@;
                ids.push(Self::get_name(st, &st.values[j]));
                proof {
                    assert(ids@.map_values(|s: String| s@) =~= before.map_values(|s: String| s@).push(names[j as int]));
                    assert(names.subrange(0, j + 1) =~= names.subrange(0, j as int).push(names[j as int]));
                    assert(done + names.subrange(0, j + 1) =~= (done + names.subrange(0, j as int)).push(names[j as int]));
                }
                j = j + 1;
            }
            proof {
                assert(names.subrange(0, j as int) =~= names);
                assert(types.subrange(0, t + 1).drop_last() =~= types.subrange(0, t as int));
                assert(types.subrange(0, t + 1).last() == *st);
                assert(custom + stat_names(types.subrange(0, t + 1)) =~= done + names);
            }
            t = t + 1;
        }
        proof {
            assert(types.subrange(0, t as int) =~= types);
        }
        suggest(ids, builder);
        builder.build()
    }

    pub fn get_name(stat_type: &StatTypeModel, value: &StatValueModel) -> (r: String)
        ensures
            r@ == stat_name(stat_type.key_view(), value.key_view()),
    {
        StatModel::build_name(stat_type, value)
    }

    pub fn examples(&self) -> (r: [&'static str; 3])
        ensures
            r@[0]@ == "foo"@,
            r@[1]@ == "foo.bar.baz"@,
            r@[2]@ == "minecraft:foo"@,
    {
        ["foo", "foo.bar.baz", "minecraft:foo"]
    }
}

impl CommandContextModel {
    pub closed spec fn view(&self) -> Map<Seq<char>, ObjectiveCriteriaModel> {
        self.arguments.view()
    }

    pub fn with_criteria(self, name: &str, value: ObjectiveCriteriaModel) -> (r: Self)
        ensures
            r.view() == self.view().insert(name@, value),
    {
        let mut arguments = self.arguments;
        arguments.insert(name.to_owned(), value);
        CommandContextModel { arguments }
    }
}

impl Default for CommandContextModel {
    fn default() -> (r: Self)
        ensures
            r.view() == Map::<Seq<char>, ObjectiveCriteriaModel>::empty(),
    {
        CommandContextModel { arguments: ArgMap::new() }
    }
}

/// The criterion bound to `name`, if any.
pub fn get_criteria(context: &CommandContextModel, name: &str) -> (r: Option<ObjectiveCriteriaModel>)
    ensures
        r matches Some(v) ==> context.view().contains_key(name@) && v.same(&context.view()[name@]),
        r is None ==> !context.view().contains_key(name@),
{
    match context.arguments.get(name) {
        Some(v) => Some(v.copy()),
        None => None,
    }
}

} // verus!
