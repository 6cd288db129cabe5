//! The `scoreboard_slot` argument: a display slot of the scoreboard, named
//! by its serialized name.

use vstd::prelude::*;
use crate::text::{utf8, str_eq, lemma_utf8_injective};
use crate::string_reader::{unquoted_end};
use crate::arg_map::ArgMap;
use crate::command_shared_suggestion_provider::{suggest, SuggestionModel, SuggestionsBuilderModel, offered};
pub use crate::string_reader::StringReaderModel;

verus! {

broadcast use vstd::utf8::encode_utf8_decode_utf8;

#[derive(Debug, Clone, PartialEq, Eq)]
pub struct ScoreboardSlotArgumentModel;

#[derive(Debug, Clone, PartialEq, Eq)]
pub enum ScoreboardSlotParseError {
    InvalidValue { value: String },
}

pub struct CommandContextModel {
    arguments: ArgMap<DisplaySlotModel>,
}

#[derive(Debug, Clone, Copy, PartialEq, Eq, Structural)]
pub enum DisplaySlotModel {
    List,
    Sidebar,
    BelowName,
    TeamBlack,
    TeamDarkBlue,
    TeamDarkGreen,
    TeamDarkAqua,
    TeamDarkRed,
    TeamDarkPurple,
    TeamGold,
    TeamGray,
    TeamDarkGray,
    TeamBlue,
    TeamGreen,
    TeamAqua,
    TeamRed,
    TeamLightPurple,
    TeamYellow,
    TeamWhite,
}

#[derive(Debug, Clone, Copy, PartialEq, Eq, Structural)]
pub enum ChatFormattingModel {
    Black,
    DarkBlue,
    DarkGreen,
    DarkAqua,
    DarkRed,
    DarkPurple,
    Gold,
    Gray,
    DarkGray,
    Blue,
    Green,
    Aqua,
    Red,
    LightPurple,
    Yellow,
    White,
    Obfuscated,
    Bold,
    Strikethrough,
    Underline,
    Italic,
    Reset,
}

impl DisplaySlotModel {
    pub const VALUES: [DisplaySlotModel; 19] = [
        DisplaySlotModel::List,
        DisplaySlotModel::Sidebar,
        DisplaySlotModel::BelowName,
        DisplaySlotModel::TeamBlack,
        DisplaySlotModel::TeamDarkBlue,
        DisplaySlotModel::TeamDarkGreen,
        DisplaySlotModel::TeamDarkAqua,
        DisplaySlotModel::TeamDarkRed,
        DisplaySlotModel::TeamDarkPurple,
        DisplaySlotModel::TeamGold,
        DisplaySlotModel::TeamGray,
        DisplaySlotModel::TeamDarkGray,
        DisplaySlotModel::TeamBlue,
        DisplaySlotModel::TeamGreen,
        DisplaySlotModel::TeamAqua,
        DisplaySlotModel::TeamRed,
        DisplaySlotModel::TeamLightPurple,
        DisplaySlotModel::TeamYellow,
        DisplaySlotModel::TeamWhite,
    ];

    pub open spec fn id_spec(self) -> i32 {
        match self {
            DisplaySlotModel::List => 0,
            DisplaySlotModel::Sidebar => 1,
            DisplaySlotModel::BelowName => 2,
            DisplaySlotModel::TeamBlack => 3,
            DisplaySlotModel::TeamDarkBlue => 4,
            DisplaySlotModel::TeamDarkGreen => 5,
            DisplaySlotModel::TeamDarkAqua => 6,
            DisplaySlotModel::TeamDarkRed => 7,
            DisplaySlotModel::TeamDarkPurple => 8,
            DisplaySlotModel::TeamGold => 9,
            DisplaySlotModel::TeamGray => 10,
            DisplaySlotModel::TeamDarkGray => 11,
            DisplaySlotModel::TeamBlue => 12,
            DisplaySlotModel::TeamGreen => 13,
            DisplaySlotModel::TeamAqua => 14,
            DisplaySlotModel::TeamRed => 15,
            DisplaySlotModel::TeamLightPurple => 16,
            DisplaySlotModel::TeamYellow => 17,
            DisplaySlotModel::TeamWhite => 18,
        }
    }

    pub open spec fn name_spec(self) -> Seq<char> {
        match self {
            DisplaySlotModel::List => "list"@,
            DisplaySlotModel::Sidebar => "sidebar"@,
            DisplaySlotModel::BelowName => "below_name"@,
            DisplaySlotModel::TeamBlack => "sidebar.team.black"@,
            DisplaySlotModel::TeamDarkBlue => "sidebar.team.dark_blue"@,
            DisplaySlotModel::TeamDarkGreen => "sidebar.team.dark_green"@,
            DisplaySlotModel::TeamDarkAqua => "sidebar.team.dark_aqua"@,
            DisplaySlotModel::TeamDarkRed => "sidebar.team.dark_red"@,
            DisplaySlotModel::TeamDarkPurple => "sidebar.team.dark_purple"@,
            DisplaySlotModel::TeamGold => "sidebar.team.gold"@,
            DisplaySlotModel::TeamGray => "sidebar.team.gray"@,
            DisplaySlotModel::TeamDarkGray => "sidebar.team.dark_gray"@,
            DisplaySlotModel::TeamBlue => "sidebar.team.blue"@,
            DisplaySlotModel::TeamGreen => "sidebar.team.green"@,
            DisplaySlotModel::TeamAqua => "sidebar.team.aqua"@,
            DisplaySlotModel::TeamRed => "sidebar.team.red"@,
            DisplaySlotModel::TeamLightPurple => "sidebar.team.light_purple"@,
            DisplaySlotModel::TeamYellow => "sidebar.team.yellow"@,
            DisplaySlotModel::TeamWhite => "sidebar.team.white"@,
        }
    }

    pub fn id(self) -> (r: i32)
        ensures
            r == self.id_spec(),
    {
        match self {
            DisplaySlotModel::List => 0,
            DisplaySlotModel::Sidebar => 1,
            DisplaySlotModel::BelowName => 2,
            DisplaySlotModel::TeamBlack => 3,
            DisplaySlotModel::TeamDarkBlue => 4,
            DisplaySlotModel::TeamDarkGreen => 5,
            DisplaySlotModel::TeamDarkAqua => 6,
            DisplaySlotModel::TeamDarkRed => 7,
            DisplaySlotModel::TeamDarkPurple => 8,
            DisplaySlotModel::TeamGold => 9,
            DisplaySlotModel::TeamGray => 10,
            DisplaySlotModel::TeamDarkGray => 11,
            DisplaySlotModel::TeamBlue => 12,
            DisplaySlotModel::TeamGreen => 13,
            DisplaySlotModel::TeamAqua => 14,
            DisplaySlotModel::TeamRed => 15,
            DisplaySlotModel::TeamLightPurple => 16,
            DisplaySlotModel::TeamYellow => 17,
            DisplaySlotModel::TeamWhite => 18,
        }
    }

    pub fn serialized_name(self) -> (r: &'static str)
        ensures
            r@ == self.name_spec(),
    {
        match self {
            DisplaySlotModel::List => "list",
            DisplaySlotModel::Sidebar => "sidebar",
            DisplaySlotModel::BelowName => "below_name",
            DisplaySlotModel::TeamBlack => "sidebar.team.black",
            DisplaySlotModel::TeamDarkBlue => "sidebar.team.dark_blue",
            DisplaySlotModel::TeamDarkGreen => "sidebar.team.dark_green",
            DisplaySlotModel::TeamDarkAqua => "sidebar.team.dark_aqua",
            DisplaySlotModel::TeamDarkRed => "sidebar.team.dark_red",
            DisplaySlotModel::TeamDarkPurple => "sidebar.team.dark_purple",
            DisplaySlotModel::TeamGold => "sidebar.team.gold",
            DisplaySlotModel::TeamGray => "sidebar.team.gray",
            DisplaySlotModel::TeamDarkGray => "sidebar.team.dark_gray",
            DisplaySlotModel::TeamBlue => "sidebar.team.blue",
            DisplaySlotModel::TeamGreen => "sidebar.team.green",
            DisplaySlotModel::TeamAqua => "sidebar.team.aqua",
            DisplaySlotModel::TeamRed => "sidebar.team.red",
            DisplaySlotModel::TeamLightPurple => "sidebar.team.light_purple",
            DisplaySlotModel::TeamYellow => "sidebar.team.yellow",
            DisplaySlotModel::TeamWhite => "sidebar.team.white",
        }
    }

    /// The slot whose serialized name is exactly `value`.
    pub fn by_name(value: &str) -> (r: Option<DisplaySlotModel>)
        ensures
            r matches Some(v) ==> v.name_spec() == value@,
            r is None ==> forall|v: DisplaySlotModel| #[trigger] v.name_spec() != value@,
    {
        if str_eq(value, "list") {
            return Some(DisplaySlotModel::List);
        }
        if str_eq(value, "sidebar") {
            return Some(DisplaySlotModel::Sidebar);
        }
        if str_eq(value, "below_name") {
            return Some(DisplaySlotModel::BelowName);
        }
        if str_eq(value, "sidebar.team.black") {
            return Some(DisplaySlotModel::TeamBlack);
        }
        if str_eq(value, "sidebar.team.dark_blue") {
            return Some(DisplaySlotModel::TeamDarkBlue);
        }
        if str_eq(value, "sidebar.team.dark_green") {
            return Some(DisplaySlotModel::TeamDarkGreen);
        }
        if str_eq(value, "sidebar.team.dark_aqua") {
            return Some(DisplaySlotModel::TeamDarkAqua);
        }
        if str_eq(value, "sidebar.team.dark_red") {
            return Some(DisplaySlotModel::TeamDarkRed);
        }
        if str_eq(value, "sidebar.team.dark_purple") {
            return Some(DisplaySlotModel::TeamDarkPurple);
        }
        if str_eq(value, "sidebar.team.gold") {
            return Some(DisplaySlotModel::TeamGold);
        }
        if str_eq(value, "sidebar.team.gray") {
            return Some(DisplaySlotModel::TeamGray);
        }
        if str_eq(value, "sidebar.team.dark_gray") {
            return Some(DisplaySlotModel::TeamDarkGray);
        }
        if str_eq(value, "sidebar.team.blue") {
            return Some(DisplaySlotModel::TeamBlue);
        }
        if str_eq(value, "sidebar.team.green") {
            return Some(DisplaySlotModel::TeamGreen);
        }
        if str_eq(value, "sidebar.team.aqua") {
            return Some(DisplaySlotModel::TeamAqua);
        }
        if str_eq(value, "sidebar.team.red") {
            return Some(DisplaySlotModel::TeamRed);
        }
        if str_eq(value, "sidebar.team.light_purple") {
            return Some(DisplaySlotModel::TeamLightPurple);
        }
        if str_eq(value, "sidebar.team.yellow") {
            return Some(DisplaySlotModel::TeamYellow);
        }
        if str_eq(value, "sidebar.team.white") {
            return Some(DisplaySlotModel::TeamWhite);
        }
        proof {
            assert forall|v: DisplaySlotModel| #[trigger] v.name_spec() != value@ by {
                match v {
                    DisplaySlotModel::List => {},
                    DisplaySlotModel::Sidebar => {},
                    DisplaySlotModel::BelowName => {},
                    DisplaySlotModel::TeamBlack => {},
                    DisplaySlotModel::TeamDarkBlue => {},
                    DisplaySlotModel::TeamDarkGreen => {},
                    DisplaySlotModel::TeamDarkAqua => {},
                    DisplaySlotModel::TeamDarkRed => {},
                    DisplaySlotModel::TeamDarkPurple => {},
                    DisplaySlotModel::TeamGold => {},
                    DisplaySlotModel::TeamGray => {},
                    DisplaySlotModel::TeamDarkGray => {},
                    DisplaySlotModel::TeamBlue => {},
                    DisplaySlotModel::TeamGreen => {},
                    DisplaySlotModel::TeamAqua => {},
                    DisplaySlotModel::TeamRed => {},
                    DisplaySlotModel::TeamLightPurple => {},
                    DisplaySlotModel::TeamYellow => {},
                    DisplaySlotModel::TeamWhite => {},
                }
            }
        }
        None
    }

    /// The slot with this id; ids out of range give `List`.
    pub fn by_id(id: i32) -> (r: DisplaySlotModel)
        ensures
            (exists|v: DisplaySlotModel| v.id_spec() == id) ==> r.id_spec() == id,
            (forall|v: DisplaySlotModel| #[trigger] v.id_spec() != id) ==> r == DisplaySlotModel::List,
    {
        if id == 0 {
            assert(DisplaySlotModel::List.id_spec() == id);
            return DisplaySlotModel::List;
        }
        if id == 1 {
            assert(DisplaySlotModel::Sidebar.id_spec() == id);
            return DisplaySlotModel::Sidebar;
        }
        if id == 2 {
            assert(DisplaySlotModel::BelowName.id_spec() == id);
            return DisplaySlotModel::BelowName;
        }
        if id == 3 {
            assert(DisplaySlotModel::TeamBlack.id_spec() == id);
            return DisplaySlotModel::TeamBlack;
        }
        if id == 4 {
            assert(DisplaySlotModel::TeamDarkBlue.id_spec() == id);
            return DisplaySlotModel::TeamDarkBlue;
        }
        if id == 5 {
            assert(DisplaySlotModel::TeamDarkGreen.id_spec() == id);
            return DisplaySlotModel::TeamDarkGreen;
        }
        if id == 6 {
            assert(DisplaySlotModel::TeamDarkAqua.id_spec() == id);
            return DisplaySlotModel::TeamDarkAqua;
        }
        if id == 7 {
            assert(DisplaySlotModel::TeamDarkRed.id_spec() == id);
            return DisplaySlotModel::TeamDarkRed;
        }
        if id == 8 {
            assert(DisplaySlotModel::TeamDarkPurple.id_spec() == id);
            return DisplaySlotModel::TeamDarkPurple;
        }
        if id == 9 {
            assert(DisplaySlotModel::TeamGold.id_spec() == id);
            return DisplaySlotModel::TeamGold;
        }
        if id == 10 {
            assert(DisplaySlotModel::TeamGray.id_spec() == id);
            return DisplaySlotModel::TeamGray;
        }
        if id == 11 {
            assert(DisplaySlotModel::TeamDarkGray.id_spec() == id);
            return DisplaySlotModel::TeamDarkGray;
        }
        if id == 12 {
            assert(DisplaySlotModel::TeamBlue.id_spec() == id);
            return DisplaySlotModel::TeamBlue;
        }
        if id == 13 {
            assert(DisplaySlotModel::TeamGreen.id_spec() == id);
            return DisplaySlotModel::TeamGreen;
        }
        if id == 14 {
            assert(DisplaySlotModel::TeamAqua.id_spec() == id);
            return DisplaySlotModel::TeamAqua;
        }
        if id == 15 {
            assert(DisplaySlotModel::TeamRed.id_spec() == id);
            return DisplaySlotModel::TeamRed;
        }
        if id == 16 {
            assert(DisplaySlotModel::TeamLightPurple.id_spec() == id);
            return DisplaySlotModel::TeamLightPurple;
        }
        if id == 17 {
            assert(DisplaySlotModel::TeamYellow.id_spec() == id);
            return DisplaySlotModel::TeamYellow;
        }
        if id == 18 {
            assert(DisplaySlotModel::TeamWhite.id_spec() == id);
            return DisplaySlotModel::TeamWhite;
        }
        proof {
            assert forall|v: DisplaySlotModel| #[trigger] v.id_spec() != id by {
                match v {
                    DisplaySlotModel::List => {},
                    DisplaySlotModel::Sidebar => {},
                    DisplaySlotModel::BelowName => {},
                    DisplaySlotModel::TeamBlack => {},
                    DisplaySlotModel::TeamDarkBlue => {},
                    DisplaySlotModel::TeamDarkGreen => {},
                    DisplaySlotModel::TeamDarkAqua => {},
                    DisplaySlotModel::TeamDarkRed => {},
                    DisplaySlotModel::TeamDarkPurple => {},
                    DisplaySlotModel::TeamGold => {},
                    DisplaySlotModel::TeamGray => {},
                    DisplaySlotModel::TeamDarkGray => {},
                    DisplaySlotModel::TeamBlue => {},
                    DisplaySlotModel::TeamGreen => {},
                    DisplaySlotModel::TeamAqua => {},
                    DisplaySlotModel::TeamRed => {},
                    DisplaySlotModel::TeamLightPurple => {},
                    DisplaySlotModel::TeamYellow => {},
                    DisplaySlotModel::TeamWhite => {},
                }
            }
        }
        DisplaySlotModel::List
    }

    pub open spec fn team_slot_spec(color: ChatFormattingModel) -> Option<DisplaySlotModel> {
        match color {
            ChatFormattingModel::Black => Some(DisplaySlotModel::TeamBlack),
            ChatFormattingModel::DarkBlue => Some(DisplaySlotModel::TeamDarkBlue),
            ChatFormattingModel::DarkGreen => Some(DisplaySlotModel::TeamDarkGreen),
            ChatFormattingModel::DarkAqua => Some(DisplaySlotModel::TeamDarkAqua),
            ChatFormattingModel::DarkRed => Some(DisplaySlotModel::TeamDarkRed),
            ChatFormattingModel::DarkPurple => Some(DisplaySlotModel::TeamDarkPurple),
            ChatFormattingModel::Gold => Some(DisplaySlotModel::TeamGold),
            ChatFormattingModel::Gray => Some(DisplaySlotModel::TeamGray),
            ChatFormattingModel::DarkGray => Some(DisplaySlotModel::TeamDarkGray),
            ChatFormattingModel::Blue => Some(DisplaySlotModel::TeamBlue),
            ChatFormattingModel::Green => Some(DisplaySlotModel::TeamGreen),
            ChatFormattingModel::Aqua => Some(DisplaySlotModel::TeamAqua),
            ChatFormattingModel::Red => Some(DisplaySlotModel::TeamRed),
            ChatFormattingModel::LightPurple => Some(DisplaySlotModel::TeamLightPurple),
            ChatFormattingModel::Yellow => Some(DisplaySlotModel::TeamYellow),
            ChatFormattingModel::White => Some(DisplaySlotModel::TeamWhite),
            ChatFormattingModel::Obfuscated => None,
            ChatFormattingModel::Bold => None,
            ChatFormattingModel::Strikethrough => None,
            ChatFormattingModel::Underline => None,
            ChatFormattingModel::Italic => None,
            ChatFormattingModel::Reset => None,
        }
    }

    /// The sidebar slot of a team color; formatting codes have none.
    pub fn team_color_to_slot(color: ChatFormattingModel) -> (r: Option<DisplaySlotModel>)
        ensures
            r == Self::team_slot_spec(color),
    {
        match color {
            ChatFormattingModel::Black => Some(DisplaySlotModel::TeamBlack),
            ChatFormattingModel::DarkBlue => Some(DisplaySlotModel::TeamDarkBlue),
            ChatFormattingModel::DarkGreen => Some(DisplaySlotModel::TeamDarkGreen),
            ChatFormattingModel::DarkAqua => Some(DisplaySlotModel::TeamDarkAqua),
            ChatFormattingModel::DarkRed => Some(DisplaySlotModel::TeamDarkRed),
            ChatFormattingModel::DarkPurple => Some(DisplaySlotModel::TeamDarkPurple),
            ChatFormattingModel::Gold => Some(DisplaySlotModel::TeamGold),
            ChatFormattingModel::Gray => Some(DisplaySlotModel::TeamGray),
            ChatFormattingModel::DarkGray => Some(DisplaySlotModel::TeamDarkGray),
            ChatFormattingModel::Blue => Some(DisplaySlotModel::TeamBlue),
            ChatFormattingModel::Green => Some(DisplaySlotModel::TeamGreen),
            ChatFormattingModel::Aqua => Some(DisplaySlotModel::TeamAqua),
            ChatFormattingModel::Red => Some(DisplaySlotModel::TeamRed),
            ChatFormattingModel::LightPurple => Some(DisplaySlotModel::TeamLightPurple),
            ChatFormattingModel::Yellow => Some(DisplaySlotModel::TeamYellow),
            ChatFormattingModel::White => Some(DisplaySlotModel::TeamWhite),
            ChatFormattingModel::Obfuscated => None,
            ChatFormattingModel::Bold => None,
            ChatFormattingModel::Strikethrough => None,
            ChatFormattingModel::Underline => None,
            ChatFormattingModel::Italic => None,
            ChatFormattingModel::Reset => None,
        }
    }
}

/// The serialized names of all slots, in order.
pub open spec fn slot_names() -> Seq<Seq<char>> {
    seq!["list"@, "sidebar"@, "below_name"@, "sidebar.team.black"@, "sidebar.team.dark_blue"@, "sidebar.team.dark_green"@, "sidebar.team.dark_aqua"@, "sidebar.team.dark_red"@, "sidebar.team.dark_purple"@, "sidebar.team.gold"@, "sidebar.team.gray"@, "sidebar.team.dark_gray"@, "sidebar.team.blue"@, "sidebar.team.green"@, "sidebar.team.aqua"@, "sidebar.team.red"@, "sidebar.team.light_purple"@, "sidebar.team.yellow"@, "sidebar.team.white"@]
}

impl ScoreboardSlotArgumentModel {
    pub fn display_slot() -> (r: Self) {
        ScoreboardSlotArgumentModel
    }

    /// Reads a token up to whitespace; it must be a slot's serialized name.
    /// The cursor stays after the token even when the token is rejected.
    pub fn parse(&self, reader: &mut StringReaderModel) -> (r: Result<DisplaySlotModel, ScoreboardSlotParseError>)
        requires
            old(reader).at_cut(),
        ensures
            final(reader).text() == old(reader).text(),
            final(reader).pos() == unquoted_end(old(reader).bytes(), old(reader).pos()),
            final(reader).at_cut(),
            ({
                let tok = old(reader).bytes().subrange(old(reader).pos(), final(reader).pos());
                match r {
                    Ok(s) => utf8(s.name_spec()) == tok,
                    Err(ScoreboardSlotParseError::InvalidValue { value }) => utf8(value@) == tok
                        && forall|s: DisplaySlotModel| #[trigger] utf8(s.name_spec()) != tok,
                }
            }),
    {
        let name = reader.read_unquoted_string();
        match DisplaySlotModel::by_name(name.as_str()) {
            Some(s) => Ok(s),
            None => {
                proof {
                    assert forall|s: DisplaySlotModel| #[trigger] utf8(s.name_spec()) != utf8(name@) by {
                        if utf8(s.name_spec()) == utf8(name@) {
                            lemma_utf8_injective(s.name_spec(), name@);
                        }
                    }
                }
                Err(ScoreboardSlotParseError::InvalidValue { value: name })
            },
        }
    }

    /// Suggests the serialized names of all slots that match the builder's remaining text.
    pub fn list_suggestions(&self, builder: &mut SuggestionsBuilderModel) -> (r: Vec<SuggestionModel>)
        ensures
            final(builder).values() == old(builder).values() + offered(slot_names(), old(builder).remaining_view()),
            r@.map_values(|s: SuggestionModel| s.value@) == final(builder).values(),
    {
        let mut values: Vec<String> = Vec::new();
        values.push("list".to_owned());
        values.push("sidebar".to_owned());
        values.push("below_name".to_owned());
        values.push("sidebar.team.black".to_owned());
        values.push("sidebar.team.dark_blue".to_owned());
        values.push("sidebar.team.dark_green".to_owned());
        values.push("sidebar.team.dark_aqua".to_owned());
        values.push("sidebar.team.dark_red".to_owned());
        values.push("sidebar.team.dark_purple".to_owned());
        values.push("sidebar.team.gold".to_owned());
        values.push("sidebar.team.gray".to_owned());
        values.push("sidebar.team.dark_gray".to_owned());
        values.push("sidebar.team.blue".to_owned());
        values.push("sidebar.team.green".to_owned());
        values.push("sidebar.team.aqua".to_owned());
        values.push("sidebar.team.red".to_owned());
        values.push("sidebar.team.light_purple".to_owned());
        values.push("sidebar.team.yellow".to_owned());
        values.push("sidebar.team.white".to_owned());
        assert(values@.map_values(|v: String| v@) =~= slot_names());
        suggest(values, builder);
        builder.build()
    }

    pub fn examples(&self) -> (r: [&'static str; 2])
        ensures
            r@[0]@ == "sidebar"@,
            r@[1]@ == "foo.bar"@,
    {
        ["sidebar", "foo.bar"]
    }
}

impl CommandContextModel {
    pub closed spec fn view(&self) -> Map<Seq<char>, DisplaySlotModel> {
        self.arguments.view()
    }

    pub fn with_display_slot(self, name: &str, value: DisplaySlotModel) -> (r: Self)
        ensures
            r.view() == self.view().insert(name@, value),
    {
        let mut arguments = self.arguments;
        arguments.insert(name.to_owned(), value);
        CommandContextModel { arguments }
    }
}

impl Default for CommandContextModel {
    fn default() -> (r: Self)
        ensures
            r.view() == Map::<Seq<char>, DisplaySlotModel>::empty(),
    {
        CommandContextModel { arguments: ArgMap::new() }
    }
}

/// The slot bound to `name`, if any.
pub fn get_display_slot(context: &CommandContextModel, name: &str) -> (r: Option<DisplaySlotModel>)
    ensures
        r matches Some(v) ==> context.view().contains_key(name@) && context.view()[name@] == v,
        r is None ==> !context.view().contains_key(name@),
{
    match context.arguments.get(name) {
        Some(v) => Some(*v),
        None => None,
    }
}

} // verus!
