use lib::command_scoreboard_slot_argument::{ScoreboardSlotArgumentModel, CommandContextModel, StringReaderModel, ScoreboardSlotParseError, DisplaySlotModel, ChatFormattingModel, get_display_slot};
use lib::command_shared_suggestion_provider::{SuggestionModel, SuggestionsBuilderModel};
fn parse(input: &str) -> Result<(DisplaySlotModel, usize), ScoreboardSlotParseError> {
    let mut reader = StringReaderModel::new(input);
    let slot = ScoreboardSlotArgumentModel::display_slot().parse(&mut reader)?;
    Ok((slot, reader.cursor()))
}

fn suggestion_values(suggestions: Vec<SuggestionModel>) -> Vec<String> {
    suggestions
        .into_iter()
        .map(|suggestion| suggestion.value)
        .collect()
}

#[test]
fn java_display_slot_enum_order_ids_and_names_match_source() {
    assert_eq!(
        DisplaySlotModel::VALUES.map(DisplaySlotModel::id),
        [0, 1, 2, 3, 4, 5, 6, 7, 8, 9, 10, 11, 12, 13, 14, 15, 16, 17, 18]
    );
    assert_eq!(
        DisplaySlotModel::VALUES.map(DisplaySlotModel::serialized_name),
        [
            "list",
            "sidebar",
            "below_name",
            "sidebar.team.black",
            "sidebar.team.dark_blue",
            "sidebar.team.dark_green",
            "sidebar.team.dark_aqua",
            "sidebar.team.dark_red",
            "sidebar.team.dark_purple",
            "sidebar.team.gold",
            "sidebar.team.gray",
            "sidebar.team.dark_gray",
            "sidebar.team.blue",
            "sidebar.team.green",
            "sidebar.team.aqua",
            "sidebar.team.red",
            "sidebar.team.light_purple",
            "sidebar.team.yellow",
            "sidebar.team.white",
        ]
    );
}

#[test]
fn command_scoreboard_slot_argument_java_factory_examples_and_context_lookup_match_source() {
    let argument = ScoreboardSlotArgumentModel::display_slot();
    assert_eq!(argument.examples(), ["sidebar", "foo.bar"]);

    let context =
        CommandContextModel::default().with_display_slot("slot", DisplaySlotModel::BelowName);
    assert_eq!(
        get_display_slot(&context, "slot"),
        Some(DisplaySlotModel::BelowName)
    );
    assert_eq!(get_display_slot(&context, "missing"), None);
}

#[test]
fn java_parse_uses_exact_serialized_name_and_unquoted_cursor() {
    let (slot, cursor) = parse("sidebar.team.dark_blue trailing").unwrap();

    assert_eq!(slot, DisplaySlotModel::TeamDarkBlue);
    assert_eq!(cursor, "sidebar.team.dark_blue".len());
}

#[test]
fn java_parse_rejects_unknown_names_without_cursor_reset() {
    let mut reader = StringReaderModel::new("foo.bar trailing");
    let error = ScoreboardSlotArgumentModel::display_slot().parse(&mut reader);

    assert_eq!(
        error,
        Err(ScoreboardSlotParseError::InvalidValue {
            value: "foo.bar".to_string()
        })
    );
    assert_eq!(reader.cursor(), "foo.bar".len());
}

#[test]
fn java_parse_is_case_sensitive() {
    let mut reader = StringReaderModel::new("Sidebar");
    let error = ScoreboardSlotArgumentModel::display_slot().parse(&mut reader);

    assert_eq!(
        error,
        Err(ScoreboardSlotParseError::InvalidValue {
            value: "Sidebar".to_string()
        })
    );
    assert_eq!(reader.cursor(), "Sidebar".len());
}

#[test]
fn java_suggestions_use_all_display_slot_serialized_names() {
    let mut builder = SuggestionsBuilderModel::new("dark");
    let suggestions =
        ScoreboardSlotArgumentModel::display_slot().list_suggestions(&mut builder);

    assert_eq!(
        suggestion_values(suggestions),
        vec![
            "sidebar.team.dark_blue".to_string(),
            "sidebar.team.dark_green".to_string(),
            "sidebar.team.dark_aqua".to_string(),
            "sidebar.team.dark_red".to_string(),
            "sidebar.team.dark_purple".to_string(),
            "sidebar.team.dark_gray".to_string(),
        ]
    );
}

#[test]
fn java_by_id_uses_zero_out_of_bounds_strategy() {
    assert_eq!(DisplaySlotModel::by_id(0), DisplaySlotModel::List);
    assert_eq!(DisplaySlotModel::by_id(18), DisplaySlotModel::TeamWhite);
    assert_eq!(DisplaySlotModel::by_id(-1), DisplaySlotModel::List);
    assert_eq!(DisplaySlotModel::by_id(19), DisplaySlotModel::List);
}

#[test]
fn java_team_color_to_slot_maps_only_real_colors() {
    let colors = [
        (ChatFormattingModel::Black, DisplaySlotModel::TeamBlack),
        (
            ChatFormattingModel::DarkBlue,
            DisplaySlotModel::TeamDarkBlue,
        ),
        (
            ChatFormattingModel::DarkGreen,
            DisplaySlotModel::TeamDarkGreen,
        ),
        (
            ChatFormattingModel::DarkAqua,
            DisplaySlotModel::TeamDarkAqua,
        ),
        (ChatFormattingModel::DarkRed, DisplaySlotModel::TeamDarkRed),
        (
            ChatFormattingModel::DarkPurple,
            DisplaySlotModel::TeamDarkPurple,
        ),
        (ChatFormattingModel::Gold, DisplaySlotModel::TeamGold),
        (ChatFormattingModel::Gray, DisplaySlotModel::TeamGray),
        (
            ChatFormattingModel::DarkGray,
            DisplaySlotModel::TeamDarkGray,
        ),
        (ChatFormattingModel::Blue, DisplaySlotModel::TeamBlue),
        (ChatFormattingModel::Green, DisplaySlotModel::TeamGreen),
        (ChatFormattingModel::Aqua, DisplaySlotModel::TeamAqua),
        (ChatFormattingModel::Red, DisplaySlotModel::TeamRed),
        (
            ChatFormattingModel::LightPurple,
            DisplaySlotModel::TeamLightPurple,
        ),
        (ChatFormattingModel::Yellow, DisplaySlotModel::TeamYellow),
        (ChatFormattingModel::White, DisplaySlotModel::TeamWhite),
    ];
    for (color, slot) in colors {
        assert_eq!(DisplaySlotModel::team_color_to_slot(color), Some(slot));
    }

    for format in [
        ChatFormattingModel::Bold,
        ChatFormattingModel::Italic,
        ChatFormattingModel::Underline,
        ChatFormattingModel::Reset,
        ChatFormattingModel::Obfuscated,
        ChatFormattingModel::Strikethrough,
    ] {
        assert_eq!(DisplaySlotModel::team_color_to_slot(format), None);
    }
}
