use lib::command_game_mode_argument::{GameModeArgumentModel, GameTypeModel, AbilitiesModel, CommandSourceModel, CommandContextModel, StringReaderModel, GameModeParseError, get_game_mode};
use lib::command_shared_suggestion_provider::{SuggestionModel, SuggestionsBuilderModel};
fn parse(input: &str) -> Result<(GameTypeModel, usize), GameModeParseError> {
    let mut reader = StringReaderModel::new(input);
    let game_type = GameModeArgumentModel::game_mode().parse(&mut reader)?;
    Ok((game_type, reader.cursor()))
}

#[test]
fn game_type_metadata_matches_java_enum() {
    assert_eq!(
        GameTypeModel::VALUES.map(|game_type| (game_type.id(), game_type.name())),
        [
            (0, "survival"),
            (1, "creative"),
            (2, "adventure"),
            (3, "spectator"),
        ]
    );
    assert_eq!(GameTypeModel::DEFAULT_MODE, GameTypeModel::Survival);
    assert_eq!(
        GameTypeModel::Creative.short_display_key(),
        "selectWorld.gameMode.creative"
    );
    assert_eq!(
        GameTypeModel::Spectator.long_display_key(),
        "gameMode.spectator"
    );
}

#[test]
fn game_type_lookup_helpers_match_java_defaults() {
    assert_eq!(GameTypeModel::by_id(-99), GameTypeModel::Survival);
    assert_eq!(GameTypeModel::by_id(2), GameTypeModel::Adventure);
    assert_eq!(GameTypeModel::by_id(99), GameTypeModel::Survival);
    assert_eq!(
        GameTypeModel::by_name("creative", Some(GameTypeModel::Survival)),
        Some(GameTypeModel::Creative)
    );
    assert_eq!(
        GameTypeModel::by_name("missing", Some(GameTypeModel::Survival)),
        Some(GameTypeModel::Survival)
    );
    assert_eq!(GameTypeModel::by_name("missing", None), None);
    assert_eq!(GameTypeModel::nullable_id(None), -1);
    assert_eq!(
        GameTypeModel::nullable_id(Some(GameTypeModel::Spectator)),
        3
    );
    assert_eq!(GameTypeModel::by_nullable_id(-1), None);
    assert_eq!(
        GameTypeModel::by_nullable_id(42),
        Some(GameTypeModel::Survival)
    );
    assert!(GameTypeModel::is_valid_id(3));
    assert!(!GameTypeModel::is_valid_id(4));
}

#[test]
fn game_type_ability_updates_match_java() {
    let mut creative = AbilitiesModel::default();
    GameTypeModel::Creative.update_player_abilities(&mut creative);
    assert_eq!(
        creative,
        AbilitiesModel {
            mayfly: true,
            instabuild: true,
            invulnerable: true,
            flying: false,
            may_build: true,
        }
    );

    let mut spectator = AbilitiesModel::default();
    GameTypeModel::Spectator.update_player_abilities(&mut spectator);
    assert_eq!(
        spectator,
        AbilitiesModel {
            mayfly: true,
            instabuild: false,
            invulnerable: true,
            flying: true,
            may_build: false,
        }
    );

    let mut adventure = AbilitiesModel {
        mayfly: true,
        instabuild: true,
        invulnerable: true,
        flying: true,
        may_build: true,
    };
    GameTypeModel::Adventure.update_player_abilities(&mut adventure);
    assert_eq!(
        adventure,
        AbilitiesModel {
            mayfly: false,
            instabuild: false,
            invulnerable: false,
            flying: false,
            may_build: false,
        }
    );
    assert!(GameTypeModel::Creative.is_creative());
    assert!(GameTypeModel::Adventure.is_survival());
    assert!(GameTypeModel::Spectator.is_block_placing_restricted());
}

#[test]
fn examples_are_survival_and_creative_names() {
    assert_eq!(
        GameModeArgumentModel::game_mode().examples(),
        ["survival", "creative"]
    );
}

#[test]
fn get_game_mode_returns_typed_context_argument() {
    let context =
        CommandContextModel::default().with_game_mode("mode", GameTypeModel::Creative);

    assert_eq!(
        get_game_mode(&context, "mode"),
        Some(GameTypeModel::Creative)
    );
    assert_eq!(get_game_mode(&context, "missing"), None);
}

#[test]
fn parse_uses_exact_by_name_lookup_and_advances_unquoted_token() {
    let (game_type, cursor) = parse("spectator tail").unwrap();

    assert_eq!(game_type, GameTypeModel::Spectator);
    assert_eq!(cursor, 9);
    assert_eq!(parse("creative"), Ok((GameTypeModel::Creative, 8)));
}

#[test]
fn parse_rejects_unknown_case_mismatched_and_empty_values_without_cursor_reset() {
    let mut reader = StringReaderModel::new("Creative rest");
    assert_eq!(
        GameModeArgumentModel::game_mode().parse(&mut reader),
        Err(GameModeParseError::Invalid {
            value: "Creative".to_string(),
        })
    );
    assert_eq!(reader.cursor(), 8);

    assert_eq!(
        parse("missing"),
        Err(GameModeParseError::Invalid {
            value: "missing".to_string(),
        })
    );
    assert_eq!(
        parse(""),
        Err(GameModeParseError::Invalid {
            value: String::new(),
        })
    );
}

#[test]
fn suggestions_are_source_gated_and_use_shared_matching() {
    let source = CommandSourceModel {
        shared_suggestion_provider: true,
    };
    let mut all = SuggestionsBuilderModel::new("");
    assert_eq!(
        GameModeArgumentModel::game_mode()
            .list_suggestions(&source, &mut all)
            .into_iter()
            .map(|suggestion| suggestion.value)
            .collect::<Vec<_>>(),
        vec!["survival", "creative", "adventure", "spectator"]
    );

    let mut creative = SuggestionsBuilderModel::new("c");
    assert_eq!(
        GameModeArgumentModel::game_mode().list_suggestions(&source, &mut creative),
        vec![SuggestionModel {
            value: "creative".to_string(),
            tooltip: None,
        }]
    );

    let non_shared_source = CommandSourceModel {
        shared_suggestion_provider: false,
    };
    let mut builder = SuggestionsBuilderModel::new("");
    assert!(GameModeArgumentModel::game_mode()
        .list_suggestions(&non_shared_source, &mut builder)
        .is_empty());
}
