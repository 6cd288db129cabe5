use lib::command_game_profile_argument::{
    get_game_profiles, CommandContextModel, CommandSourceModel, GameProfileArgumentError,
    GameProfileArgumentModel, GameProfileResultModel, SharedSuggestionProviderModel,
};
use lib::command_selector::{EntityRecord, Selector};
use lib::player_access::NameAndId;
use lib::str_map::StrMap;
use lib::string_reader::StringReaderModel;

fn profile(name: &str, uuid: &str) -> NameAndId {
    NameAndId {
        name: name.to_string(),
        uuid: uuid.to_string(),
    }
}

fn record(name: &str, uuid: &str, player: bool) -> EntityRecord {
    EntityRecord {
        name: name.to_string(),
        entity_type: if player { "minecraft:player" } else { "minecraft:zombie" }.to_string(),
        uuid: uuid.to_string(),
        player,
        level: "overworld".to_string(),
        team: None,
        tags: Vec::new(),
        scores: StrMap::new(),
        nbt: StrMap::new(),
        predicates: Vec::new(),
    }
}

#[test]
fn java_factory_examples_and_raw_name_parse_match_source() {
    let argument = GameProfileArgumentModel::game_profile();
    assert_eq!(
        argument.examples(),
        [
            "Player",
            "0123",
            "dd12be42-52a9-4a91-a8a1-11c01849e498",
            "@e"
        ]
    );

    let mut reader = StringReaderModel::new("Player trailing");
    let result = argument
        .parse(&mut reader, true)
        .unwrap_or_else(|error| panic!("unexpected parse error: {error:?}"));

    assert_eq!(result, GameProfileResultModel::Name("Player".to_string()));
    assert_eq!(reader.cursor(), "Player".len());
}

#[test]
fn java_name_result_resolves_against_name_to_id_cache_lazily() {
    let result = GameProfileResultModel::Name("Alex".to_string());
    let context = CommandContextModel::default()
        .with_argument("target", result)
        .with_cached_profile(profile("Alex", "u1"));

    assert_eq!(
        get_game_profiles(&context, "target", &[]),
        Ok(vec![profile("Alex", "u1")])
    );

    let missing = CommandContextModel::default().with_argument(
        "target",
        GameProfileResultModel::Name("Missing".to_string()),
    );
    assert_eq!(
        get_game_profiles(&missing, "target", &[]),
        Err(GameProfileArgumentError::UnknownPlayer)
    );
}

#[test]
fn java_selector_parse_requires_player_selector() {
    let argument = GameProfileArgumentModel::game_profile();

    let mut entities = StringReaderModel::new("@e");
    assert_eq!(
        argument.parse(&mut entities, true),
        Err(GameProfileArgumentError::OnlyPlayersAllowed)
    );

    let mut denied = StringReaderModel::new("@a");
    assert_eq!(
        argument.parse(&mut denied, false),
        Err(GameProfileArgumentError::SelectorsNotAllowed)
    );

    let mut players = StringReaderModel::new("@a next");
    let result = argument
        .parse(&mut players, true)
        .unwrap_or_else(|error| panic!("unexpected parse error: {error:?}"));
    assert!(matches!(result, GameProfileResultModel::Selector(_)));
    assert_eq!(players.cursor(), 2);
}

#[test]
fn selector_profiles_keep_the_selected_players_in_order() {
    let selector = GameProfileResultModel::Selector(Box::new(Selector::parse("@a").unwrap()));
    let context = CommandContextModel::default().with_argument("targets", selector);
    let selected = vec![record("Alex", "u1", true), record("Steve", "u2", true), record("Zombie", "u3", false)];
    assert_eq!(
        get_game_profiles(&context, "targets", &selected),
        Ok(vec![profile("Alex", "u1"), profile("Steve", "u2")])
    );
    assert_eq!(
        get_game_profiles(&context, "targets", &[record("Zombie", "u3", false)]),
        Err(GameProfileArgumentError::NoPlayersFound)
    );
    assert_eq!(
        get_game_profiles(&context, "other", &selected),
        Err(GameProfileArgumentError::MissingArgument)
    );
    let denied = CommandContextModel::default()
        .with_selector_permission(false)
        .with_argument("targets", GameProfileResultModel::Selector(Box::new(Selector::parse("@a").unwrap())));
    assert_eq!(
        get_game_profiles(&denied, "targets", &selected),
        Err(GameProfileArgumentError::SelectorsNotAllowed)
    );
}

#[test]
fn java_suggestions_use_shared_online_names_and_selector_permission() {
    let source = CommandSourceModel::Shared(
        SharedSuggestionProviderModel::new(true).with_online_players(&["Alex", "Steve"]),
    );
    assert_eq!(
        GameProfileArgumentModel::game_profile().list_suggestions(&source, "A"),
        vec!["Alex".to_string()]
    );
    assert_eq!(
        GameProfileArgumentModel::game_profile().list_suggestions(&source, "@"),
        vec![
            "@p".to_string(),
            "@a".to_string(),
            "@r".to_string(),
            "@s".to_string(),
            "@e".to_string(),
            "@n".to_string()
        ]
    );

    let source = CommandSourceModel::Shared(
        SharedSuggestionProviderModel::new(false).with_online_players(&["Alex"]),
    );
    assert!(GameProfileArgumentModel::game_profile()
        .list_suggestions(&source, "@")
        .is_empty());
    assert!(GameProfileArgumentModel::game_profile()
        .list_suggestions(&CommandSourceModel::Other, "")
        .is_empty());
}
