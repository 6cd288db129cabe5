use lib::command_entity_argument::{
    non_empty, players_among, single_entity, single_player,
    CommandSourceModel, EntityArgumentError, EntityArgumentInfoTemplate, EntityArgumentModel,
    SharedSuggestionProviderModel, check_selector_permission,
};
use lib::command_selector::{Selector, SelectorBase, SelectorError, SelectorSort};
use lib::string_reader::StringReaderModel;

#[test]
fn command_entity_argument_java_factories_examples_and_info_flags_match_source() {
    let entity = EntityArgumentModel::entity();
    let entities = EntityArgumentModel::entities();
    let player = EntityArgumentModel::player();
    let players = EntityArgumentModel::players();

    assert_eq!(
        entity.examples(),
        [
            "Player",
            "0123",
            "@e",
            "@e[type=foo]",
            "dd12be42-52a9-4a91-a8a1-11c01849e498"
        ]
    );
    assert_eq!(entity.info_template().serialize_to_network(), 1);
    assert_eq!(entities.info_template().serialize_to_network(), 0);
    assert_eq!(player.info_template().serialize_to_network(), 3);
    assert_eq!(players.info_template().serialize_to_network(), 2);
    assert_eq!(
        player.info_template().serialize_to_json(),
        ("single", "players")
    );
    assert_eq!(
        EntityArgumentInfoTemplate::deserialize_from_network(3)
            .instantiate()
            .info_template(),
        player.info_template()
    );
}

#[test]
fn java_parse_applies_single_and_players_only_constraints() {
    let mut reader = StringReaderModel::new("@e");
    let error = EntityArgumentModel::entity().parse(&mut reader, true);
    assert_eq!(error, Err(EntityArgumentError::NotSingleEntity));
    assert_eq!(reader.cursor(), 0);

    let mut reader = StringReaderModel::new("@e");
    let error = EntityArgumentModel::player().parse(&mut reader, true);
    assert_eq!(error, Err(EntityArgumentError::NotSinglePlayer));
    assert_eq!(reader.cursor(), 0);

    let mut reader = StringReaderModel::new("@s rest");
    let selector = EntityArgumentModel::player()
        .parse(&mut reader, true)
        .unwrap_or_else(|error| panic!("unexpected parse error: {error:?}"));
    assert!(selector.current_entity);
    assert_eq!(reader.cursor(), 2);
}

#[test]
fn java_parse_respects_source_selector_permission() {
    let mut denied = StringReaderModel::new("@p");
    assert_eq!(
        EntityArgumentModel::players().parse(&mut denied, false),
        Err(EntityArgumentError::SelectorsNotAllowed)
    );

    let mut name = StringReaderModel::new("Player next");
    let selector = EntityArgumentModel::player()
        .parse(&mut name, false)
        .unwrap_or_else(|error| panic!("unexpected parse error: {error:?}"));
    assert_eq!(selector.limit, 1);
    assert_eq!(name.cursor(), "Player".len());
}

#[test]
fn java_suggestions_use_shared_provider_names_entities_and_selector_permission() {
    let provider = SharedSuggestionProviderModel::new(true)
        .with_online_players(&["Alex", "Steve"])
        .with_selected_entities(&["Zombie"]);
    let source = CommandSourceModel::Shared(provider);

    assert_eq!(
        EntityArgumentModel::players().list_suggestions(&source, "A"),
        vec!["Alex".to_string()]
    );
    assert_eq!(
        EntityArgumentModel::entities().list_suggestions(&source, "Z"),
        vec!["Zombie".to_string()]
    );
    assert_eq!(
        EntityArgumentModel::entities().list_suggestions(&source, "@"),
        vec![
            "@p".to_string(),
            "@a".to_string(),
            "@r".to_string(),
            "@s".to_string(),
            "@e".to_string(),
            "@n".to_string()
        ]
    );

    let source = CommandSourceModel::Shared(
        SharedSuggestionProviderModel::new(false).with_online_players(&["Alex"]),
    );
    assert!(EntityArgumentModel::entities()
        .list_suggestions(&source, "@")
        .is_empty());
    assert!(EntityArgumentModel::entities()
        .list_suggestions(&CommandSourceModel::Other, "")
        .is_empty());
}

#[test]
fn parse_skips_leading_whitespace_and_reads_bracketed_tokens() {
    let mut reader = StringReaderModel::new("  @e[type=pig, limit=2] rest");
    let selector = EntityArgumentModel::entities().parse(&mut reader, true).unwrap();
    assert_eq!(selector.limit, 2);
    assert_eq!(selector.base, SelectorBase::AllEntities);
    assert_eq!(reader.cursor(), "  @e[type=pig, limit=2]".len());

    let mut reader = StringReaderModel::new("@e[limit=0]");
    assert_eq!(
        EntityArgumentModel::entities().parse(&mut reader, true),
        Err(EntityArgumentError::Selector(SelectorError::InvalidLimit))
    );
    assert_eq!(reader.cursor(), "@e[limit=0]".len());

    let mut reader = StringReaderModel::new("@e[type=pig]");
    assert_eq!(
        EntityArgumentModel::players().parse(&mut reader, true),
        Err(EntityArgumentError::OnlyPlayersAllowed)
    );
    assert_eq!(reader.cursor(), 0);

    let mut reader = StringReaderModel::new("@a");
    let selector = EntityArgumentModel::players().parse(&mut reader, true).unwrap();
    assert_eq!(selector.sort, SelectorSort::Arbitrary);
}

#[test]
fn selector_permission_allows_names_everywhere() {
    let name = Selector::parse("Steve").unwrap();
    let all = Selector::parse("@a").unwrap();
    assert_eq!(check_selector_permission(false, &name), Ok(()));
    assert_eq!(check_selector_permission(false, &all), Err(EntityArgumentError::SelectorsNotAllowed));
    assert_eq!(check_selector_permission(true, &all), Ok(()));
    assert_eq!(EntityArgumentInfoTemplate::deserialize_from_network(2).serialize_to_json(), ("multiple", "players"));
}

fn record(name: &str, player: bool) -> lib::command_selector::EntityRecord {
    lib::command_selector::EntityRecord {
        name: name.to_string(),
        entity_type: "minecraft:pig".to_string(),
        uuid: format!("{name}-uuid"),
        player,
        level: "overworld".to_string(),
        team: None,
        tags: Vec::new(),
        scores: lib::str_map::StrMap::new(),
        nbt: lib::str_map::StrMap::new(),
        predicates: Vec::new(),
    }
}

#[test]
fn found_entities_decide_single_and_player_results() {
    assert_eq!(single_entity(vec![]), Err(EntityArgumentError::NoEntitiesFound));
    assert_eq!(single_entity(vec![record("Pig", false)]).unwrap().name, "Pig");
    assert_eq!(
        single_entity(vec![record("Pig", false), record("Cow", false)]),
        Err(EntityArgumentError::NotSingleEntity)
    );
    let players = players_among(vec![record("Alex", true), record("Pig", false), record("Steve", true)]);
    assert_eq!(players.iter().map(|p| p.name.clone()).collect::<Vec<_>>(), vec!["Alex", "Steve"]);
    assert_eq!(single_player(players), Err(EntityArgumentError::NoPlayersFound));
    assert_eq!(single_player(vec![record("Alex", true)]).unwrap().name, "Alex");
    assert_eq!(
        non_empty(vec![], EntityArgumentError::NoPlayersFound),
        Err(EntityArgumentError::NoPlayersFound)
    );
}
