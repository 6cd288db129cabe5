use lib::command_score_holder_argument::{
    get_name, get_names, get_names_with_default_wildcard, get_names_with_wildcard,
    CommandContextModel, CommandSourceModel, ScoreHolderArgumentError, ScoreHolderArgumentModel,
    ScoreHolderInfoTemplate, ScoreHolderModel, ScoreHolderResultModel,
    SharedSuggestionProviderModel,
};
use lib::command_selector::{EntityRecord, Selector};
use lib::str_map::StrMap;
use lib::string_reader::StringReaderModel;

fn entity(name: &str, uuid: &str, player: bool, entity_type: &str) -> EntityRecord {
    EntityRecord {
        name: name.to_string(),
        uuid: uuid.to_string(),
        player,
        entity_type: entity_type.to_string(),
        level: "overworld".to_string(),
        team: None,
        tags: Vec::new(),
        scores: StrMap::new(),
        nbt: StrMap::new(),
        predicates: Vec::new(),
    }
}

fn entity_in_level(
    name: &str,
    uuid: &str,
    player: bool,
    entity_type: &str,
    level: &str,
) -> EntityRecord {
    let mut entity = entity(name, uuid, player, entity_type);
    entity.level = level.to_string();
    entity
}

#[test]
fn command_score_holder_argument_java_factories_examples_and_info_flags_match_source() {
    let single = ScoreHolderArgumentModel::score_holder();
    let multiple = ScoreHolderArgumentModel::score_holders();
    assert_eq!(single.examples(), ["Player", "0123", "*", "@e"]);
    assert_eq!(single.info_template().serialize_to_network(), 0);
    assert_eq!(multiple.info_template().serialize_to_network(), 1);
    assert_eq!(single.info_template().serialize_to_json_amount(), "single");
    assert_eq!(
        multiple.info_template().serialize_to_json_amount(),
        "multiple"
    );
    assert_eq!(
        ScoreHolderInfoTemplate::deserialize_from_network(1)
            .instantiate()
            .info_template(),
        multiple.info_template()
    );
}

#[test]
fn java_parse_selector_respects_multiple_and_selector_permissions() {
    let mut reader = StringReaderModel::new("@e");
    assert_eq!(
        ScoreHolderArgumentModel::score_holder().parse(&mut reader, true),
        Err(ScoreHolderArgumentError::NotSingleEntity)
    );
    assert_eq!(reader.cursor(), 2);

    let mut denied = StringReaderModel::new("@p");
    assert_eq!(
        ScoreHolderArgumentModel::score_holders().parse(&mut denied, false),
        Err(ScoreHolderArgumentError::SelectorsNotAllowed)
    );

    let mut allowed = StringReaderModel::new("@p rest");
    let result = ScoreHolderArgumentModel::score_holder()
        .parse(&mut allowed, true)
        .unwrap();
    assert!(matches!(result, ScoreHolderResultModel::Selector(_)));
    assert_eq!(allowed.cursor(), 2);
}

#[test]
fn java_parse_plain_wildcard_hash_uuid_and_name_results() {
    assert_eq!(
        ScoreHolderArgumentModel::score_holders()
            .parse(&mut StringReaderModel::new("*"), true)
            .unwrap(),
        ScoreHolderResultModel::Wildcard
    );
    assert_eq!(
        ScoreHolderArgumentModel::score_holders()
            .parse(&mut StringReaderModel::new("#fake"), true)
            .unwrap(),
        ScoreHolderResultModel::NameOnly("#fake".to_string())
    );
    assert_eq!(
        ScoreHolderArgumentModel::score_holders()
            .parse(
                &mut StringReaderModel::new("dd12be42-52a9-4a91-a8a1-11c01849e498"),
                true,
            )
            .unwrap(),
        ScoreHolderResultModel::UuidOrName("dd12be42-52a9-4a91-a8a1-11c01849e498".to_string())
    );
    assert_eq!(
        ScoreHolderArgumentModel::score_holders()
            .parse(&mut StringReaderModel::new("Player tail"), true)
            .unwrap(),
        ScoreHolderResultModel::PlayerNameOrNameOnly("Player".to_string())
    );
}

#[test]
fn java_get_names_and_get_name_reject_empty_results() {
    let context = CommandContextModel::default().with_argument(
        "holder",
        ScoreHolderResultModel::PlayerNameOrNameOnly("Alex".to_string()),
    );
    assert_eq!(
        get_name(&context, "holder", &[]).unwrap(),
        ScoreHolderModel::name_only("Alex")
    );
    let missing = CommandContextModel::default();
    assert_eq!(
        get_names(&missing, "holder", &[]),
        Err(ScoreHolderArgumentError::MissingArgument)
    );
}

#[test]
fn java_wildcard_uses_supplied_or_default_tracked_score_holders() {
    let context = CommandContextModel::default()
        .with_argument("targets", ScoreHolderResultModel::Wildcard)
        .with_tracked_score_holders(&["Alex", "#fake"]);
    assert_eq!(
        get_names_with_default_wildcard(&context, "targets", &[])
            .unwrap()
            .iter()
            .map(|holder| holder.name().to_string())
            .collect::<Vec<_>>(),
        vec!["Alex", "#fake"]
    );
    assert_eq!(
        get_names_with_wildcard(&context, "targets", Vec::new(), &[]),
        Err(ScoreHolderArgumentError::NoResults)
    );
}

#[test]
fn java_name_and_uuid_results_resolve_players_entities_or_name_only() {
    let uuid = "dd12be42-52a9-4a91-a8a1-11c01849e498";
    let context = CommandContextModel::default()
        .with_entities(vec![
            entity("Alex", "u1", true, "minecraft:player"),
            entity_in_level("Zombie", uuid, false, "minecraft:zombie", "overworld"),
            entity_in_level("Pig", uuid, false, "minecraft:pig", "the_nether"),
        ])
        .with_argument(
            "name",
            ScoreHolderResultModel::PlayerNameOrNameOnly("Alex".to_string()),
        )
        .with_argument("uuid", ScoreHolderResultModel::UuidOrName(uuid.to_string()))
        .with_argument(
            "missing",
            ScoreHolderResultModel::PlayerNameOrNameOnly("Missing".to_string()),
        )
        .with_argument(
            "fake",
            ScoreHolderResultModel::NameOnly("#Alex".to_string()),
        );

    assert_eq!(
        get_name(&context, "name", &[]).unwrap().uuid(),
        Some("u1")
    );
    assert_eq!(
        get_names(&context, "uuid", &[])
            .unwrap()
            .iter()
            .map(|holder| holder.name().to_string())
            .collect::<Vec<_>>(),
        vec!["Zombie", "Pig"]
    );
    assert_eq!(
        get_name(&context, "missing", &[]).unwrap(),
        ScoreHolderModel::name_only("Missing")
    );
    assert_eq!(
        get_name(&context, "fake", &[]).unwrap(),
        ScoreHolderModel::name_only("#Alex")
    );
}

#[test]
fn java_suggestions_use_online_names_and_selector_permission() {
    let source = CommandSourceModel::Shared(
        SharedSuggestionProviderModel::new(true).with_online_players(&["Alex", "Steve"]),
    );
    assert_eq!(
        ScoreHolderArgumentModel::score_holders().list_suggestions(&source, "A"),
        vec!["Alex".to_string()]
    );
    assert_eq!(
        ScoreHolderArgumentModel::score_holders().list_suggestions(&source, "@"),
        vec![
            "@p".to_string(),
            "@a".to_string(),
            "@r".to_string(),
            "@s".to_string(),
            "@e".to_string(),
            "@n".to_string()
        ]
    );

    let source = CommandSourceModel::Shared(
        SharedSuggestionProviderModel::new(false).with_online_players(&["Alex"]),
    );
    assert!(ScoreHolderArgumentModel::score_holders()
        .list_suggestions(&source, "@")
        .is_empty());
    assert!(ScoreHolderArgumentModel::score_holders()
        .list_suggestions(&CommandSourceModel::Other, "")
        .is_empty());
}

#[test]
fn selector_holders_come_from_the_selected_entities() {
    let selector = Selector::parse("@e").unwrap();
    let selected = vec![
        entity("Alex", "u1", true, "minecraft:player"),
        entity("Zombie", "u2", false, "minecraft:zombie"),
    ];
    let context = CommandContextModel::default().with_argument(
        "targets",
        ScoreHolderResultModel::Selector(Box::new(Selector::parse("@e").unwrap())),
    );
    assert_eq!(get_names(&context, "targets", &selected).unwrap().len(), 2);
    assert_eq!(
        get_names(&context, "targets", &[]),
        Err(ScoreHolderArgumentError::NoEntitiesFound)
    );
    let denied = CommandContextModel::default()
        .with_selector_permission(false)
        .with_argument("targets", ScoreHolderResultModel::Selector(Box::new(selector)));
    assert_eq!(
        get_names(&denied, "targets", &selected),
        Err(ScoreHolderArgumentError::SelectorsNotAllowed)
    );
}

#[test]
fn plain_holders_classify_wildcards_fake_names_and_uuids() {
    let holders = ScoreHolderArgumentModel::score_holders();
    let mut reader = StringReaderModel::new("DD12BE42-52A9-4A91-A8A1-11C01849E498 x");
    assert!(matches!(holders.parse(&mut reader, true), Ok(ScoreHolderResultModel::UuidOrName(_))));
    let mut reader = StringReaderModel::new("dd12be42-52a9-4a91-a8a1-11c01849e49");
    assert!(matches!(holders.parse(&mut reader, true), Ok(ScoreHolderResultModel::PlayerNameOrNameOnly(_))));
    let mut reader = StringReaderModel::new("** rest");
    assert!(matches!(holders.parse(&mut reader, true), Ok(ScoreHolderResultModel::PlayerNameOrNameOnly(_))));
    let mut reader = StringReaderModel::new("@e[limit=1]");
    assert!(matches!(ScoreHolderArgumentModel::score_holder().parse(&mut reader, true), Ok(ScoreHolderResultModel::Selector(_))));
    assert_eq!(reader.cursor(), "@e[limit=1]".len());
}
