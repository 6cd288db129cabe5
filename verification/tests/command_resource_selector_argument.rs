use lib::command_resource_selector_argument::{ResourceSelectorArgumentModel, CommandBuildContextModel, CommandContextModel, CommandSourceModel, SharedSuggestionProviderModel, ElementSuggestionType, HolderReferenceModel, ResourceKeyModel, ResourceSelectorParseError, StringReaderModel, parse_with_registry, get_selected_resources};
use lib::command_identifier_argument::CommandIdentifierModel;
fn build_context() -> CommandBuildContextModel {
    CommandBuildContextModel::default().with_registry(
        "minecraft:configured_feature",
        &[
            "minecraft:asset",
            "minecraft:ancient_city",
            "minecraft:ore/diamond",
            "custom:asset",
            "custom:other",
        ],
    )
}

fn argument() -> ResourceSelectorArgumentModel {
    ResourceSelectorArgumentModel::resource_selector(
        &build_context(),
        "minecraft:configured_feature",
    )
}

fn parse(input: &str) -> Result<(Vec<String>, usize), ResourceSelectorParseError> {
    let mut reader = StringReaderModel::new(input);
    let values = argument()
        .parse(&mut reader)?
        .into_iter()
        .map(|holder| holder.key().identifier().to_string())
        .collect();
    Ok((values, reader.cursor()))
}

#[test]
fn command_resource_selector_argument_java_factory_examples_and_info_template_match_source() {
    let argument = argument();
    assert_eq!(argument.examples(), ["minecraft:*", "*:asset", "*"]);

    let template = argument.info_template();
    assert_eq!(
        template.serialize_to_network(),
        "minecraft:configured_feature"
    );
    assert_eq!(
        template.serialize_to_json_registry(),
        "minecraft:configured_feature"
    );

    let instantiated = template.instantiate(&build_context());
    assert_eq!(instantiated.info_template(), template);
}

#[test]
fn java_parse_ensures_default_namespace_for_patterns_without_colon() {
    let (values, cursor) = parse("asset trailing").unwrap();

    assert_eq!(values, ["minecraft:asset"]);
    assert_eq!(cursor, "asset".len());

    let (values, cursor) = parse("*").unwrap();
    assert_eq!(
        values,
        [
            "minecraft:asset",
            "minecraft:ancient_city",
            "minecraft:ore/diamond"
        ]
    );
    assert_eq!(cursor, 1);
}

#[test]
fn java_parse_keeps_explicit_namespaces_and_matches_full_identifier() {
    let (values, cursor) = parse("*:asset next").unwrap();
    assert_eq!(values, ["minecraft:asset", "custom:asset"]);
    assert_eq!(cursor, "*:asset".len());

    let (values, cursor) = parse("custom:*").unwrap();
    assert_eq!(values, ["custom:asset", "custom:other"]);
    assert_eq!(cursor, "custom:*".len());
}

#[test]
fn java_wildcards_support_question_mark_and_are_case_sensitive() {
    let (values, cursor) = parse("ancient_cit?").unwrap();
    assert_eq!(values, ["minecraft:ancient_city"]);
    assert_eq!(cursor, "ancient_cit?".len());

    let mut reader = StringReaderModel::new("ASSET");
    assert_eq!(
        argument().parse(&mut reader),
        Err(ResourceSelectorParseError::NoMatches {
            selector: "minecraft:".to_string(),
            registry: "minecraft:configured_feature".to_string(),
            cursor: 0,
        })
    );
    assert_eq!(reader.cursor(), 0);
}

#[test]
fn java_read_pattern_stops_at_invalid_characters_without_resetting_on_no_match() {
    let mut reader = StringReaderModel::new("missing@rest");
    assert_eq!(
        argument().parse(&mut reader),
        Err(ResourceSelectorParseError::NoMatches {
            selector: "minecraft:missing".to_string(),
            registry: "minecraft:configured_feature".to_string(),
            cursor: "missing".len(),
        })
    );
    assert_eq!(reader.cursor(), "missing".len());
}

#[test]
fn java_static_parse_returns_empty_collection_instead_of_throwing() {
    let mut reader = StringReaderModel::new("missing");
    let values = parse_with_registry(
        &mut reader,
        &build_context().lookup_or_throw(
            &CommandIdentifierModel::parse("minecraft:configured_feature").unwrap(),
        ),
    );

    assert!(values.is_empty());
    assert_eq!(reader.cursor(), "missing".len());
}

#[test]
fn java_context_getter_returns_selected_collection_argument() {
    let selected = parse("*:asset").unwrap().0;
    let holders: Vec<_> = selected
        .iter()
        .map(|id| HolderReferenceModel {
            key: ResourceKeyModel::create("minecraft:configured_feature", id),
        })
        .collect();
    let context =
        CommandContextModel::default().with_selected_resources("targets", holders.clone());

    assert_eq!(get_selected_resources(&context, "targets"), Some(holders));
    assert_eq!(get_selected_resources(&context, "missing"), None);
}

#[test]
fn command_resource_selector_argument_java_suggestions_delegate_to_shared_registry_element_suggestions() {
    let source = SharedSuggestionProviderModel::default().with_registry(
        "minecraft:configured_feature",
        &["minecraft:asset", "minecraft:ancient_city", "custom:asset"],
    );
    let context =
        CommandContextModel::default().with_source(CommandSourceModel::Shared(source));
    let argument = argument();

    assert_eq!(
        argument.list_suggestions(&context, ""),
        ["minecraft:asset", "minecraft:ancient_city", "custom:asset"]
    );
    assert_eq!(
        argument.list_suggestions(&context, "ancient_"),
        ["minecraft:ancient_city"]
    );
    assert_eq!(
        argument.list_suggestions(&context, "custom:a"),
        ["custom:asset"]
    );

    let other_source = CommandContextModel::default().with_source(CommandSourceModel::Other);
    assert_eq!(
        argument.list_suggestions(&other_source, ""),
        Vec::<String>::new()
    );

    assert!(!ElementSuggestionType::Tags.should_suggest_elements());
    assert!(ElementSuggestionType::All.should_suggest_elements());
}

#[test]
fn java_resource_keys_preserve_registry_and_identifier() {
    let holder = argument()
        .parse(&mut StringReaderModel::new("ore/*"))
        .unwrap()[0]
        .clone();

    assert_eq!(
        holder.key().registry().to_string(),
        "minecraft:configured_feature"
    );
    assert_eq!(
        holder.key().identifier().to_string(),
        "minecraft:ore/diamond"
    );
}

#[test]
fn star_matches_everything_and_plain_patterns_match_only_themselves() {
    assert!(lib::command_resource_selector_argument::wildcard_match("minecraft:stone", "*"));
    assert!(lib::command_resource_selector_argument::wildcard_match("", "*"));
    assert!(lib::command_resource_selector_argument::wildcard_match("minecraft:stone", "minecraft:stone"));
    assert!(!lib::command_resource_selector_argument::wildcard_match("minecraft:stones", "minecraft:stone"));
    assert!(!lib::command_resource_selector_argument::wildcard_match("minecraft:ston", "minecraft:stone"));
}
