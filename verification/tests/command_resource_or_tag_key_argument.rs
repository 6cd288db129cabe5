use lib::command_resource_or_tag_key_argument::{ResourceOrTagKeyArgumentModel, ResourceOrTagKeyResultModel, ResourceOrTagKeyLookupError, HolderModel, CommandContextModel, CommandSourceModel, SharedSuggestionProviderModel, ElementSuggestionType, CommandIdentifierModel, IdentifierArgumentParseError, StringReaderModel, get_resource_or_tag_key};
const ENTITY_TYPE_REGISTRY: &str = "minecraft:entity_type";
const CONFIGURED_FEATURE_REGISTRY: &str = "minecraft:worldgen/configured_feature";

fn suggestion_source() -> CommandSourceModel {
    CommandSourceModel::Shared(SharedSuggestionProviderModel::default().with_registry(
        ENTITY_TYPE_REGISTRY,
        &["minecraft:skeleton", "minecraft:zombie", "custom:skeleton"],
        &["minecraft:skeletons", "minecraft:undead"],
    ))
}

fn argument() -> ResourceOrTagKeyArgumentModel {
    ResourceOrTagKeyArgumentModel::resource_or_tag_key(ENTITY_TYPE_REGISTRY)
}

fn parse(
    input: &str,
) -> Result<(ResourceOrTagKeyResultModel, usize), IdentifierArgumentParseError> {
    let mut reader = StringReaderModel::new(input);
    let result = argument().parse(&mut reader)?;
    Ok((result, reader.cursor()))
}

#[test]
fn command_resource_or_tag_key_argument_java_factory_examples_and_info_template_match_source() {
    let argument = argument();
    assert_eq!(
        argument.examples(),
        [
            "foo",
            "foo:bar",
            "012",
            "#skeletons",
            "#minecraft:skeletons"
        ]
    );

    let template = argument.info_template();
    assert_eq!(template.serialize_to_network(), ENTITY_TYPE_REGISTRY);
    assert_eq!(template.serialize_to_json_registry(), ENTITY_TYPE_REGISTRY);
    assert_eq!(template.instantiate().info_template(), template);
}

#[test]
fn java_parse_resource_key_uses_identifier_read_and_default_namespace() {
    let (result, cursor) = parse("skeleton trailing").unwrap();
    let key = result.unwrap().unwrap();

    assert_eq!(key.registry().to_string(), ENTITY_TYPE_REGISTRY);
    assert_eq!(key.identifier().to_string(), "minecraft:skeleton");
    assert_eq!(result.as_printable(), "minecraft:skeleton");
    assert_eq!(cursor, "skeleton".len());
}

#[test]
fn java_parse_tag_key_consumes_hash_and_defaults_namespace() {
    let (result, cursor) = parse("#skeletons trailing").unwrap();
    let tag = result.unwrap().unwrap_err();

    assert_eq!(tag.registry().to_string(), ENTITY_TYPE_REGISTRY);
    assert_eq!(tag.location().to_string(), "minecraft:skeletons");
    assert_eq!(result.as_printable(), "#minecraft:skeletons");
    assert_eq!(cursor, "#skeletons".len());
}

#[test]
fn java_tag_parse_resets_cursor_to_hash_on_identifier_syntax_error() {
    let mut reader = StringReaderModel::new("#..:bad trailing");
    let error = argument().parse(&mut reader);

    assert_eq!(error, Err(IdentifierArgumentParseError::InvalidIdentifier));
    assert_eq!(reader.cursor(), 0);
}

#[test]
fn java_resource_parse_resets_cursor_on_identifier_syntax_error() {
    let mut reader = StringReaderModel::new("..:bad trailing");
    let error = argument().parse(&mut reader);

    assert_eq!(error, Err(IdentifierArgumentParseError::InvalidIdentifier));
    assert_eq!(reader.cursor(), 0);
}

#[test]
fn command_resource_or_tag_key_argument_java_result_cast_preserves_matching_registry_and_rejects_mismatches() {
    let (resource, _) = parse("skeleton").unwrap();
    let (tag, _) = parse("#skeletons").unwrap();
    let entity_registry = CommandIdentifierModel::parse(ENTITY_TYPE_REGISTRY).unwrap();
    let feature_registry = CommandIdentifierModel::parse(CONFIGURED_FEATURE_REGISTRY).unwrap();

    assert_eq!(resource.cast(&entity_registry), Some(resource.clone()));
    assert_eq!(tag.cast(&entity_registry), Some(tag.clone()));
    assert_eq!(resource.cast(&feature_registry), None);
    assert_eq!(tag.cast(&feature_registry), None);
}

#[test]
fn java_context_getter_returns_cast_result_or_dynamic_exception() {
    let (resource, _) = parse("skeleton").unwrap();
    let context = CommandContextModel::default().with_result("target", resource.clone());

    assert_eq!(
        get_resource_or_tag_key(&context, "target", ENTITY_TYPE_REGISTRY, "wrong.type"),
        Ok(resource)
    );
    assert_eq!(
        get_resource_or_tag_key(
            &context,
            "target",
            CONFIGURED_FEATURE_REGISTRY,
            "wrong.type"
        ),
        Err(ResourceOrTagKeyLookupError::Dynamic {
            exception_name: "wrong.type",
            printable: "minecraft:skeleton".to_string(),
        })
    );
    assert_eq!(
        get_resource_or_tag_key(&context, "missing", ENTITY_TYPE_REGISTRY, "wrong.type"),
        Err(ResourceOrTagKeyLookupError::MissingArgument)
    );
}

#[test]
fn java_result_test_uses_holder_key_or_tag_membership() {
    let (resource, _) = parse("skeleton").unwrap();
    let (tag, _) = parse("#skeletons").unwrap();
    let skeleton = HolderModel::new(ENTITY_TYPE_REGISTRY, "minecraft:skeleton", &["skeletons"]);
    let zombie = HolderModel::new(ENTITY_TYPE_REGISTRY, "minecraft:zombie", &["skeletons"]);
    let pig = HolderModel::new(ENTITY_TYPE_REGISTRY, "minecraft:pig", &[]);

    assert!(resource.test(&skeleton));
    assert!(!resource.test(&zombie));
    assert!(tag.test(&skeleton));
    assert!(tag.test(&zombie));
    assert!(!tag.test(&pig));
}

#[test]
fn command_resource_or_tag_key_argument_java_suggestions_delegate_to_shared_registry_all_suggestions() {
    let context = CommandContextModel::default().with_source(suggestion_source());
    let argument = argument();

    assert_eq!(
        argument.list_suggestions(&context, ""),
        [
            "#minecraft:skeletons",
            "#minecraft:undead",
            "minecraft:skeleton",
            "minecraft:zombie",
            "custom:skeleton"
        ]
    );
    assert_eq!(
        argument.list_suggestions(&context, "#skel"),
        ["#minecraft:skeletons"]
    );
    assert_eq!(
        argument.list_suggestions(&context, "custom:s"),
        ["custom:skeleton"]
    );

    let other = CommandContextModel::default().with_source(CommandSourceModel::Other);
    assert_eq!(argument.list_suggestions(&other, ""), Vec::<String>::new());

    assert!(ElementSuggestionType::All.should_suggest_tags());
    assert!(ElementSuggestionType::All.should_suggest_elements());
    assert!(!ElementSuggestionType::Elements.should_suggest_tags());
    assert!(!ElementSuggestionType::Tags.should_suggest_elements());
}
