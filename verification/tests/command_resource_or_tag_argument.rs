use lib::command_resource_or_tag_argument::{ResourceOrTagArgumentModel, ResourceOrTagResultModel, ResourceOrTagParseError, ResourceOrTagLookupError, ResourceKeyModel, CommandBuildContextModel, CommandContextModel, CommandSourceModel, SharedSuggestionProviderModel, ElementSuggestionType, CommandIdentifierModel, IdentifierArgumentParseError, StringReaderModel, get_resource_or_tag};
const ENTITY_TYPE_REGISTRY: &str = "minecraft:entity_type";
const CONFIGURED_FEATURE_REGISTRY: &str = "minecraft:worldgen/configured_feature";

fn build_context() -> CommandBuildContextModel {
    CommandBuildContextModel::default().with_registry(
        ENTITY_TYPE_REGISTRY,
        &[
            ("minecraft:skeleton", &["skeletons", "undead"]),
            ("minecraft:zombie", &["undead"]),
            ("custom:skeleton", &["skeletons"]),
        ],
    )
}

fn suggestion_source() -> CommandSourceModel {
    CommandSourceModel::Shared(SharedSuggestionProviderModel::from_build_context(build_context()))
}

fn argument() -> ResourceOrTagArgumentModel {
    ResourceOrTagArgumentModel::resource_or_tag(&build_context(), ENTITY_TYPE_REGISTRY)
}

fn parse(input: &str) -> Result<(ResourceOrTagResultModel, usize), ResourceOrTagParseError> {
    let mut reader = StringReaderModel::new(input);
    let result = argument().parse(&mut reader)?;
    Ok((result, reader.cursor()))
}

#[test]
fn command_resource_or_tag_argument_java_factory_examples_and_info_template_match_source() {
    let argument = argument();
    assert_eq!(
        argument.examples(),
        [
            "foo",
            "foo:bar",
            "012",
            "#skeletons",
            "#minecraft:skeletons"
        ]
    );

    let template = argument.info_template();
    assert_eq!(template.serialize_to_network(), ENTITY_TYPE_REGISTRY);
    assert_eq!(template.serialize_to_json_registry(), ENTITY_TYPE_REGISTRY);
    assert_eq!(
        template.instantiate(&build_context()).info_template(),
        template
    );
}

#[test]
fn java_parse_resource_resolves_existing_holder_reference() {
    let (result, cursor) = parse("skeleton trailing").unwrap();
    let holder = result.unwrap().unwrap();

    assert_eq!(holder.key().registry().to_string(), ENTITY_TYPE_REGISTRY);
    assert_eq!(holder.key().identifier().to_string(), "minecraft:skeleton");
    assert_eq!(result.as_printable(), "minecraft:skeleton");
    assert_eq!(cursor, "skeleton".len());
}

#[test]
fn java_parse_tag_resolves_existing_named_holder_set() {
    let (result, cursor) = parse("#skeletons trailing").unwrap();
    let tag = result.unwrap().unwrap_err();

    assert_eq!(tag.key().registry().to_string(), ENTITY_TYPE_REGISTRY);
    assert_eq!(tag.key().location().to_string(), "minecraft:skeletons");
    assert_eq!(result.as_printable(), "#minecraft:skeletons");
    assert_eq!(cursor, "#skeletons".len());
}

#[test]
fn java_parse_unknown_resource_preserves_identifier_cursor() {
    let mut reader = StringReaderModel::new("missing@tail");
    let error = argument().parse(&mut reader);

    assert_eq!(
        error,
        Err(ResourceOrTagParseError::UnknownResource {
            id: CommandIdentifierModel::parse("minecraft:missing").unwrap(),
            registry: CommandIdentifierModel::parse(ENTITY_TYPE_REGISTRY).unwrap(),
            cursor: "missing".len(),
        })
    );
    assert_eq!(reader.cursor(), "missing".len());
}

#[test]
fn java_parse_unknown_tag_and_tag_identifier_errors_reset_to_hash() {
    let mut unknown = StringReaderModel::new("#missing@tail");
    let unknown_error = argument().parse(&mut unknown);
    assert_eq!(
        unknown_error,
        Err(ResourceOrTagParseError::UnknownTag {
            id: CommandIdentifierModel::parse("minecraft:missing").unwrap(),
            registry: CommandIdentifierModel::parse(ENTITY_TYPE_REGISTRY).unwrap(),
            cursor: "#missing".len(),
        })
    );
    assert_eq!(unknown.cursor(), 0);

    let mut invalid = StringReaderModel::new("#..:bad trailing");
    let invalid_error = argument().parse(&mut invalid);
    assert_eq!(
        invalid_error,
        Err(ResourceOrTagParseError::Identifier(
            IdentifierArgumentParseError::InvalidIdentifier
        ))
    );
    assert_eq!(invalid.cursor(), 0);
}

#[test]
fn java_resource_identifier_errors_reset_to_original_cursor() {
    let mut reader = StringReaderModel::new("..:bad trailing");
    let error = argument().parse(&mut reader);

    assert_eq!(
        error,
        Err(ResourceOrTagParseError::Identifier(
            IdentifierArgumentParseError::InvalidIdentifier
        ))
    );
    assert_eq!(reader.cursor(), 0);
}

#[test]
fn command_resource_or_tag_argument_java_result_cast_preserves_matching_registry_and_rejects_mismatches() {
    let (resource, _) = parse("skeleton").unwrap();
    let (tag, _) = parse("#skeletons").unwrap();
    let entity_registry = CommandIdentifierModel::parse(ENTITY_TYPE_REGISTRY).unwrap();
    let feature_registry = CommandIdentifierModel::parse(CONFIGURED_FEATURE_REGISTRY).unwrap();

    assert_eq!(resource.cast(&entity_registry), Some(resource.clone()));
    assert_eq!(tag.cast(&entity_registry), Some(tag.clone()));
    assert_eq!(resource.cast(&feature_registry), None);
    assert_eq!(tag.cast(&feature_registry), None);
}

#[test]
fn java_context_getter_returns_cast_result_or_type_specific_exception() {
    let (resource, _) = parse("skeleton").unwrap();
    let (tag, _) = parse("#skeletons").unwrap();
    let resource_context =
        CommandContextModel::default().with_result("target", resource.clone());
    let tag_context = CommandContextModel::default().with_result("target", tag.clone());

    assert_eq!(
        get_resource_or_tag(&resource_context, "target", ENTITY_TYPE_REGISTRY),
        Ok(resource)
    );
    assert_eq!(
        get_resource_or_tag(&resource_context, "target", CONFIGURED_FEATURE_REGISTRY),
        Err(ResourceOrTagLookupError::InvalidResourceType {
            id: Box::new(CommandIdentifierModel::parse("minecraft:skeleton").unwrap()),
            actual_registry: Box::new(
                CommandIdentifierModel::parse(ENTITY_TYPE_REGISTRY).unwrap()
            ),
            expected_registry: Box::new(
                CommandIdentifierModel::parse(CONFIGURED_FEATURE_REGISTRY).unwrap()
            ),
        })
    );
    assert_eq!(
        get_resource_or_tag(&tag_context, "target", CONFIGURED_FEATURE_REGISTRY),
        Err(ResourceOrTagLookupError::InvalidTagType {
            id: Box::new(CommandIdentifierModel::parse("minecraft:skeletons").unwrap()),
            actual_registry: Box::new(
                CommandIdentifierModel::parse(ENTITY_TYPE_REGISTRY).unwrap()
            ),
            expected_registry: Box::new(
                CommandIdentifierModel::parse(CONFIGURED_FEATURE_REGISTRY).unwrap()
            ),
        })
    );
    assert_eq!(
        get_resource_or_tag(&tag_context, "missing", ENTITY_TYPE_REGISTRY),
        Err(ResourceOrTagLookupError::MissingArgument)
    );
}

#[test]
fn java_result_test_uses_holder_equality_or_named_tag_membership() {
    let (resource, _) = parse("skeleton").unwrap();
    let (tag, _) = parse("#skeletons").unwrap();
    let skeleton = argument()
        .registry_lookup
        .get_resource(&ResourceKeyModel::create(
            CommandIdentifierModel::parse(ENTITY_TYPE_REGISTRY).unwrap(),
            CommandIdentifierModel::parse("minecraft:skeleton").unwrap(),
        ))
        .unwrap();
    let zombie = argument()
        .registry_lookup
        .get_resource(&ResourceKeyModel::create(
            CommandIdentifierModel::parse(ENTITY_TYPE_REGISTRY).unwrap(),
            CommandIdentifierModel::parse("minecraft:zombie").unwrap(),
        ))
        .unwrap();

    assert!(resource.test(&skeleton));
    assert!(!resource.test(&zombie));
    assert!(tag.test(&skeleton));
    assert!(!tag.test(&zombie));
}

#[test]
fn command_resource_or_tag_argument_java_suggestions_delegate_to_shared_registry_all_suggestions() {
    let context = CommandContextModel::default().with_source(suggestion_source());
    let argument = argument();

    assert_eq!(
        argument.list_suggestions(&context, ""),
        [
            "#minecraft:skeletons",
            "#minecraft:undead",
            "minecraft:skeleton",
            "minecraft:zombie",
            "custom:skeleton"
        ]
    );
    assert_eq!(
        argument.list_suggestions(&context, "#skel"),
        ["#minecraft:skeletons"]
    );
    assert_eq!(
        argument.list_suggestions(&context, "custom:s"),
        ["custom:skeleton"]
    );

    let other = CommandContextModel::default().with_source(CommandSourceModel::Other);
    assert_eq!(argument.list_suggestions(&other, ""), Vec::<String>::new());

    assert!(ElementSuggestionType::All.should_suggest_tags());
    assert!(ElementSuggestionType::All.should_suggest_elements());
    assert!(!ElementSuggestionType::Elements.should_suggest_tags());
    assert!(!ElementSuggestionType::Tags.should_suggest_elements());
}
