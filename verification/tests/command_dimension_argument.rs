use lib::command_dimension_argument::{DimensionArgumentModel, ResourceKeyModel, ServerLevelModel, SharedSuggestionProviderModel, CommandSourceModel, CommandContextModel, DimensionLookupError, CommandIdentifierModel, IdentifierArgumentParseError, StringReaderModel, get_dimension, suggestion_provider};
fn parse(input: &str) -> Result<(CommandIdentifierModel, usize), IdentifierArgumentParseError> {
    let mut reader = StringReaderModel::new(input);
    let identifier = DimensionArgumentModel::dimension().parse(&mut reader)?;
    Ok((identifier, reader.cursor()))
}

#[test]
fn java_dimension_factory_examples_and_resource_key_shape_match_source() {
    let argument = DimensionArgumentModel::dimension();
    assert_eq!(
        argument.examples(),
        ["minecraft:overworld", "minecraft:the_nether"]
    );

    let key = ResourceKeyModel::create(
        CommandIdentifierModel::parse("minecraft:dimension").unwrap(),
        CommandIdentifierModel::parse("minecraft:overworld").unwrap(),
    );
    assert_eq!(key.registry().to_string(), "minecraft:dimension");
    assert_eq!(key.identifier().to_string(), "minecraft:overworld");
    assert_eq!(key.registry_key().registry().to_string(), "minecraft:root");
    assert_eq!(
        key.registry_key().identifier().to_string(),
        "minecraft:dimension"
    );
}

#[test]
fn java_parse_delegates_to_identifier_read() {
    let (defaulted, defaulted_cursor) = parse("overworld trailing").unwrap();
    assert_eq!(defaulted.to_string(), "minecraft:overworld");
    assert_eq!(defaulted_cursor, "overworld".len());

    let (explicit, explicit_cursor) = parse("custom:moon/rest").unwrap();
    assert_eq!(explicit.namespace(), "custom");
    assert_eq!(explicit.path(), "moon/rest");
    assert_eq!(explicit_cursor, "custom:moon/rest".len());

    let (empty, empty_cursor) = parse("NotAllowed").unwrap();
    assert_eq!(empty.to_string(), "minecraft:");
    assert_eq!(empty_cursor, 0);
}

#[test]
fn command_dimension_argument_java_invalid_identifier_parse_resets_cursor() {
    let mut reader = StringReaderModel::new("..:bad trailing");
    let error = DimensionArgumentModel::dimension().parse(&mut reader);

    assert_eq!(error, Err(IdentifierArgumentParseError::InvalidIdentifier));
    assert_eq!(reader.cursor(), 0);
}

#[test]
fn java_get_dimension_wraps_identifier_in_dimension_resource_key() {
    let source = CommandSourceModel::Shared(suggestion_provider(&[
        "minecraft:overworld",
        "minecraft:the_nether",
    ]));
    let context = CommandContextModel::default()
        .with_source(source)
        .with_dimension_argument(
            "dimension",
            CommandIdentifierModel::parse("minecraft:the_nether").unwrap(),
        );

    let level = get_dimension(&context, "dimension").unwrap();
    assert_eq!(level.key().registry().to_string(), "minecraft:dimension");
    assert_eq!(level.key().identifier().to_string(), "minecraft:the_nether");
    assert_eq!(level.display_name(), "level:minecraft:the_nether");
}

#[test]
fn java_get_dimension_rejects_missing_or_unknown_dimensions() {
    let source = CommandSourceModel::Shared(suggestion_provider(&["minecraft:overworld"]));
    let missing_argument = CommandContextModel::default().with_source(source.clone());
    assert_eq!(
        get_dimension(&missing_argument, "dimension"),
        Err(DimensionLookupError::MissingArgument)
    );

    let unknown_level = CommandContextModel::default()
        .with_source(source)
        .with_dimension_argument(
            "dimension",
            CommandIdentifierModel::parse("minecraft:missing").unwrap(),
        );
    assert_eq!(
        get_dimension(&unknown_level, "dimension"),
        Err(DimensionLookupError::InvalidDimension(
            CommandIdentifierModel::parse("minecraft:missing").unwrap()
        ))
    );

    let without_server = CommandContextModel::default().with_dimension_argument(
        "dimension",
        CommandIdentifierModel::parse("minecraft:overworld").unwrap(),
    );
    assert_eq!(
        get_dimension(&without_server, "dimension"),
        Err(DimensionLookupError::MissingServer)
    );
}

#[test]
fn java_level_suggestions_require_shared_suggestion_provider_source() {
    let context = CommandContextModel::default().with_source(CommandSourceModel::Shared(
        suggestion_provider(&["minecraft:overworld", "minecraft:the_nether"]),
    ));
    let argument = DimensionArgumentModel::dimension();

    assert_eq!(
        argument.list_suggestions(&context, ""),
        ["minecraft:overworld", "minecraft:the_nether"]
    );
    assert_eq!(
        argument.list_suggestions(&context, "over"),
        ["minecraft:overworld"]
    );
    assert_eq!(
        argument.list_suggestions(&context, "the_"),
        ["minecraft:the_nether"]
    );
    assert_eq!(
        argument.list_suggestions(&context, "minecraft:t"),
        ["minecraft:the_nether"]
    );

    let non_shared = CommandContextModel::default().with_source(CommandSourceModel::Other);
    assert_eq!(
        argument.list_suggestions(&non_shared, ""),
        Vec::<String>::new()
    );
}
