use lib::command_resource_key_argument::{ResourceKeyArgumentModel, ResourceKeyModel, CommandContextModel, CommandSourceModel, SharedSuggestionProviderModel, ElementSuggestionType, ResourceKeyErrorKind, ResourceKeyLookupError, CommandIdentifierModel, IdentifierArgumentParseError, StringReaderModel, get_registry_key, get_configured_feature, get_structure, get_structure_template_pool, get_recipe, get_advancement};
const CONFIGURED_FEATURE_REGISTRY: &str = "minecraft:worldgen/configured_feature";
const STRUCTURE_REGISTRY: &str = "minecraft:worldgen/structure";
const TEMPLATE_POOL_REGISTRY: &str = "minecraft:worldgen/template_pool";
const RECIPE_REGISTRY: &str = "minecraft:recipe";
const ADVANCEMENT_REGISTRY: &str = "minecraft:advancement";

fn source() -> CommandSourceModel {
    CommandSourceModel::Shared(
        SharedSuggestionProviderModel::default()
            .with_registry(CONFIGURED_FEATURE_REGISTRY, &["minecraft:ore/diamond", "custom:lake"])
            .with_registry(STRUCTURE_REGISTRY, &["minecraft:village", "custom:tower"])
            .with_registry(TEMPLATE_POOL_REGISTRY, &["minecraft:village/plains/town_centers"])
            .with_recipe("minecraft:bread")
            .with_advancement("minecraft:story/root"),
    )
}

fn resource_key(registry: &str, id: &str) -> ResourceKeyModel {
    ResourceKeyModel::create(
        CommandIdentifierModel::parse(registry).unwrap(),
        CommandIdentifierModel::parse(id).unwrap(),
    )
}

fn context_with(name: &str, key: ResourceKeyModel) -> CommandContextModel {
    CommandContextModel::default()
        .with_source(source())
        .with_resource_key(name, key)
}

fn parse(input: &str) -> Result<(ResourceKeyModel, usize), IdentifierArgumentParseError> {
    let mut reader = StringReaderModel::new(input);
    let key = ResourceKeyArgumentModel::key(CONFIGURED_FEATURE_REGISTRY).parse(&mut reader)?;
    Ok((key, reader.cursor()))
}

#[test]
fn command_resource_key_argument_java_factory_examples_and_info_template_match_source() {
    let argument = ResourceKeyArgumentModel::key(CONFIGURED_FEATURE_REGISTRY);
    assert_eq!(argument.examples(), ["foo", "foo:bar", "012"]);

    let template = argument.info_template();
    assert_eq!(template.serialize_to_network(), CONFIGURED_FEATURE_REGISTRY);
    assert_eq!(
        template.serialize_to_json_registry(),
        CONFIGURED_FEATURE_REGISTRY
    );
    assert_eq!(template.instantiate().info_template(), template);
}

#[test]
fn java_parse_delegates_to_identifier_read_and_wraps_registry_key() {
    let (defaulted, defaulted_cursor) = parse("ore/diamond trailing").unwrap();
    assert_eq!(
        defaulted.registry().to_string(),
        CONFIGURED_FEATURE_REGISTRY
    );
    assert_eq!(defaulted.identifier().to_string(), "minecraft:ore/diamond");
    assert_eq!(defaulted_cursor, "ore/diamond".len());

    let (explicit, explicit_cursor) = parse("custom:lake").unwrap();
    assert_eq!(explicit.registry().to_string(), CONFIGURED_FEATURE_REGISTRY);
    assert_eq!(explicit.identifier().to_string(), "custom:lake");
    assert_eq!(explicit_cursor, "custom:lake".len());
}

#[test]
fn command_resource_key_argument_java_invalid_identifier_parse_resets_cursor() {
    let mut reader = StringReaderModel::new("..:bad trailing");
    let error = ResourceKeyArgumentModel::key(CONFIGURED_FEATURE_REGISTRY).parse(&mut reader);

    assert_eq!(error, Err(IdentifierArgumentParseError::InvalidIdentifier));
    assert_eq!(reader.cursor(), 0);
}

#[test]
fn java_get_registry_key_casts_by_registry_or_throws_given_exception() {
    let key = resource_key(CONFIGURED_FEATURE_REGISTRY, "minecraft:ore/diamond");
    let context = context_with("target", key.clone());

    assert_eq!(
        get_registry_key(
            &context,
            "target",
            CONFIGURED_FEATURE_REGISTRY,
            ResourceKeyErrorKind::Feature
        ),
        Ok(key.clone())
    );
    assert_eq!(
        key.cast(&CommandIdentifierModel::parse(CONFIGURED_FEATURE_REGISTRY).unwrap()),
        Some(key.clone())
    );
    assert_eq!(
        key.cast(&CommandIdentifierModel::parse(STRUCTURE_REGISTRY).unwrap()),
        None
    );

    assert_eq!(
        get_registry_key(
            &context,
            "target",
            STRUCTURE_REGISTRY,
            ResourceKeyErrorKind::Structure
        ),
        Err(ResourceKeyLookupError::Dynamic {
            kind: ResourceKeyErrorKind::Structure,
            value: CommandIdentifierModel::parse("minecraft:ore/diamond").unwrap(),
        })
    );
    assert_eq!(
        get_registry_key(
            &context,
            "missing",
            CONFIGURED_FEATURE_REGISTRY,
            ResourceKeyErrorKind::Feature
        ),
        Err(ResourceKeyLookupError::MissingArgument)
    );
}

#[test]
fn java_resolve_key_helpers_read_server_registries() {
    let feature_context = context_with(
        "target",
        resource_key(CONFIGURED_FEATURE_REGISTRY, "minecraft:ore/diamond"),
    );
    let feature = get_configured_feature(&feature_context, "target").unwrap();
    assert_eq!(feature.value_name(), "holder:minecraft:ore/diamond");

    let structure_context =
        context_with("target", resource_key(STRUCTURE_REGISTRY, "custom:tower"));
    let structure = get_structure(&structure_context, "target").unwrap();
    assert_eq!(structure.value_name(), "holder:custom:tower");

    let pool_context = context_with(
        "target",
        resource_key(
            TEMPLATE_POOL_REGISTRY,
            "minecraft:village/plains/town_centers",
        ),
    );
    let pool = get_structure_template_pool(&pool_context, "target").unwrap();
    assert_eq!(
        pool.key().identifier().to_string(),
        "minecraft:village/plains/town_centers"
    );
}

#[test]
fn java_resolve_key_helpers_reuse_exception_for_wrong_registry_and_missing_element() {
    let wrong_registry = context_with(
        "target",
        resource_key(STRUCTURE_REGISTRY, "minecraft:village"),
    );
    assert_eq!(
        get_configured_feature(&wrong_registry, "target"),
        Err(ResourceKeyLookupError::Dynamic {
            kind: ResourceKeyErrorKind::Feature,
            value: CommandIdentifierModel::parse("minecraft:village").unwrap(),
        })
    );

    let missing = context_with(
        "target",
        resource_key(CONFIGURED_FEATURE_REGISTRY, "minecraft:missing"),
    );
    assert_eq!(
        get_configured_feature(&missing, "target"),
        Err(ResourceKeyLookupError::Dynamic {
            kind: ResourceKeyErrorKind::Feature,
            value: CommandIdentifierModel::parse("minecraft:missing").unwrap(),
        })
    );

    assert_eq!(
        ResourceKeyErrorKind::Feature.translation_key(),
        "commands.place.feature.invalid"
    );
    assert_eq!(
        ResourceKeyErrorKind::Structure.translation_key(),
        "commands.place.structure.invalid"
    );
    assert_eq!(
        ResourceKeyErrorKind::TemplatePool.translation_key(),
        "commands.place.jigsaw.invalid"
    );
}

#[test]
fn java_recipe_lookup_uses_recipe_manager_after_registry_cast() {
    let context = context_with("recipe", resource_key(RECIPE_REGISTRY, "minecraft:bread"));
    let recipe = get_recipe(&context, "recipe").unwrap();
    assert_eq!(recipe.key().identifier().to_string(), "minecraft:bread");
    assert_eq!(recipe.value_name(), "recipe:minecraft:bread");

    let wrong_registry = context_with(
        "recipe",
        resource_key(CONFIGURED_FEATURE_REGISTRY, "minecraft:bread"),
    );
    assert_eq!(
        get_recipe(&wrong_registry, "recipe"),
        Err(ResourceKeyLookupError::Dynamic {
            kind: ResourceKeyErrorKind::Recipe,
            value: CommandIdentifierModel::parse("minecraft:bread").unwrap(),
        })
    );

    let missing = context_with("recipe", resource_key(RECIPE_REGISTRY, "minecraft:missing"));
    assert_eq!(
        get_recipe(&missing, "recipe"),
        Err(ResourceKeyLookupError::Dynamic {
            kind: ResourceKeyErrorKind::Recipe,
            value: CommandIdentifierModel::parse("minecraft:missing").unwrap(),
        })
    );
    assert_eq!(
        ResourceKeyErrorKind::Recipe.translation_key(),
        "recipe.notFound"
    );
}

#[test]
fn java_advancement_lookup_uses_advancement_manager_identifier_map() {
    let context = context_with(
        "advancement",
        resource_key(ADVANCEMENT_REGISTRY, "minecraft:story/root"),
    );
    let advancement = get_advancement(&context, "advancement").unwrap();
    assert_eq!(advancement.id().to_string(), "minecraft:story/root");
    assert_eq!(advancement.value_name(), "advancement:minecraft:story/root");

    let missing = context_with(
        "advancement",
        resource_key(ADVANCEMENT_REGISTRY, "minecraft:story/missing"),
    );
    assert_eq!(
        get_advancement(&missing, "advancement"),
        Err(ResourceKeyLookupError::Dynamic {
            kind: ResourceKeyErrorKind::Advancement,
            value: CommandIdentifierModel::parse("minecraft:story/missing").unwrap(),
        })
    );
    assert_eq!(
        ResourceKeyErrorKind::Advancement.translation_key(),
        "advancement.advancementNotFound"
    );
}

#[test]
fn java_helpers_require_command_source_stack_server() {
    let context = CommandContextModel::default().with_resource_key(
        "target",
        resource_key(CONFIGURED_FEATURE_REGISTRY, "minecraft:ore/diamond"),
    );

    assert_eq!(
        get_configured_feature(&context, "target"),
        Err(ResourceKeyLookupError::MissingServer)
    );
}

#[test]
fn command_resource_key_argument_java_suggestions_delegate_to_shared_registry_element_suggestions() {
    let context = CommandContextModel::default().with_source(source());
    let argument = ResourceKeyArgumentModel::key(CONFIGURED_FEATURE_REGISTRY);

    assert_eq!(
        argument.list_suggestions(&context, ""),
        ["minecraft:ore/diamond", "custom:lake"]
    );
    assert_eq!(
        argument.list_suggestions(&context, "ore/"),
        ["minecraft:ore/diamond"]
    );
    assert_eq!(
        argument.list_suggestions(&context, "custom:l"),
        ["custom:lake"]
    );

    let other_source = CommandContextModel::default().with_source(CommandSourceModel::Other);
    assert_eq!(
        argument.list_suggestions(&other_source, ""),
        Vec::<String>::new()
    );

    assert!(!ElementSuggestionType::Tags.should_suggest_elements());
    assert!(ElementSuggestionType::All.should_suggest_elements());
}
