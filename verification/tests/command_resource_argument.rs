use lib::command_resource_argument::{ResourceArgumentModel, HolderReferenceModel, ResourceValueModel, ResourceValueKind, ResourceArgumentParseError, ResourceLookupError, CommandBuildContextModel, CommandContextModel, CommandSourceModel, SharedSuggestionProviderModel, ElementSuggestionType, CommandIdentifierModel, IdentifierArgumentParseError, StringReaderModel, get_resource, get_attribute, get_configured_feature, get_structure, get_entity_type, get_summonable_entity_type, get_mob_effect, get_enchantment, get_clock, get_timeline};
const ATTRIBUTE_REGISTRY: &str = "minecraft:attribute";
const CONFIGURED_FEATURE_REGISTRY: &str = "minecraft:worldgen/configured_feature";
const STRUCTURE_REGISTRY: &str = "minecraft:worldgen/structure";
const ENTITY_TYPE_REGISTRY: &str = "minecraft:entity_type";
const MOB_EFFECT_REGISTRY: &str = "minecraft:mob_effect";
const ENCHANTMENT_REGISTRY: &str = "minecraft:enchantment";
const WORLD_CLOCK_REGISTRY: &str = "minecraft:world_clock";
const TIMELINE_REGISTRY: &str = "minecraft:timeline";

fn build_context() -> CommandBuildContextModel {
    CommandBuildContextModel::default()
        .with_registry(
            ATTRIBUTE_REGISTRY,
            &[(
                "minecraft:generic.max_health",
                ResourceValueModel::simple(ResourceValueKind::Attribute),
            )],
        )
        .with_registry(
            CONFIGURED_FEATURE_REGISTRY,
            &[
                (
                    "minecraft:ore/diamond",
                    ResourceValueModel::simple(ResourceValueKind::ConfiguredFeature),
                ),
                (
                    "custom:lake",
                    ResourceValueModel::simple(ResourceValueKind::ConfiguredFeature),
                ),
            ],
        )
        .with_registry(
            STRUCTURE_REGISTRY,
            &[(
                "minecraft:village",
                ResourceValueModel::simple(ResourceValueKind::Structure),
            )],
        )
        .with_registry(
            ENTITY_TYPE_REGISTRY,
            &[
                ("minecraft:pig", ResourceValueModel::entity_type(true)),
                ("minecraft:player", ResourceValueModel::entity_type(false)),
            ],
        )
        .with_registry(
            MOB_EFFECT_REGISTRY,
            &[(
                "minecraft:speed",
                ResourceValueModel::simple(ResourceValueKind::MobEffect),
            )],
        )
        .with_registry(
            ENCHANTMENT_REGISTRY,
            &[(
                "minecraft:sharpness",
                ResourceValueModel::simple(ResourceValueKind::Enchantment),
            )],
        )
        .with_registry(
            WORLD_CLOCK_REGISTRY,
            &[(
                "minecraft:overworld",
                ResourceValueModel::simple(ResourceValueKind::WorldClock),
            )],
        )
        .with_registry(
            TIMELINE_REGISTRY,
            &[(
                "minecraft:story",
                ResourceValueModel::simple(ResourceValueKind::Timeline),
            )],
        )
}

fn shared_source() -> CommandSourceModel {
    CommandSourceModel::Shared(SharedSuggestionProviderModel::from_build_context(build_context()))
}

fn argument(registry: &str) -> ResourceArgumentModel {
    ResourceArgumentModel::resource(&build_context(), registry)
}

fn parse(
    registry: &str,
    input: &str,
) -> Result<(HolderReferenceModel, usize), ResourceArgumentParseError> {
    let mut reader = StringReaderModel::new(input);
    let holder = argument(registry).parse(&mut reader)?;
    Ok((holder, reader.cursor()))
}

fn context_with(name: &str, holder: HolderReferenceModel) -> CommandContextModel {
    CommandContextModel::default()
        .with_source(shared_source())
        .with_holder(name, holder)
}

#[test]
fn command_resource_argument_java_factory_examples_and_info_template_match_source() {
    let argument = argument(CONFIGURED_FEATURE_REGISTRY);
    assert_eq!(argument.examples(), ["foo", "foo:bar", "012"]);

    let template = argument.info_template();
    assert_eq!(template.serialize_to_network(), CONFIGURED_FEATURE_REGISTRY);
    assert_eq!(
        template.serialize_to_json_registry(),
        CONFIGURED_FEATURE_REGISTRY
    );
    assert_eq!(
        template.instantiate(&build_context()).info_template(),
        template
    );
}

#[test]
fn java_parse_delegates_to_identifier_read_and_returns_holder_reference() {
    let (defaulted, cursor) =
        parse(CONFIGURED_FEATURE_REGISTRY, "ore/diamond trailing").unwrap();
    assert_eq!(
        defaulted.key().registry().to_string(),
        CONFIGURED_FEATURE_REGISTRY
    );
    assert_eq!(
        defaulted.key().identifier().to_string(),
        "minecraft:ore/diamond"
    );
    assert_eq!(
        defaulted.value().kind(),
        ResourceValueKind::ConfiguredFeature
    );
    assert_eq!(cursor, "ore/diamond".len());

    let (explicit, cursor) = parse(CONFIGURED_FEATURE_REGISTRY, "custom:lake").unwrap();
    assert_eq!(explicit.key().identifier().to_string(), "custom:lake");
    assert_eq!(cursor, "custom:lake".len());
}

#[test]
fn java_parse_resets_cursor_only_for_identifier_syntax_errors() {
    let mut reader = StringReaderModel::new("..:bad trailing");
    let error = argument(CONFIGURED_FEATURE_REGISTRY).parse(&mut reader);

    assert_eq!(
        error,
        Err(ResourceArgumentParseError::Identifier(
            IdentifierArgumentParseError::InvalidIdentifier
        ))
    );
    assert_eq!(reader.cursor(), 0);
}

#[test]
fn java_parse_unknown_resource_uses_reader_context_after_successful_identifier() {
    let mut reader = StringReaderModel::new("missing@tail");
    let error = argument(CONFIGURED_FEATURE_REGISTRY).parse(&mut reader);

    assert_eq!(
        error,
        Err(ResourceArgumentParseError::UnknownResource {
            id: CommandIdentifierModel::parse("minecraft:missing").unwrap(),
            registry: CommandIdentifierModel::parse(CONFIGURED_FEATURE_REGISTRY).unwrap(),
            cursor: "missing".len(),
        })
    );
    assert_eq!(reader.cursor(), "missing".len());
}

#[test]
fn java_get_resource_accepts_matching_registry_and_rejects_wrong_registry() {
    let holder = parse(CONFIGURED_FEATURE_REGISTRY, "ore/diamond").unwrap().0;
    let context = context_with("target", holder.clone());

    assert_eq!(
        get_resource(&context, "target", CONFIGURED_FEATURE_REGISTRY),
        Ok(holder)
    );
    assert_eq!(
        get_resource(&context, "target", STRUCTURE_REGISTRY),
        Err(ResourceLookupError::InvalidResourceType {
            id: Box::new(CommandIdentifierModel::parse("minecraft:ore/diamond").unwrap()),
            actual_registry: Box::new(
                CommandIdentifierModel::parse(CONFIGURED_FEATURE_REGISTRY).unwrap()
            ),
            expected_registry: Box::new(
                CommandIdentifierModel::parse(STRUCTURE_REGISTRY).unwrap()
            ),
        })
    );
    assert_eq!(
        get_resource(&context, "missing", CONFIGURED_FEATURE_REGISTRY),
        Err(ResourceLookupError::MissingArgument)
    );
}

#[test]
fn java_typed_getters_delegate_to_get_resource_registry_checks() {
    type Getter =
        fn(&CommandContextModel, &str) -> Result<HolderReferenceModel, ResourceLookupError>;
    type GetterCase = (Getter, &'static str, &'static str, ResourceValueKind);

    let cases: [GetterCase; 8] = [
        (
            get_attribute,
            ATTRIBUTE_REGISTRY,
            "minecraft:generic.max_health",
            ResourceValueKind::Attribute,
        ),
        (
            get_configured_feature,
            CONFIGURED_FEATURE_REGISTRY,
            "minecraft:ore/diamond",
            ResourceValueKind::ConfiguredFeature,
        ),
        (
            get_structure,
            STRUCTURE_REGISTRY,
            "minecraft:village",
            ResourceValueKind::Structure,
        ),
        (
            get_entity_type,
            ENTITY_TYPE_REGISTRY,
            "minecraft:pig",
            ResourceValueKind::EntityType,
        ),
        (
            get_mob_effect,
            MOB_EFFECT_REGISTRY,
            "minecraft:speed",
            ResourceValueKind::MobEffect,
        ),
        (
            get_enchantment,
            ENCHANTMENT_REGISTRY,
            "minecraft:sharpness",
            ResourceValueKind::Enchantment,
        ),
        (
            get_clock,
            WORLD_CLOCK_REGISTRY,
            "minecraft:overworld",
            ResourceValueKind::WorldClock,
        ),
        (
            get_timeline,
            TIMELINE_REGISTRY,
            "minecraft:story",
            ResourceValueKind::Timeline,
        ),
    ];

    for (getter, registry, id, expected_kind) in cases {
        let holder = parse(registry, id).unwrap().0;
        let context = context_with("target", holder.clone());

        assert_eq!(
            getter(&context, "target").unwrap().value().kind(),
            expected_kind
        );
        assert_eq!(getter(&context, "target").unwrap(), holder);
    }
}

#[test]
fn java_summonable_entity_type_checks_entity_type_summon_flag() {
    let pig = parse(ENTITY_TYPE_REGISTRY, "pig").unwrap().0;
    let pig_context = context_with("entity", pig.clone());
    assert_eq!(get_summonable_entity_type(&pig_context, "entity"), Ok(pig));

    let player = parse(ENTITY_TYPE_REGISTRY, "player").unwrap().0;
    let player_context = context_with("entity", player);
    assert_eq!(
        get_summonable_entity_type(&player_context, "entity"),
        Err(ResourceLookupError::NotSummonableEntity(
            "minecraft:player".to_string()
        ))
    );

    let feature = parse(CONFIGURED_FEATURE_REGISTRY, "ore/diamond").unwrap().0;
    let wrong_context = context_with("entity", feature);
    assert!(matches!(
        get_summonable_entity_type(&wrong_context, "entity"),
        Err(ResourceLookupError::InvalidResourceType { .. })
    ));
}

#[test]
fn command_resource_argument_java_suggestions_delegate_to_shared_registry_element_suggestions() {
    let context = CommandContextModel::default().with_source(shared_source());
    let argument = argument(CONFIGURED_FEATURE_REGISTRY);

    assert_eq!(
        argument.list_suggestions(&context, ""),
        ["minecraft:ore/diamond", "custom:lake"]
    );
    assert_eq!(
        argument.list_suggestions(&context, "ore/"),
        ["minecraft:ore/diamond"]
    );
    assert_eq!(
        argument.list_suggestions(&context, "custom:l"),
        ["custom:lake"]
    );

    let other_source = CommandContextModel::default().with_source(CommandSourceModel::Other);
    assert_eq!(
        argument.list_suggestions(&other_source, ""),
        Vec::<String>::new()
    );

    assert!(!ElementSuggestionType::Tags.should_suggest_elements());
    assert!(ElementSuggestionType::All.should_suggest_elements());
}
