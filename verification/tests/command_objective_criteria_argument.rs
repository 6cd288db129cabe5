use lib::command_objective_criteria_argument::{ObjectiveCriteriaArgumentModel, CommandContextModel, CriteriaRegistryModel, ObjectiveCriteriaModel, RenderTypeModel, StatTypeModel, StatValueModel, StatModel, IdentifierModel, StringReaderModel, ObjectiveCriteriaParseError, get_criteria};
use lib::command_shared_suggestion_provider::{SuggestionModel, SuggestionsBuilderModel};
fn sample_registry() -> CriteriaRegistryModel {
    CriteriaRegistryModel::java_subset().with_stat_type(StatTypeModel::new(
        IdentifierModel::parse("minecraft:mined"),
        vec![
            StatValueModel::new(IdentifierModel::parse("minecraft:stone")),
            StatValueModel::new(IdentifierModel::parse("minecraft:custom/path")),
        ],
    ))
}

fn suggestion_values(suggestions: Vec<SuggestionModel>) -> Vec<String> {
    suggestions
        .into_iter()
        .map(|suggestion| suggestion.value)
        .collect()
}

#[test]
fn command_objective_criteria_argument_java_factory_examples_and_context_lookup_match_source() {
    let argument = ObjectiveCriteriaArgumentModel::criteria();
    assert_eq!(argument.examples(), ["foo", "foo.bar.baz", "minecraft:foo"]);

    let criteria = ObjectiveCriteriaModel::custom("dummy");
    let context = CommandContextModel::default().with_criteria("criteria", criteria.clone());
    assert_eq!(get_criteria(&context, "criteria"), Some(criteria));
    assert_eq!(get_criteria(&context, "missing"), None);
}

#[test]
fn java_custom_criteria_metadata_matches_source_shape() {
    let registry = CriteriaRegistryModel::java_subset();
    let names = registry.custom_criteria_names();

    assert_eq!(names.len(), 43);
    assert!(names.contains(&"dummy".to_string()));
    assert!(names.contains(&"health".to_string()));
    assert!(names.contains(&"teamkill.dark_purple".to_string()));
    assert!(names.contains(&"killedByTeam.white".to_string()));

    let health = registry.by_name("health").unwrap();
    assert!(health.is_read_only());
    assert_eq!(health.default_render_type(), RenderTypeModel::Hearts);
    assert_eq!(RenderTypeModel::Integer.id(), "integer");
    assert_eq!(RenderTypeModel::Hearts.id(), "hearts");
}

#[test]
fn java_parse_reads_until_space_and_resolves_custom_criteria() {
    let argument = ObjectiveCriteriaArgumentModel::with_registry(sample_registry());
    let mut reader = StringReaderModel::new("teamkill.dark_blue rest");

    let parsed = argument.parse(&mut reader).unwrap();

    assert_eq!(parsed.name(), "teamkill.dark_blue");
    assert_eq!(reader.cursor(), "teamkill.dark_blue".len());
}

#[test]
fn java_parse_resolves_stat_criteria_by_separator_and_build_name() {
    let argument = ObjectiveCriteriaArgumentModel::with_registry(sample_registry());
    let mut reader = StringReaderModel::new("minecraft.mined:minecraft.stone rest");

    let parsed = argument.parse(&mut reader).unwrap();

    assert_eq!(parsed.name(), "minecraft.mined:minecraft.stone");
    assert_eq!(reader.cursor(), "minecraft.mined:minecraft.stone".len());
}

#[test]
fn java_invalid_criteria_resets_reader_cursor() {
    let argument = ObjectiveCriteriaArgumentModel::with_registry(sample_registry());
    let mut reader = StringReaderModel::new("missing.criteria rest");

    assert_eq!(
        argument.parse(&mut reader),
        Err(ObjectiveCriteriaParseError::InvalidValue {
            value: "missing.criteria".to_string()
        })
    );
    assert_eq!(reader.cursor(), 0);
}

#[test]
fn java_empty_token_is_invalid_and_keeps_cursor_at_start() {
    let argument = ObjectiveCriteriaArgumentModel::with_registry(sample_registry());
    let mut reader = StringReaderModel::new("");

    assert_eq!(
        argument.parse(&mut reader),
        Err(ObjectiveCriteriaParseError::InvalidValue {
            value: String::new()
        })
    );
    assert_eq!(reader.cursor(), 0);
}

#[test]
fn java_get_name_matches_stat_build_name_location_to_key_conversion() {
    let stat_type = StatTypeModel::new(
        IdentifierModel::parse("minecraft:custom"),
        vec![StatValueModel::new(IdentifierModel::parse(
            "minecraft:leave_game",
        ))],
    );
    let value = &stat_type.values[0];

    assert_eq!(
        ObjectiveCriteriaArgumentModel::get_name(&stat_type, value),
        "minecraft.custom:minecraft.leave_game"
    );
}

#[test]
fn java_suggestions_include_custom_criteria_then_stat_entries() {
    let argument = ObjectiveCriteriaArgumentModel::with_registry(sample_registry());
    let mut builder = SuggestionsBuilderModel::new("minecraft.mined");

    assert_eq!(
        suggestion_values(argument.list_suggestions(&mut builder)),
        vec![
            "minecraft.mined:minecraft.stone".to_string(),
            "minecraft.mined:minecraft.custom/path".to_string(),
        ]
    );
}

#[test]
fn built_stat_name_looks_the_stat_up_again() {
    let registry = sample_registry();
    let mined = StatTypeModel::new(
        IdentifierModel::parse("minecraft:mined"),
        vec![StatValueModel::new(IdentifierModel::parse("minecraft:stone"))],
    );
    let stone = StatValueModel::new(IdentifierModel::parse("minecraft:stone"));
    let name = StatModel::build_name(&mined, &stone);
    assert_eq!(name, "minecraft.mined:minecraft.stone");
    let found = registry.by_name(&name).unwrap();
    assert_eq!(found, ObjectiveCriteriaModel::stat(&name));
    assert!(!found.is_read_only());
    assert_eq!(found.default_render_type(), RenderTypeModel::Integer);
}

#[test]
fn suggestions_offer_custom_then_stat_names_matching_the_text() {
    let argument = ObjectiveCriteriaArgumentModel::with_registry(sample_registry());
    let mut builder = SuggestionsBuilderModel::new("minecraft.mined");
    let values = suggestion_values(argument.list_suggestions(&mut builder));
    assert_eq!(
        values,
        vec![
            "minecraft.mined:minecraft.stone".to_string(),
            "minecraft.mined:minecraft.custom/path".to_string()
        ]
    );
    assert_eq!(builder.remaining(), "minecraft.mined");
}

#[test]
fn built_in_criteria_table_is_in_order_with_its_flags() {
    let all = ObjectiveCriteriaModel::java_custom_criteria();
    assert_eq!(all.len(), 43);
    assert_eq!(all[1].name(), "trigger");
    assert!(!all[1].is_read_only());
    assert_eq!(all[2].name(), "deathCount");
    assert_eq!(all[6].name(), "food");
    assert!(all[6].is_read_only());
    assert_eq!(all[11].name(), "teamkill.black");
    assert_eq!(all[42].name(), "killedByTeam.white");
    let argument = ObjectiveCriteriaArgumentModel::criteria();
    let mut reader = StringReaderModel::new("trigger");
    assert_eq!(argument.parse(&mut reader).unwrap().name(), "trigger");
}
