use lib::command_objective_argument::{ObjectiveArgumentModel, CommandContextModel, CommandSourceModel, CommandSourceStackModel, SharedSuggestionProviderModel, ServerModel, ScoreboardModel, ObjectiveModel, ObjectiveCriteriaModel, ObjectiveArgumentError, StringReaderModel, get_objective, get_writable_objective};
use lib::command_shared_suggestion_provider::{SuggestionModel, SuggestionsBuilderModel};
fn command_context(scoreboard: ScoreboardModel) -> CommandContextModel {
    CommandContextModel::new(CommandSourceModel::CommandSourceStack(
        CommandSourceStackModel::new(ServerModel::new(scoreboard)),
    ))
}

fn suggestion_values(suggestions: Vec<SuggestionModel>) -> Vec<String> {
    suggestions
        .into_iter()
        .map(|suggestion| suggestion.value)
        .collect()
}

#[test]
fn java_factory_examples_and_unquoted_parse_match_source() {
    assert_eq!(
        ObjectiveArgumentModel::objective().examples(),
        ["foo", "*", "012"]
    );

    let mut reader = StringReaderModel::new("kills.total trailing");
    let parsed = ObjectiveArgumentModel::objective().parse(&mut reader);
    assert_eq!(parsed, "kills.total");
    assert_eq!(reader.cursor(), "kills.total".len());

    let mut empty = StringReaderModel::new("");
    assert_eq!(ObjectiveArgumentModel::objective().parse(&mut empty), "");
    assert_eq!(empty.cursor(), 0);
}

#[test]
fn java_get_objective_uses_context_string_and_server_scoreboard() {
    let scoreboard = ScoreboardModel::default()
        .add_objective("kills", ObjectiveCriteriaModel::Dummy)
        .add_objective("health", ObjectiveCriteriaModel::Health);
    let context = command_context(scoreboard).with_string("target", "kills");

    let objective = get_objective(&context, "target").unwrap();
    assert_eq!(objective.name(), "kills");
    assert_eq!(objective.display_name(), "kills");
    assert_eq!(objective.criteria().name(), "dummy");
    assert!(!objective.criteria().is_read_only());
}

#[test]
fn java_criteria_read_only_flags_cover_custom_and_read_only_criteria() {
    assert_eq!(ObjectiveCriteriaModel::Dummy.name(), "dummy");
    assert_eq!(ObjectiveCriteriaModel::Trigger.name(), "trigger");
    assert_eq!(ObjectiveCriteriaModel::Health.name(), "health");
    assert_eq!(ObjectiveCriteriaModel::Food.name(), "food");
    assert!(!ObjectiveCriteriaModel::Dummy.is_read_only());
    assert!(!ObjectiveCriteriaModel::Trigger.is_read_only());
    assert!(ObjectiveCriteriaModel::Health.is_read_only());
    assert!(ObjectiveCriteriaModel::Food.is_read_only());
}

#[test]
fn java_get_objective_reports_requested_missing_name() {
    let scoreboard =
        ScoreboardModel::default().add_objective("kills", ObjectiveCriteriaModel::Dummy);
    let context = command_context(scoreboard).with_string("target", "missing");

    assert_eq!(
        get_objective(&context, "target"),
        Err(ObjectiveArgumentError::ObjectiveNotFound {
            name: "missing".to_string()
        })
    );
}

#[test]
fn java_get_writable_objective_rejects_read_only_criteria_by_objective_name() {
    let scoreboard = ScoreboardModel::default()
        .add_objective("healthbar", ObjectiveCriteriaModel::Health)
        .add_objective("triggerable", ObjectiveCriteriaModel::Trigger);

    let read_only_context =
        command_context(scoreboard.clone()).with_string("target", "healthbar");
    assert_eq!(
        get_writable_objective(&read_only_context, "target"),
        Err(ObjectiveArgumentError::ObjectiveReadOnly {
            name: "healthbar".to_string()
        })
    );

    let writable_context = command_context(scoreboard).with_string("target", "triggerable");
    assert_eq!(
        get_writable_objective(&writable_context, "target")
            .unwrap()
            .name(),
        "triggerable"
    );
}

#[test]
fn java_missing_argument_and_wrong_source_are_distinct_model_errors() {
    let scoreboard =
        ScoreboardModel::default().add_objective("kills", ObjectiveCriteriaModel::Dummy);
    let context = command_context(scoreboard);
    assert_eq!(
        get_objective(&context, "target"),
        Err(ObjectiveArgumentError::MissingArgument {
            name: "target".to_string()
        })
    );

    let other_source =
        CommandContextModel::new(CommandSourceModel::Other).with_string("target", "kills");
    assert_eq!(
        get_objective(&other_source, "target"),
        Err(ObjectiveArgumentError::MissingScoreboardSource)
    );
}

#[test]
fn java_suggestions_use_scoreboard_names_for_command_source_stack() {
    let scoreboard = ScoreboardModel::default()
        .add_objective("kills", ObjectiveCriteriaModel::Dummy)
        .add_objective("deaths", ObjectiveCriteriaModel::Dummy)
        .add_objective("player_kills", ObjectiveCriteriaModel::Dummy);
    let context = command_context(scoreboard);
    let mut builder = SuggestionsBuilderModel::new("kills");

    assert_eq!(
        suggestion_values(
            ObjectiveArgumentModel::objective().list_suggestions(&context, &mut builder)
        ),
        vec!["kills".to_string(), "player_kills".to_string()]
    );
}

#[test]
fn java_suggestions_fall_back_to_custom_provider_or_empty() {
    let custom = vec![SuggestionModel {
        value: "custom-objective".to_string(),
        tooltip: None,
    }];
    let provider_context =
        CommandContextModel::new(CommandSourceModel::SharedSuggestionProvider(
            SharedSuggestionProviderModel::new(custom.clone()),
        ));
    let mut builder = SuggestionsBuilderModel::new("");
    assert_eq!(
        ObjectiveArgumentModel::objective().list_suggestions(&provider_context, &mut builder),
        custom
    );

    let other_context = CommandContextModel::new(CommandSourceModel::Other);
    let mut other_builder = SuggestionsBuilderModel::new("");
    assert!(ObjectiveArgumentModel::objective()
        .list_suggestions(&other_context, &mut other_builder)
        .is_empty());
}
