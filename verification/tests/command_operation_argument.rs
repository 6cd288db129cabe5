use lib::command_operation_argument::{OperationArgumentModel, OperationModel, ScoreAccessModel, CommandContextModel, StringReaderModel, OperationArgumentError, get_operation};
use lib::command_shared_suggestion_provider::{SuggestionModel, SuggestionsBuilderModel};
fn parse(input: &str) -> Result<(OperationModel, usize), OperationArgumentError> {
    let mut reader = StringReaderModel::new(input);
    let operation = OperationArgumentModel::operation().parse(&mut reader)?;
    Ok((operation, reader.cursor()))
}

fn apply(
    operation: OperationModel,
    left: i32,
    right: i32,
) -> Result<i32, OperationArgumentError> {
    let mut left = ScoreAccessModel::new(left);
    let mut right = ScoreAccessModel::new(right);
    operation.apply(&mut left, &mut right)?;
    Ok(left.get())
}

fn suggestion_values(suggestions: Vec<SuggestionModel>) -> Vec<String> {
    suggestions
        .into_iter()
        .map(|suggestion| suggestion.value)
        .collect()
}

#[test]
fn command_operation_argument_java_factory_examples_and_context_lookup_match_source() {
    assert_eq!(
        OperationArgumentModel::operation().examples(),
        ["=", ">", "<"]
    );

    let context =
        CommandContextModel::default().with_operation("op", OperationModel::MultiplyAssign);
    assert_eq!(
        get_operation(&context, "op"),
        Some(OperationModel::MultiplyAssign)
    );
    assert_eq!(get_operation(&context, "missing"), None);
}

#[test]
fn java_parse_reads_until_space_and_keeps_cursor_on_valid_operation() {
    let (operation, cursor) = parse("+= trailing").unwrap();

    assert_eq!(operation, OperationModel::AddAssign);
    assert_eq!(cursor, "+=".len());
}

#[test]
fn java_parse_rejects_empty_input_without_cursor_movement() {
    let mut reader = StringReaderModel::new("");
    let error = OperationArgumentModel::operation().parse(&mut reader);

    assert_eq!(error, Err(OperationArgumentError::InvalidOperation));
    assert_eq!(reader.cursor(), 0);
}

#[test]
fn java_parse_rejects_unknown_operation_without_cursor_reset() {
    let mut reader = StringReaderModel::new("?? trailing");
    let error = OperationArgumentModel::operation().parse(&mut reader);

    assert_eq!(error, Err(OperationArgumentError::InvalidOperation));
    assert_eq!(reader.cursor(), "??".len());
}

#[test]
fn java_suggestions_include_all_operation_tokens_in_source_order() {
    let mut builder = SuggestionsBuilderModel::new("");
    assert_eq!(
        suggestion_values(OperationArgumentModel::operation().list_suggestions(&mut builder)),
        vec!["=", "+=", "-=", "*=", "/=", "%=", "<", ">", "><"]
    );

    let mut filtered = SuggestionsBuilderModel::new(">");
    assert_eq!(
        suggestion_values(OperationArgumentModel::operation().list_suggestions(&mut filtered)),
        vec![">", "><"]
    );
}

#[test]
fn java_simple_operations_mutate_left_score_from_right_score() {
    assert_eq!(apply(OperationModel::Assign, 7, 3), Ok(3));
    assert_eq!(apply(OperationModel::AddAssign, 7, 3), Ok(10));
    assert_eq!(apply(OperationModel::SubtractAssign, 7, 3), Ok(4));
    assert_eq!(apply(OperationModel::MultiplyAssign, 7, 3), Ok(21));
    assert_eq!(apply(OperationModel::Min, 7, 3), Ok(3));
    assert_eq!(apply(OperationModel::Max, 7, 3), Ok(7));
}

#[test]
fn java_arithmetic_uses_i32_wrapping_like_int_operations() {
    assert_eq!(apply(OperationModel::AddAssign, i32::MAX, 1), Ok(i32::MIN));
    assert_eq!(apply(OperationModel::MultiplyAssign, i32::MAX, 2), Ok(-2));
}

#[test]
fn java_division_and_modulo_use_floor_semantics() {
    assert_eq!(apply(OperationModel::DivideAssign, -7, 3), Ok(-3));
    assert_eq!(apply(OperationModel::DivideAssign, 7, -3), Ok(-3));
    assert_eq!(
        apply(OperationModel::DivideAssign, i32::MIN, -1),
        Ok(i32::MIN)
    );
    assert_eq!(apply(OperationModel::ModuloAssign, -7, 3), Ok(2));
    assert_eq!(apply(OperationModel::ModuloAssign, 7, -3), Ok(-2));
    assert_eq!(apply(OperationModel::ModuloAssign, i32::MIN, -1), Ok(0));
}

#[test]
fn java_division_and_modulo_reject_zero_divisor_without_mutating_left() {
    let mut left = ScoreAccessModel::new(7);
    let mut right = ScoreAccessModel::new(0);
    assert_eq!(
        OperationModel::DivideAssign.apply(&mut left, &mut right),
        Err(OperationArgumentError::DivideByZero)
    );
    assert_eq!(left.get(), 7);

    assert_eq!(
        OperationModel::ModuloAssign.apply(&mut left, &mut right),
        Err(OperationArgumentError::DivideByZero)
    );
    assert_eq!(left.get(), 7);
}

#[test]
fn java_swap_operation_exchanges_both_scores() {
    let mut left = ScoreAccessModel::new(5);
    let mut right = ScoreAccessModel::new(9);

    OperationModel::Swap.apply(&mut left, &mut right).unwrap();

    assert_eq!(left.get(), 9);
    assert_eq!(right.get(), 5);
}
