use lib::command_entity_anchor_argument::{EntityAnchorArgumentModel, EntityAnchorModel, CommandContextModel, StringReaderModel, EntityAnchorParseError, get_anchor};
use lib::command_shared_suggestion_provider::{SuggestionModel, SuggestionsBuilderModel};
fn parse(input: &str) -> Result<(EntityAnchorModel, usize), EntityAnchorParseError> {
    let mut reader = StringReaderModel::new(input);
    let anchor = EntityAnchorArgumentModel::anchor().parse(&mut reader)?;
    Ok((anchor, reader.cursor()))
}

#[test]
fn command_entity_anchor_argument_examples_match_java_examples() {
    assert_eq!(
        EntityAnchorArgumentModel::anchor().examples(),
        ["eyes", "feet"]
    );
}

#[test]
fn get_anchor_returns_typed_context_argument() {
    let context = CommandContextModel::default().with_anchor("anchor", EntityAnchorModel::Eyes);

    assert_eq!(
        get_anchor(&context, "anchor"),
        Some(EntityAnchorModel::Eyes)
    );
    assert_eq!(get_anchor(&context, "missing"), None);
}

#[test]
fn parse_accepts_exact_anchor_names_and_advances_past_unquoted_token() {
    let (anchor, cursor) = parse("eyes rest").unwrap();

    assert_eq!(anchor, EntityAnchorModel::Eyes);
    assert_eq!(cursor, 4);
    assert_eq!(parse("feet"), Ok((EntityAnchorModel::Feet, 4)));
}

#[test]
fn parse_is_case_sensitive_and_resets_cursor_on_invalid_anchor() {
    let mut reader = StringReaderModel::new("Eyes rest");

    assert_eq!(
        EntityAnchorArgumentModel::anchor().parse(&mut reader),
        Err(EntityAnchorParseError::Invalid {
            name: "Eyes".to_string(),
        })
    );
    assert_eq!(reader.cursor(), 0);
    assert_eq!(
        parse(""),
        Err(EntityAnchorParseError::Invalid {
            name: String::new(),
        })
    );
}

#[test]
fn anchor_lookup_matches_java_by_name_map() {
    assert_eq!(
        EntityAnchorModel::get_by_name("feet"),
        Some(EntityAnchorModel::Feet)
    );
    assert_eq!(
        EntityAnchorModel::get_by_name("eyes"),
        Some(EntityAnchorModel::Eyes)
    );
    assert_eq!(EntityAnchorModel::get_by_name("eye"), None);
}





#[test]
fn list_suggestions_exposes_anchor_names_and_shared_filtering() {
    let mut all = SuggestionsBuilderModel::new("");
    let mut values = EntityAnchorArgumentModel::anchor()
        .list_suggestions(&mut all)
        .into_iter()
        .map(|suggestion| suggestion.value)
        .collect::<Vec<_>>();
    values.sort();
    assert_eq!(values, vec!["eyes", "feet"]);

    let mut eyes = SuggestionsBuilderModel::new("ey");
    assert_eq!(
        EntityAnchorArgumentModel::anchor().list_suggestions(&mut eyes),
        vec![SuggestionModel {
            value: "eyes".to_string(),
            tooltip: None,
        }]
    );
}
