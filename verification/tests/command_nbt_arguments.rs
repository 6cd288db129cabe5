use lib::command_nbt_arguments::{CompoundTagArgumentModel, NbtTagArgumentModel, CommandContextModel, CompoundTagModel, TagModel, TagParseError, StringReaderModel, get_compound_tag, get_nbt_tag};
fn parse_compound(input: &str) -> Result<(CompoundTagModel, usize), TagParseError> {
    let mut reader = StringReaderModel::new(input);
    let value = CompoundTagArgumentModel::compound_tag().parse(&mut reader)?;
    Ok((value, reader.cursor()))
}

fn parse_tag_value(input: &str) -> Result<(TagModel, usize), TagParseError> {
    let mut reader = StringReaderModel::new(input);
    let value = NbtTagArgumentModel::nbt_tag().parse(&mut reader)?;
    Ok((value, reader.cursor()))
}

#[test]
fn java_compound_tag_factory_examples_and_context_getter_match_source() {
    let argument = CompoundTagArgumentModel::compound_tag();
    assert_eq!(argument.examples(), ["{}", "{foo=bar}"]);

    let compound = parse_compound("{foo=bar}").unwrap().0;
    let context = CommandContextModel::default().with_compound("tag", compound.clone());

    assert_eq!(get_compound_tag(&context, "tag"), Some(compound));
    assert_eq!(get_compound_tag(&context, "missing"), None);
}

#[test]
fn java_compound_tag_parse_delegates_to_compound_parser() {
    let (empty, empty_cursor) = parse_compound("{} trailing").unwrap();
    assert!(empty.is_empty());
    assert_eq!(empty_cursor, "{}".len());

    let (compound, cursor) = parse_compound("{foo=bar,answer:42} rest").unwrap();
    assert_eq!(compound.len(), 2);
    assert_eq!(
        compound.get("foo"),
        Some(&TagModel::String("bar".to_string()))
    );
    assert_eq!(compound.get("answer"), Some(&TagModel::Int(42)));
    assert_eq!(cursor, "{foo=bar,answer:42}".len());
}

#[test]
fn java_compound_tag_rejects_non_compound_without_consuming_start() {
    let mut reader = StringReaderModel::new("[0]");
    let error = CompoundTagArgumentModel::compound_tag().parse(&mut reader);

    assert_eq!(error, Err(TagParseError::ExpectedCompound));
    assert_eq!(reader.cursor(), 0);
}

#[test]
fn java_nbt_tag_factory_examples_and_context_getter_match_source() {
    let argument = NbtTagArgumentModel::nbt_tag();
    assert_eq!(
        argument.examples(),
        ["0", "0b", "0l", "0.0", "\"foo\"", "{foo=bar}", "[0]"]
    );

    let tag = parse_tag_value("\"foo\"").unwrap().0;
    let context = CommandContextModel::default().with_tag("tag", tag.clone());
    assert_eq!(get_nbt_tag(&context, "tag"), Some(tag));
    assert_eq!(get_nbt_tag(&context, "missing"), None);
}

#[test]
fn java_nbt_tag_parse_covers_documented_examples() {
    assert_eq!(parse_tag_value("0").unwrap(), (TagModel::Int(0), 1));
    assert_eq!(parse_tag_value("0b").unwrap(), (TagModel::Byte(0), 2));
    assert_eq!(parse_tag_value("0l").unwrap(), (TagModel::Long(0), 2));
    assert_eq!(parse_tag_value("0.0").unwrap(), (TagModel::Double("0.0".to_string()), 3));
    assert_eq!(
        parse_tag_value("\"foo\"").unwrap(),
        (TagModel::String("foo".to_string()), 5)
    );

    let compound = parse_tag_value("{foo=bar} trailing").unwrap();
    assert!(matches!(compound.0, TagModel::Compound(_)));
    assert_eq!(compound.1, "{foo=bar}".len());

    assert_eq!(
        parse_tag_value("[0]").unwrap(),
        (TagModel::List(vec![TagModel::Int(0)]), 3)
    );
}

#[test]
fn java_nbt_tag_inherits_parser_based_suggestion_delegation() {
    assert_eq!(
        NbtTagArgumentModel::nbt_tag().list_suggestions("{fo"),
        Vec::<String>::new()
    );
}

#[test]
fn java_nbt_parser_errors_preserve_consumed_cursor_from_parser() {
    let mut reader = StringReaderModel::new("{foo=bar");
    let error = NbtTagArgumentModel::nbt_tag().parse(&mut reader);

    assert_eq!(error, Err(TagParseError::UnclosedCompound));
    assert_eq!(reader.cursor(), "{foo=bar".len());
}
