use lib::command_identifier_argument::{IdentifierArgumentModel, CommandIdentifierModel, CommandContextModel, StringReaderModel, IdentifierArgumentParseError, get_id};
fn parse(input: &str) -> Result<(CommandIdentifierModel, usize), IdentifierArgumentParseError> {
    let mut reader = StringReaderModel::new(input);
    let identifier = IdentifierArgumentModel::id().parse(&mut reader)?;
    Ok((identifier, reader.cursor()))
}

#[test]
fn java_identifier_argument_factory_examples_and_context_lookup_match_source() {
    let argument = IdentifierArgumentModel::id();
    assert_eq!(argument.examples(), ["foo", "foo:bar", "012"]);

    let value = CommandIdentifierModel::parse("custom:thing").unwrap();
    let context = CommandContextModel::default().with_identifier("target", value.clone());
    assert_eq!(get_id(&context, "target"), Some(value));
    assert_eq!(get_id(&context, "missing"), None);
}

#[test]
fn java_parse_defaults_namespace_without_colon() {
    let (identifier, cursor) = parse("foo trailing").unwrap();

    assert_eq!(identifier.namespace(), "minecraft");
    assert_eq!(identifier.path(), "foo");
    assert_eq!(identifier.to_string(), "minecraft:foo");
    assert_eq!(identifier.to_short_string(), "foo");
    assert_eq!(cursor, "foo".len());
}

#[test]
fn java_parse_preserves_explicit_namespace_and_complex_path() {
    let input = "foo:bar/baz.012-_ rest";
    let (identifier, cursor) = parse(input).unwrap();

    assert_eq!(identifier.namespace(), "foo");
    assert_eq!(identifier.path(), "bar/baz.012-_");
    assert_eq!(identifier.to_string(), "foo:bar/baz.012-_");
    assert_eq!(identifier.to_short_string(), "foo:bar/baz.012-_");
    assert_eq!(cursor, "foo:bar/baz.012-_".len());
}

#[test]
fn java_parse_colon_at_start_uses_default_namespace() {
    let (identifier, cursor) = parse(":bar").unwrap();

    assert_eq!(identifier.to_string(), "minecraft:bar");
    assert_eq!(identifier.to_short_string(), "bar");
    assert_eq!(cursor, ":bar".len());
}

#[test]
fn java_parse_allows_empty_path_from_empty_or_trailing_colon() {
    let (empty_identifier, empty_cursor) = parse("").unwrap();
    assert_eq!(empty_identifier.to_string(), "minecraft:");
    assert_eq!(empty_identifier.to_short_string(), "");
    assert_eq!(empty_cursor, 0);

    let (colon_identifier, colon_cursor) = parse("foo:").unwrap();
    assert_eq!(colon_identifier.to_string(), "foo:");
    assert_eq!(colon_cursor, "foo:".len());
}

#[test]
fn java_read_greedy_stops_before_disallowed_characters() {
    let (identifier, cursor) = parse("foo@bar").unwrap();

    assert_eq!(identifier.to_string(), "minecraft:foo");
    assert_eq!(cursor, "foo".len());
}

#[test]
fn java_uppercase_at_start_consumes_nothing_and_parses_empty_default_path() {
    let (identifier, cursor) = parse("Foo").unwrap();

    assert_eq!(identifier.to_string(), "minecraft:");
    assert_eq!(cursor, 0);
}

#[test]
fn java_invalid_namespace_resets_cursor() {
    let mut reader = StringReaderModel::new("..:path next");
    let error = IdentifierArgumentModel::id().parse(&mut reader);

    assert_eq!(error, Err(IdentifierArgumentParseError::InvalidIdentifier));
    assert_eq!(reader.cursor(), 0);
}

#[test]
fn java_invalid_path_resets_cursor() {
    let mut reader = StringReaderModel::new("foo::bar next");
    let error = IdentifierArgumentModel::id().parse(&mut reader);

    assert_eq!(error, Err(IdentifierArgumentParseError::InvalidIdentifier));
    assert_eq!(reader.cursor(), 0);
}

#[test]
fn parsed_identifier_text_parses_back_to_it() {
    for text in ["foo", ":bar", "ns:a/b.c", ""] {
        let id = CommandIdentifierModel::parse(text).unwrap();
        assert!(!id.namespace().is_empty());
        let again = CommandIdentifierModel::parse(&id.to_string()).unwrap();
        assert_eq!(again, id);
    }
}
