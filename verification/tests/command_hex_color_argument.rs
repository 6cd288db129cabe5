use lib::command_hex_color_argument::{HexColorArgumentModel, CommandContextModel, StringReaderModel, HexColorParseError, get_hex_color};
use lib::command_shared_suggestion_provider::{SuggestionModel, SuggestionsBuilderModel};
fn parse(input: &str) -> Result<(i32, usize), HexColorParseError> {
    let mut reader = StringReaderModel::new(input);
    let color = HexColorArgumentModel::hex_color().parse(&mut reader)?;
    Ok((color, reader.cursor()))
}

#[test]
fn command_hex_color_argument_examples_match_java_examples() {
    assert_eq!(HexColorArgumentModel::examples(), ["F00", "FF0000"]);
}

#[test]
fn get_hex_color_returns_typed_context_argument() {
    let context = CommandContextModel::default().with_hex_color("color", -65_536);

    assert_eq!(get_hex_color(&context, "color"), Some(-65_536));
    assert_eq!(get_hex_color(&context, "missing"), None);
}

#[test]
fn parse_three_digit_color_duplicates_each_nibble() {
    let (color, cursor) = parse("F0a rest").unwrap();

    assert_eq!(color, -65_366);
    assert_eq!(cursor, 3);
}

#[test]
fn parse_six_digit_color_reads_two_hex_digits_per_channel() {
    let (color, cursor) = parse("FF0000 tail").unwrap();

    assert_eq!(color, -65_536);
    assert_eq!(cursor, 6);
}

#[test]
fn invalid_length_uses_command_syntax_error_value() {
    assert_eq!(
        parse("FFFF"),
        Err(HexColorParseError::InvalidHex {
            value: "FFFF".to_string(),
        })
    );
    assert_eq!(
        parse(""),
        Err(HexColorParseError::InvalidHex {
            value: String::new(),
        })
    );
}

#[test]
fn invalid_hex_digit_escapes_as_number_format_equivalent() {
    assert_eq!(
        parse("GGG"),
        Err(HexColorParseError::NumberFormat {
            value: "G".to_string(),
        })
    );
}

#[test]
fn six_character_channels_match_java_signed_slice_parse_and_argb_masking() {
    let (color, cursor) = parse("FF-1+0 rest").unwrap();

    assert_eq!(color, -256);
    assert_eq!(cursor, 6);
}

#[test]
fn list_suggestions_uses_java_examples_and_shared_matching() {
    let mut all = SuggestionsBuilderModel::new("");
    assert_eq!(
        HexColorArgumentModel::hex_color().list_suggestions(&mut all),
        vec![
            SuggestionModel {
                value: "F00".to_string(),
                tooltip: None,
            },
            SuggestionModel {
                value: "FF0000".to_string(),
                tooltip: None,
            }
        ]
    );

    let mut six_digit = SuggestionsBuilderModel::new("ff");
    assert_eq!(
        HexColorArgumentModel::hex_color().list_suggestions(&mut six_digit),
        vec![SuggestionModel {
            value: "FF0000".to_string(),
            tooltip: None,
        }]
    );
}
