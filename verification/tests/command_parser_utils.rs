use lib::command_parser_utils::{StringReaderModel, read_while};
#[test]
fn read_while_returns_consumed_prefix_and_advances_cursor() {
    let mut reader = StringReaderModel::new("abc 123");

    assert_eq!(
        read_while(&mut reader, |ch| ch.is_ascii_alphabetic()),
        "abc"
    );
    assert_eq!(reader.cursor(), 3);
}

#[test]
fn read_while_starts_at_current_cursor() {
    let mut reader = StringReaderModel::new("abc123;").with_cursor(3);

    assert_eq!(read_while(&mut reader, |ch| ch.is_ascii_digit()), "123");
    assert_eq!(reader.cursor(), 6);
}

#[test]
fn read_while_returns_empty_and_keeps_cursor_when_first_char_fails() {
    let mut reader = StringReaderModel::new(" abc");

    assert_eq!(read_while(&mut reader, |ch| ch.is_ascii_alphabetic()), "");
    assert_eq!(reader.cursor(), 0);
}

#[test]
fn read_while_at_end_returns_empty() {
    let mut reader = StringReaderModel::new("abc").with_cursor(3);

    assert_eq!(read_while(&mut reader, |_| true), "");
    assert_eq!(reader.cursor(), 3);
}
