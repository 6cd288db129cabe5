use lib::command_message_argument::{MessageArgumentError, MessageArgumentModel, MessageModel, ChatDecoratorModel};
use lib::chat_component::Component;
use lib::command_misc_argument_audits::signed_argument_output;
use lib::command_selector::{SelectorBase, SelectorError};
use lib::string_reader::StringReaderModel;

fn parse(input: &str, allow_selectors: bool) -> Result<(MessageModel, usize), MessageArgumentError> {
    let mut reader = StringReaderModel::new(input);
    let value = MessageArgumentModel::message().parse(&mut reader, allow_selectors)?;
    Ok((value, reader.cursor()))
}

#[test]
fn java_factory_examples_and_signed_argument_marker_match_source() {
    let argument = MessageArgumentModel::message();
    assert_eq!(
        argument.examples(),
        ["Hello world!", "foo", "@e", "Hello @p :)"]
    );
    let message = MessageModel::new("signed payload");
    assert_eq!(
        signed_argument_output(&argument, MessageModel::new("signed payload")),
        message
    );
}

#[test]
fn java_parse_is_greedy_and_rejects_remaining_length_over_256() {
    let (message, cursor) = parse("Hello world!", true).unwrap();
    assert_eq!(message.text(), "Hello world!");
    assert!(message.parts().is_empty());
    assert_eq!(cursor, "Hello world!".len());

    let long = "a".repeat(257);
    let mut reader = StringReaderModel::new(&long);
    assert_eq!(
        MessageArgumentModel::message().parse(&mut reader, true),
        Err(MessageArgumentError::TooLong {
            length: 257,
            max: 256
        })
    );
    assert_eq!(reader.cursor(), 0);
}

#[test]
fn java_parse_without_selector_permission_consumes_text_without_parts() {
    let (message, cursor) = parse("Hello @p :)", false).unwrap();

    assert_eq!(message.text(), "Hello @p :)");
    assert!(message.parts().is_empty());
    assert_eq!(cursor, "Hello @p :)".len());
}

#[test]
fn java_parse_collects_selector_parts_with_offsets_and_skips_unknown_selector_heads() {
    let (message, cursor) =
        parse("Hello @p and @x then @e[type=minecraft:zombie]", true).unwrap();

    assert_eq!(
        message.text(),
        "Hello @p and @x then @e[type=minecraft:zombie]"
    );
    assert_eq!(message.parts().len(), 2);
    assert_eq!(
        (message.parts()[0].start(), message.parts()[0].end()),
        (6, 8)
    );
    assert_eq!(
        (message.parts()[1].start(), message.parts()[1].end()),
        (21, 46)
    );
    assert_eq!(
        cursor,
        "Hello @p and @x then @e[type=minecraft:zombie]".len()
    );
}

#[test]
fn java_parse_rethrows_selector_errors_other_than_missing_or_unknown_type() {
    let error = parse("bad @a[limit=0]", true).unwrap_err();

    assert_eq!(
        error,
        MessageArgumentError::Selector(SelectorError::InvalidLimit)
    );
}

#[test]
fn message_parse_offsets_count_from_the_cursor_and_keep_bare_at_signs() {
    let mut reader = StringReaderModel::new("say hi @s and @");
    reader.set_cursor(4);
    let message = MessageArgumentModel::message().parse(&mut reader, true).unwrap();
    assert_eq!(message.text(), "hi @s and @");
    assert_eq!(message.parts().len(), 1);
    assert_eq!((message.parts()[0].start(), message.parts()[0].end()), (3, 5));
    assert_eq!(message.parts()[0].selector().base, SelectorBase::CurrentEntity);
    assert_eq!(reader.cursor(), "say hi @s and @".len());

    let exactly = "b".repeat(256);
    let (long, _) = parse(&exactly, true).unwrap();
    assert_eq!(long.text().len(), 256);

    let error = parse("@y", true).unwrap_err();
    assert_eq!(error, MessageArgumentError::Selector(SelectorError::InvalidBase));
}

#[test]
fn chat_decorators_keep_or_wrap_the_plain_text() {
    let component = Component::literal("plain");
    assert_eq!(ChatDecoratorModel::default().decorate(&component), component);
    let wrapped = ChatDecoratorModel::wrapping("<", ">")
        .decorate(&Component::literal("Hello Alex"));
    assert_eq!(wrapped, Component::literal("<Hello Alex>"));
}
