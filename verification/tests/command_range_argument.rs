use lib::command_range_argument::{get_int_range, CommandContextModel, IntRangeArgumentModel, RangeParseError};
use lib::criterion_min_max_bounds::{BoundsModel, IntsBoundsModel};
use lib::string_reader::StringReaderModel;

fn parse_int(input: &str) -> Result<(IntsBoundsModel, usize), RangeParseError> {
    let mut reader = StringReaderModel::new(input);
    let range = IntRangeArgumentModel::int_range().parse(&mut reader)?;
    Ok((range, reader.cursor()))
}

#[test]
fn java_int_range_parse_delegates_to_min_max_bounds_ints() {
    let (exact, exact_cursor) = parse_int("5 next").unwrap();
    assert_eq!(exact.bounds(), BoundsModel::exactly(5));
    assert_eq!(exact_cursor, "5".len());

    let (closed, closed_cursor) = parse_int("-5..10 next").unwrap();
    assert_eq!(closed.bounds(), BoundsModel::between(-5, 10));
    assert_eq!(closed_cursor, "-5..10".len());

    assert_eq!(
        parse_int("-100..").unwrap().0.bounds(),
        BoundsModel::at_least(-100)
    );
    assert_eq!(
        parse_int("..100").unwrap().0.bounds(),
        BoundsModel::at_most(100)
    );
}

#[test]
fn java_empty_invalid_and_swapped_ranges_reset_cursor_to_start() {
    let mut empty = StringReaderModel::new("");
    assert_eq!(
        IntRangeArgumentModel::int_range().parse(&mut empty),
        Err(RangeParseError::Empty { cursor: 0 })
    );
    assert_eq!(empty.cursor(), 0);

    let mut dots = StringReaderModel::new(".. rest");
    assert_eq!(
        IntRangeArgumentModel::int_range().parse(&mut dots),
        Err(RangeParseError::Empty { cursor: 0 })
    );
    assert_eq!(dots.cursor(), 0);

    let mut invalid_int = StringReaderModel::new("1.2 rest");
    assert_eq!(
        IntRangeArgumentModel::int_range().parse(&mut invalid_int),
        Err(RangeParseError::InvalidNumber { cursor: 0 })
    );
    assert_eq!(invalid_int.cursor(), 0);

    let mut swapped = StringReaderModel::new("8..4 rest");
    assert_eq!(
        IntRangeArgumentModel::int_range().parse(&mut swapped),
        Err(RangeParseError::Swapped { cursor: 0 })
    );
    assert_eq!(swapped.cursor(), 0);
}

#[test]
fn int_range_examples_and_context_lookup() {
    assert_eq!(
        IntRangeArgumentModel::int_range().examples(),
        ["0..5", "0", "-5", "-100..", "..100"]
    );
    let int_range = IntsBoundsModel::between(0, 5);
    let context = CommandContextModel::default().with_int_range("i", int_range);
    assert_eq!(get_int_range(&context, "i"), Some(int_range));
    assert_eq!(get_int_range(&context, "missing"), None);
}

#[test]
fn int_range_parse_reads_from_the_cursor_and_rejects_overflow() {
    let mut reader = StringReaderModel::new("x 3..7 y");
    reader.set_cursor(2);
    let range = IntRangeArgumentModel::int_range().parse(&mut reader).unwrap();
    assert_eq!(range.bounds(), BoundsModel::between(3, 7));
    assert_eq!(reader.cursor(), 6);
    assert!(range.matches(3) && range.matches(7) && !range.matches(8));

    let mut too_big = StringReaderModel::new("2147483648");
    assert_eq!(
        IntRangeArgumentModel::int_range().parse(&mut too_big),
        Err(RangeParseError::InvalidNumber { cursor: 0 })
    );
    let mut equal = StringReaderModel::new("4..4");
    assert_eq!(
        IntRangeArgumentModel::int_range().parse(&mut equal).unwrap().bounds(),
        BoundsModel::exactly(4)
    );
    let mut bare_dash = StringReaderModel::new("-");
    assert_eq!(
        IntRangeArgumentModel::int_range().parse(&mut bare_dash),
        Err(RangeParseError::InvalidNumber { cursor: 0 })
    );
}
