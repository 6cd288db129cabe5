use lib::command_particle_argument::{ParticleArgumentModel, CommandBuildContextModel, CommandContextModel, ParticleTypeModel, ParticlePayloadModel, ParticleParseError, TagParseError, ParticleOptionDecodeError, ParticleOptionsModel, StringReaderModel, get_particle, read_particle};
use lib::command_identifier_argument::{CommandIdentifierModel, IdentifierArgumentParseError};

fn build_context() -> CommandBuildContextModel {
    CommandBuildContextModel::default().with_particle_types(&[
        ParticleTypeModel::simple("minecraft:smoke"),
        ParticleTypeModel::block_state("minecraft:block", "Name"),
        ParticleTypeModel::simple("custom:spark"),
    ])
}

fn argument() -> ParticleArgumentModel {
    ParticleArgumentModel::particle(&build_context())
}

fn parse(input: &str) -> Result<(ParticleOptionsModel, usize), ParticleParseError> {
    let mut reader = StringReaderModel::new(input);
    let options = argument().parse(&mut reader)?;
    Ok((options, reader.cursor()))
}

#[test]
fn java_factory_examples_and_context_getter_match_source() {
    let argument = argument();
    assert_eq!(argument.examples(), ["foo", "foo:bar", "particle{foo:bar}"]);

    let parsed = parse("smoke").unwrap().0;
    let context = CommandContextModel::default().with_particle("particle", parsed.clone());
    assert_eq!(get_particle(&context, "particle"), Some(parsed));
    assert_eq!(get_particle(&context, "missing"), None);
}

#[test]
fn java_parse_reads_particle_type_and_uses_empty_map_without_options() {
    let (options, cursor) = parse("smoke trailing").unwrap();

    assert_eq!(options.particle_id().to_string(), "minecraft:smoke");
    assert_eq!(options.payload(), &ParticlePayloadModel::EmptyMap);
    assert_eq!(cursor, "smoke".len());
}

#[test]
fn java_parse_accepts_explicit_namespace_and_compound_options() {
    let input = "minecraft:block{Name:\"minecraft:stone\"} rest";
    let (options, cursor) = parse(input).unwrap();

    assert_eq!(options.particle_id().to_string(), "minecraft:block");
    assert_eq!(
        options.payload(),
        &ParticlePayloadModel::Compound {
            fields: vec!["Name".to_string()]
        }
    );
    assert_eq!(cursor, "minecraft:block{Name:\"minecraft:stone\"}".len());
}

#[test]
fn java_unknown_particle_reports_identifier_and_post_identifier_cursor() {
    let mut reader = StringReaderModel::new("missing@tail");
    let error = argument().parse(&mut reader);

    assert_eq!(
        error,
        Err(ParticleParseError::UnknownParticle {
            id: CommandIdentifierModel::parse("minecraft:missing").unwrap(),
            cursor: "missing".len(),
        })
    );
    assert_eq!(reader.cursor(), "missing".len());
}

#[test]
fn java_identifier_errors_reset_cursor_before_particle_lookup() {
    let mut reader = StringReaderModel::new("..:bad trailing");
    let error = argument().parse(&mut reader);

    assert_eq!(
        error,
        Err(ParticleParseError::Identifier(
            IdentifierArgumentParseError::InvalidIdentifier
        ))
    );
    assert_eq!(reader.cursor(), 0);
}

#[test]
fn java_tag_parser_errors_are_reported_before_codec_decode() {
    let mut reader = StringReaderModel::new("block{Name:\"minecraft:stone\"");
    let error = argument().parse(&mut reader);

    assert_eq!(
        error,
        Err(ParticleParseError::TagParser(
            TagParseError::UnclosedCompound
        ))
    );
}

#[test]
fn java_particle_codec_rejects_invalid_or_missing_options() {
    assert_eq!(
        parse("smoke{foo:bar}").map(|value| value.0),
        Err(ParticleParseError::InvalidOptions(
            ParticleOptionDecodeError::UnexpectedFields
        ))
    );
    assert_eq!(
        parse("block").map(|value| value.0),
        Err(ParticleParseError::InvalidOptions(
            ParticleOptionDecodeError::MissingField("Name".to_string())
        ))
    );
}

#[test]
fn java_static_read_particle_uses_given_registry_provider() {
    let mut reader = StringReaderModel::new("custom:spark");
    let options = read_particle(&mut reader, &build_context()).unwrap();

    assert_eq!(options.particle_id().to_string(), "custom:spark");
    assert_eq!(reader.cursor(), "custom:spark".len());
}

#[test]
fn java_suggestions_list_particle_registry_element_ids() {
    let argument = argument();

    assert_eq!(
        argument.list_suggestions(""),
        ["minecraft:smoke", "minecraft:block", "custom:spark"]
    );
    assert_eq!(argument.list_suggestions("blo"), ["minecraft:block"]);
    assert_eq!(argument.list_suggestions("custom:s"), ["custom:spark"]);
}
