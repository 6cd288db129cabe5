use lib::command_heightmap_type_argument::{HeightmapTypeArgumentModel, HeightmapTypeModel, HeightmapUsageModel, CommandContextModel, StringReaderModel, HeightmapTypeParseError, get_heightmap};
use lib::command_shared_suggestion_provider::{SuggestionModel, SuggestionsBuilderModel};
fn parse(input: &str) -> Result<(HeightmapTypeModel, usize), HeightmapTypeParseError> {
    let mut reader = StringReaderModel::new(input);
    let heightmap = HeightmapTypeArgumentModel::heightmap().parse(&mut reader)?;
    Ok((heightmap, reader.cursor()))
}

#[test]
fn java_heightmap_type_metadata_matches_source_enum() {
    assert_eq!(
        HeightmapTypeModel::VALUES.map(HeightmapTypeModel::serialization_key),
        [
            "WORLD_SURFACE_WG",
            "WORLD_SURFACE",
            "OCEAN_FLOOR_WG",
            "OCEAN_FLOOR",
            "MOTION_BLOCKING",
            "MOTION_BLOCKING_NO_LEAVES",
        ]
    );
    assert!(!HeightmapTypeModel::WorldSurfaceWg.keep_after_worldgen());
    assert!(!HeightmapTypeModel::OceanFloorWg.keep_after_worldgen());
    assert!(HeightmapTypeModel::OceanFloor.keep_after_worldgen());
    assert!(!HeightmapTypeModel::OceanFloor.send_to_client());
    assert!(HeightmapTypeModel::WorldSurface.send_to_client());
    assert!(HeightmapTypeModel::MotionBlocking.send_to_client());
    assert_eq!(
        HeightmapTypeModel::kept_types(),
        vec![
            HeightmapTypeModel::WorldSurface,
            HeightmapTypeModel::OceanFloor,
            HeightmapTypeModel::MotionBlocking,
            HeightmapTypeModel::MotionBlockingNoLeaves,
        ]
    );
}

#[test]
fn examples_are_first_two_kept_types_after_lowercase_conversion() {
    assert_eq!(
        HeightmapTypeArgumentModel::heightmap().examples(),
        ["world_surface", "ocean_floor"]
    );
}

#[test]
fn get_heightmap_returns_typed_context_argument() {
    let context = CommandContextModel::default()
        .with_heightmap("heightmap", HeightmapTypeModel::MotionBlocking);

    assert_eq!(
        get_heightmap(&context, "heightmap"),
        Some(HeightmapTypeModel::MotionBlocking)
    );
    assert_eq!(get_heightmap(&context, "missing"), None);
}

#[test]
fn parse_accepts_lowercase_kept_heightmap_ids_and_advances_cursor() {
    let (heightmap, cursor) = parse("motion_blocking_no_leaves rest").unwrap();

    assert_eq!(heightmap, HeightmapTypeModel::MotionBlockingNoLeaves);
    assert_eq!(cursor, 25);
    assert_eq!(
        parse("ocean_floor"),
        Ok((HeightmapTypeModel::OceanFloor, 11))
    );
}

#[test]
fn parse_rejects_worldgen_only_and_case_mismatched_values_without_cursor_reset() {
    let mut reader = StringReaderModel::new("world_surface_wg rest");
    assert_eq!(
        HeightmapTypeArgumentModel::heightmap().parse(&mut reader),
        Err(HeightmapTypeParseError::InvalidValue {
            value: "world_surface_wg".to_string(),
        })
    );
    assert_eq!(reader.cursor(), 16);

    let mut upper = StringReaderModel::new("WORLD_SURFACE rest");
    assert_eq!(
        HeightmapTypeArgumentModel::heightmap().parse(&mut upper),
        Err(HeightmapTypeParseError::InvalidValue {
            value: "WORLD_SURFACE".to_string(),
        })
    );
    assert_eq!(upper.cursor(), 13);
}

#[test]
fn parse_rejects_unknown_and_empty_values() {
    assert_eq!(
        parse("heightmap"),
        Err(HeightmapTypeParseError::InvalidValue {
            value: "heightmap".to_string(),
        })
    );
    assert_eq!(
        parse(""),
        Err(HeightmapTypeParseError::InvalidValue {
            value: String::new(),
        })
    );
}

#[test]
fn suggestions_use_kept_lowercase_ids_and_shared_matching() {
    let mut all = SuggestionsBuilderModel::new("");
    assert_eq!(
        HeightmapTypeArgumentModel::heightmap()
            .list_suggestions(&mut all)
            .into_iter()
            .map(|suggestion| suggestion.value)
            .collect::<Vec<_>>(),
        HeightmapTypeArgumentModel::ids()
    );

    let mut motion = SuggestionsBuilderModel::new("motion");
    assert_eq!(
        HeightmapTypeArgumentModel::heightmap().list_suggestions(&mut motion),
        vec![
            SuggestionModel {
                value: "motion_blocking".to_string(),
                tooltip: None,
            },
            SuggestionModel {
                value: "motion_blocking_no_leaves".to_string(),
                tooltip: None,
            }
        ]
    );
}
