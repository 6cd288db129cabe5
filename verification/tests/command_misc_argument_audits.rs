use lib::command_misc_argument_audits::{
    get_waypoint, signed_argument_output, CommandContextModel, EntityModel, EntitySelectorModel,
    ExampleSignedArgument, PackageInfoModel, SelectedEntityModel, WaypointArgumentError,
    WaypointTransmitterModel,
};

#[test]
fn java_signed_argument_is_only_an_argument_type_marker_interface() {
    let argument = ExampleSignedArgument;
    assert_eq!(
        signed_argument_output(&argument, "signed payload".to_string()),
        "signed payload"
    );
}

#[test]
fn java_arguments_package_info_is_null_marked() {
    let info = PackageInfoModel::java_commands_arguments_package();

    assert_eq!(info.package_name(), "net.minecraft.commands.arguments");
    assert!(info.is_null_marked());
    assert_eq!(
        info.annotation_type(),
        "org.jspecify.annotations.NullMarked"
    );
}

#[test]
fn java_waypoint_argument_returns_selected_waypoint_transmitter() {
    let waypoint = WaypointTransmitterModel::new("waypoint-1");
    let context = CommandContextModel::default().with_selector(
        "target",
        EntitySelectorModel::new(SelectedEntityModel::Waypoint(waypoint.clone())),
    );

    assert_eq!(get_waypoint(&context, "target"), Ok(waypoint));
    assert_eq!(get_waypoint(&context, "target").unwrap().id(), "waypoint-1");
}

#[test]
fn java_waypoint_argument_rejects_non_waypoint_entities() {
    let context = CommandContextModel::default().with_selector(
        "target",
        EntitySelectorModel::new(SelectedEntityModel::Other(EntityModel::new("plain-entity"))),
    );

    assert_eq!(
        get_waypoint(&context, "target"),
        Err(WaypointArgumentError::NotAWaypoint)
    );
}

#[test]
fn java_waypoint_argument_reads_named_entity_selector_argument() {
    let context = CommandContextModel::default();

    assert_eq!(
        get_waypoint(&context, "missing"),
        Err(WaypointArgumentError::MissingArgument {
            name: "missing".to_string()
        })
    );
}
