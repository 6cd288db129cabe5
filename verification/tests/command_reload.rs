use lib::command_reload::{ReloadCommandOutput, discover_new_packs, execute_reload_command};
#[test]
fn reload_discovers_new_available_non_disabled_packs_after_current_selection() {
    let available = strings(&["vanilla", "kept", "new_pack", "disabled_pack"]);
    let current = strings(&["vanilla", "kept"]);
    let disabled = strings(&["disabled_pack"]);

    assert_eq!(
        discover_new_packs(&available, &current, &disabled),
        strings(&["vanilla", "kept", "new_pack"])
    );
    assert_eq!(
        execute_reload_command(&available, &current, &disabled),
        ReloadCommandOutput {
            success_count: 0,
            feedback_key: "commands.reload.success",
            broadcast_to_admins: true,
            selected_packs: strings(&["vanilla", "kept", "new_pack"]),
        }
    );
}

#[test]
fn reload_does_not_duplicate_existing_selected_packs() {
    let available = strings(&["vanilla", "kept", "kept", "new_pack"]);
    let current = strings(&["vanilla", "kept"]);
    let disabled = Vec::new();

    assert_eq!(
        discover_new_packs(&available, &current, &disabled),
        strings(&["vanilla", "kept", "new_pack"])
    );
}

fn strings(values: &[&str]) -> Vec<String> {
    values.iter().map(|value| (*value).to_string()).collect()
}
