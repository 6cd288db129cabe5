use lib::command_difficulty::{Difficulty, DifficultyError, DifficultyOutput, query_difficulty, set_difficulty};
#[test]
fn difficulty_query_returns_java_ids_without_broadcast() {
    for (difficulty, id) in [
        (Difficulty::Peaceful, 0),
        (Difficulty::Easy, 1),
        (Difficulty::Normal, 2),
        (Difficulty::Hard, 3),
    ] {
        assert_eq!(
            query_difficulty(difficulty),
            DifficultyOutput {
                success_count: id,
                feedback_key: "commands.difficulty.query",
                difficulty,
                broadcast_to_admins: false,
            }
        );
    }
}

#[test]
fn difficulty_set_rejects_noop_and_broadcasts_changed_value() {
    assert_eq!(
        set_difficulty(Difficulty::Easy, Difficulty::Easy),
        Err(DifficultyError::AlreadySame { difficulty: "easy" })
    );
    assert_eq!(
        set_difficulty(Difficulty::Easy, Difficulty::Hard),
        Ok(DifficultyOutput {
            success_count: 0,
            feedback_key: "commands.difficulty.success",
            difficulty: Difficulty::Hard,
            broadcast_to_admins: true,
        })
    );
}

#[test]
fn difficulty_lookup_and_components_match_java_enum_contract() {
    assert_eq!(Difficulty::by_id(-1), Difficulty::Hard);
    assert_eq!(Difficulty::by_id(4), Difficulty::Peaceful);
    assert_eq!(Difficulty::by_id(6), Difficulty::Normal);
    assert_eq!(Difficulty::by_name("normal"), Some(Difficulty::Normal));
    assert_eq!(Difficulty::by_name("NORMAL"), None);
    assert_eq!(
        Difficulty::Hard.display_name().get_string(),
        "options.difficulty.hard"
    );
    assert_eq!(
        Difficulty::Peaceful.info().get_string(),
        "options.difficulty.peaceful.info"
    );
}
