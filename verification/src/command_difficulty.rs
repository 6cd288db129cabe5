//! Difficulty levels and `/difficulty`.

use vstd::prelude::*;
use crate::chat_component::Component;
use crate::text::{str_eq, push_str};

verus! {

#[derive(Debug, Clone, Copy, PartialEq, Eq, Structural)]
pub enum Difficulty {
    Peaceful,
    Easy,
    Normal,
    Hard,
}

impl Difficulty {
    pub open spec fn id_spec(self) -> i32 {
        match self {
            Difficulty::Peaceful => 0,
            Difficulty::Easy => 1,
            Difficulty::Normal => 2,
            Difficulty::Hard => 3,
        }
    }

    pub open spec fn name_spec(self) -> Seq<char> {
        match self {
            Difficulty::Peaceful => "peaceful"@,
            Difficulty::Easy => "easy"@,
            Difficulty::Normal => "normal"@,
            Difficulty::Hard => "hard"@,
        }
    }

    pub fn id(self) -> (r: i32)
        ensures
            r == self.id_spec(),
    {
        match self {
            Difficulty::Peaceful => 0,
            Difficulty::Easy => 1,
            Difficulty::Normal => 2,
            Difficulty::Hard => 3,
        }
    }

    pub fn serialized_name(self) -> (r: &'static str)
        ensures
            r@ == self.name_spec(),
    {
        match self {
            Difficulty::Peaceful => "peaceful",
            Difficulty::Easy => "easy",
            Difficulty::Normal => "normal",
            Difficulty::Hard => "hard",
        }
    }

    /// The difficulty whose id is `id` taken modulo four (ids wrap around).
    pub fn by_id(id: i32) -> (r: Self)
        ensures
            r.id_spec() == id as int % 4,
    {
        let m = id % 4;
        let w = if m < 0 { m + 4 } else { m };
        if w == 0 {
            Difficulty::Peaceful
        } else if w == 1 {
            Difficulty::Easy
        } else if w == 2 {
            Difficulty::Normal
        } else {
            Difficulty::Hard
        }
    }

    /// The difficulty whose serialized name is exactly `name`.
    pub fn by_name(name: &str) -> (r: Option<Self>)
        ensures
            r matches Some(d) ==> d.name_spec() == name@,
            r is None ==> forall|d: Difficulty| d.name_spec() != name@,
    {
        if str_eq(name, "peaceful") {
            Some(Difficulty::Peaceful)
        } else if str_eq(name, "easy") {
            Some(Difficulty::Easy)
        } else if str_eq(name, "normal") {
            Some(Difficulty::Normal)
        } else if str_eq(name, "hard") {
            Some(Difficulty::Hard)
        } else {
            proof {
                assert forall|d: Difficulty| d.name_spec() != name@ by {
                    match d {
                        Difficulty::Peaceful => {},
                        Difficulty::Easy => {},
                        Difficulty::Normal => {},
                        Difficulty::Hard => {},
                    }
                }
            }
            None
        }
    }

    /// The translatable name `options.difficulty.<name>`.
    pub fn display_name(self) -> (r: Component)
        ensures
            r matches Component::Translatable { key, args } && key@ == "options.difficulty."@ + self.name_spec() && args@.len() == 0,
    {
        let mut key = "options.difficulty.".to_owned();
        push_str(&mut key, self.serialized_name());
        Component::translatable(key, Vec::new())
    }

    /// The translatable description `options.difficulty.<name>.info`.
    pub fn info(self) -> (r: Component)
        ensures
            r matches Component::Translatable { key, args } && key@ == "options.difficulty."@ + self.name_spec() + ".info"@ && args@.len() == 0,
    {
        let mut key = "options.difficulty.".to_owned();
        push_str(&mut key, self.serialized_name());
        push_str(&mut key, ".info");
        Component::translatable(key, Vec::new())
    }
}

#[derive(Debug, Clone, PartialEq, Eq)]
pub enum DifficultyError {
    AlreadySame { difficulty: &'static str },
}

#[derive(Debug, Clone, PartialEq, Eq)]
pub struct DifficultyOutput {
    pub success_count: i32,
    pub feedback_key: &'static str,
    pub difficulty: Difficulty,
    pub broadcast_to_admins: bool,
}

/// Reports the current difficulty; its id is the result.
pub fn query_difficulty(current: Difficulty) -> (r: DifficultyOutput)
    ensures
        r.success_count == current.id_spec(),
        r.feedback_key@ == "commands.difficulty.query"@,
        r.difficulty == current,
        !r.broadcast_to_admins,
{
    DifficultyOutput {
        success_count: current.id(),
        feedback_key: "commands.difficulty.query",
        difficulty: current,
        broadcast_to_admins: false,
    }
}

/// Changes the difficulty; fails when it is already the requested one.
pub fn set_difficulty(current: Difficulty, requested: Difficulty) -> (r: Result<DifficultyOutput, DifficultyError>)
    ensures
        current == requested <==> r is Err,
        r matches Err(DifficultyError::AlreadySame { difficulty }) ==> difficulty@ == requested.name_spec(),
        r matches Ok(o) ==> {
            &&& o.success_count == 0
            &&& o.feedback_key@ == "commands.difficulty.success"@
            &&& o.difficulty == requested
            &&& o.broadcast_to_admins
        },
{
    if current == requested {
        return Err(DifficultyError::AlreadySame { difficulty: requested.serialized_name() });
    }
    Ok(DifficultyOutput {
        success_count: 0,
        feedback_key: "commands.difficulty.success",
        difficulty: requested,
        broadcast_to_admins: true,
    })
}


/// Each difficulty has an id and a name of its own: looking one up by its
/// id or by its name gives it back.
pub proof fn lemma_difficulty_ids_and_names_identify(a: Difficulty, b: Difficulty)
    ensures
        a.id_spec() == b.id_spec() ==> a == b,
        a.name_spec() == b.name_spec() ==> a == b,
{
    reveal_strlit("peaceful");
    reveal_strlit("easy");
    reveal_strlit("normal");
    reveal_strlit("hard");
    if a.name_spec() == b.name_spec() && a != b {
        assert(a.name_spec()[0] == b.name_spec()[0]);
    }
}
} // verus!
