//! The `entity_anchor` argument: the feet or the eyes of an entity.

use vstd::prelude::*;
use crate::text::{utf8, str_eq, lemma_utf8_injective};
use crate::string_reader::{unquoted_end};
use crate::arg_map::ArgMap;
use crate::command_shared_suggestion_provider::{suggest, SuggestionModel, SuggestionsBuilderModel, offered};
pub use crate::string_reader::StringReaderModel;

verus! {

broadcast use vstd::utf8::encode_utf8_decode_utf8;

#[derive(Debug, Clone, PartialEq, Eq)]
pub struct EntityAnchorArgumentModel;

#[derive(Debug, Clone, PartialEq, Eq)]
pub enum EntityAnchorParseError {
    Invalid { name: String },
}

pub struct CommandContextModel {
    arguments: ArgMap<EntityAnchorModel>,
}

#[derive(Debug, Clone, Copy, PartialEq, Eq, Hash, Structural)]
pub enum EntityAnchorModel {
    Feet,
    Eyes,
}

impl EntityAnchorModel {
    pub open spec fn name_spec(self) -> Seq<char> {
        match self {
            EntityAnchorModel::Feet => "feet"@,
            EntityAnchorModel::Eyes => "eyes"@,
        }
    }

    pub fn name(self) -> (r: &'static str)
        ensures
            r@ == self.name_spec(),
    {
        match self {
            EntityAnchorModel::Feet => "feet",
            EntityAnchorModel::Eyes => "eyes",
        }
    }

    /// The anchor named exactly `value`.
    pub fn get_by_name(value: &str) -> (r: Option<EntityAnchorModel>)
        ensures
            r matches Some(v) ==> v.name_spec() == value@,
            r is None ==> forall|v: EntityAnchorModel| #[trigger] v.name_spec() != value@,
    {
        if str_eq(value, "feet") {
            return Some(EntityAnchorModel::Feet);
        }
        if str_eq(value, "eyes") {
            return Some(EntityAnchorModel::Eyes);
        }
        proof {
            assert forall|v: EntityAnchorModel| #[trigger] v.name_spec() != value@ by {
                match v {
                    EntityAnchorModel::Feet => {},
                    EntityAnchorModel::Eyes => {},
                }
            }
        }
        None
    }

    pub fn names() -> (r: [&'static str; 2])
        ensures
            r@[0]@ == "feet"@,
            r@[1]@ == "eyes"@,
    {
        [EntityAnchorModel::Feet.name(), EntityAnchorModel::Eyes.name()]
    }
}

impl EntityAnchorArgumentModel {
    pub fn anchor() -> (r: Self) {
        EntityAnchorArgumentModel
    }

    /// Reads a token up to whitespace; it must be an anchor name. On failure
    /// the cursor goes back to where the token started.
    pub fn parse(&self, reader: &mut StringReaderModel) -> (r: Result<EntityAnchorModel, EntityAnchorParseError>)
        requires
            old(reader).at_cut(),
        ensures
            final(reader).text() == old(reader).text(),
            final(reader).at_cut(),
            ({
                let end = unquoted_end(old(reader).bytes(), old(reader).pos());
                let tok = old(reader).bytes().subrange(old(reader).pos(), end);
                match r {
                    Ok(a) => utf8(a.name_spec()) == tok && final(reader).pos() == end,
                    Err(EntityAnchorParseError::Invalid { name }) => utf8(name@) == tok
                        && final(reader).pos() == old(reader).pos()
                        && forall|a: EntityAnchorModel| #[trigger] utf8(a.name_spec()) != tok,
                }
            }),
    {
        let start = reader.cursor();
        let name = reader.read_unquoted_string();
        match EntityAnchorModel::get_by_name(name.as_str()) {
            Some(a) => Ok(a),
            None => {
                reader.set_cursor(start);
                proof {
                    assert forall|a: EntityAnchorModel| #[trigger] utf8(a.name_spec()) != utf8(name@) by {
                        if utf8(a.name_spec()) == utf8(name@) {
                            lemma_utf8_injective(a.name_spec(), name@);
                        }
                    }
                }
                Err(EntityAnchorParseError::Invalid { name })
            },
        }
    }

    /// Suggests the anchor names that match the remaining text.
    pub fn list_suggestions(&self, builder: &mut SuggestionsBuilderModel) -> (r: Vec<SuggestionModel>)
        ensures
            final(builder).values() == old(builder).values() + offered(seq!["feet"@, "eyes"@], old(builder).remaining_view()),
            r@.map_values(|s: SuggestionModel| s.value@) == final(builder).values(),
    {
        let mut values: Vec<String> = Vec::new();
        values.push("feet".to_owned());
        values.push("eyes".to_owned());
        assert(values@.map_values(|v: String| v@) =~= seq!["feet"@, "eyes"@]);
        suggest(values, builder);
        builder.build()
    }

    pub fn examples(&self) -> (r: [&'static str; 2])
        ensures
            r@[0]@ == "eyes"@,
            r@[1]@ == "feet"@,
    {
        ["eyes", "feet"]
    }
}

impl CommandContextModel {
    pub closed spec fn view(&self) -> Map<Seq<char>, EntityAnchorModel> {
        self.arguments.view()
    }

    pub fn with_anchor(self, name: &str, value: EntityAnchorModel) -> (r: Self)
        ensures
            r.view() == self.view().insert(name@, value),
    {
        let mut arguments = self.arguments;
        arguments.insert(name.to_owned(), value);
        CommandContextModel { arguments }
    }
}

impl Default for CommandContextModel {
    fn default() -> (r: Self)
        ensures
            r.view() == Map::<Seq<char>, EntityAnchorModel>::empty(),
    {
        CommandContextModel { arguments: ArgMap::new() }
    }
}

/// The value bound to `name`, if any.
pub fn get_anchor(context: &CommandContextModel, name: &str) -> (r: Option<EntityAnchorModel>)
    ensures
        r matches Some(v) ==> context.view().contains_key(name@) && context.view()[name@] == v,
        r is None ==> !context.view().contains_key(name@),
{
    match context.arguments.get(name) {
        Some(v) => Some(*v),
        None => None,
    }
}

} // verus!
