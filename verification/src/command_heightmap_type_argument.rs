//! The `heightmap` argument: a heightmap type kept after world generation,
//! named by its lower-case id.

use vstd::prelude::*;
use crate::text::{utf8, str_eq, lemma_utf8_injective};
use crate::string_reader::{unquoted_end};
use crate::arg_map::ArgMap;
use crate::command_shared_suggestion_provider::{suggest, SuggestionModel, SuggestionsBuilderModel, offered};
pub use crate::string_reader::StringReaderModel;

verus! {

broadcast use vstd::utf8::encode_utf8_decode_utf8;

#[derive(Debug, Clone, PartialEq, Eq)]
pub struct HeightmapTypeArgumentModel;

#[derive(Debug, Clone, PartialEq, Eq)]
pub enum HeightmapTypeParseError {
    InvalidValue { value: String },
}

pub struct CommandContextModel {
    arguments: ArgMap<HeightmapTypeModel>,
}

#[derive(Debug, Clone, Copy, PartialEq, Eq, Structural)]
pub enum HeightmapTypeModel {
    WorldSurfaceWg,
    WorldSurface,
    OceanFloorWg,
    OceanFloor,
    MotionBlocking,
    MotionBlockingNoLeaves,
}

#[derive(Debug, Clone, Copy, PartialEq, Eq, Structural)]
pub enum HeightmapUsageModel {
    Worldgen,
    LiveWorld,
    Client,
}

impl HeightmapTypeModel {
    pub const VALUES: [HeightmapTypeModel; 6] = [
        HeightmapTypeModel::WorldSurfaceWg,
        HeightmapTypeModel::WorldSurface,
        HeightmapTypeModel::OceanFloorWg,
        HeightmapTypeModel::OceanFloor,
        HeightmapTypeModel::MotionBlocking,
        HeightmapTypeModel::MotionBlockingNoLeaves,
    ];

    pub open spec fn key_spec(self) -> Seq<char> {
        match self {
            HeightmapTypeModel::WorldSurfaceWg => "WORLD_SURFACE_WG"@,
            HeightmapTypeModel::WorldSurface => "WORLD_SURFACE"@,
            HeightmapTypeModel::OceanFloorWg => "OCEAN_FLOOR_WG"@,
            HeightmapTypeModel::OceanFloor => "OCEAN_FLOOR"@,
            HeightmapTypeModel::MotionBlocking => "MOTION_BLOCKING"@,
            HeightmapTypeModel::MotionBlockingNoLeaves => "MOTION_BLOCKING_NO_LEAVES"@,
        }
    }

    pub open spec fn id_spec(self) -> Seq<char> {
        match self {
            HeightmapTypeModel::WorldSurfaceWg => "world_surface_wg"@,
            HeightmapTypeModel::WorldSurface => "world_surface"@,
            HeightmapTypeModel::OceanFloorWg => "ocean_floor_wg"@,
            HeightmapTypeModel::OceanFloor => "ocean_floor"@,
            HeightmapTypeModel::MotionBlocking => "motion_blocking"@,
            HeightmapTypeModel::MotionBlockingNoLeaves => "motion_blocking_no_leaves"@,
        }
    }

    pub open spec fn usage_spec(self) -> HeightmapUsageModel {
        match self {
            HeightmapTypeModel::WorldSurfaceWg => HeightmapUsageModel::Worldgen,
            HeightmapTypeModel::WorldSurface => HeightmapUsageModel::Client,
            HeightmapTypeModel::OceanFloorWg => HeightmapUsageModel::Worldgen,
            HeightmapTypeModel::OceanFloor => HeightmapUsageModel::LiveWorld,
            HeightmapTypeModel::MotionBlocking => HeightmapUsageModel::Client,
            HeightmapTypeModel::MotionBlockingNoLeaves => HeightmapUsageModel::Client,
        }
    }

    pub fn serialization_key(self) -> (r: &'static str)
        ensures
            r@ == self.key_spec(),
    {
        match self {
            HeightmapTypeModel::WorldSurfaceWg => "WORLD_SURFACE_WG",
            HeightmapTypeModel::WorldSurface => "WORLD_SURFACE",
            HeightmapTypeModel::OceanFloorWg => "OCEAN_FLOOR_WG",
            HeightmapTypeModel::OceanFloor => "OCEAN_FLOOR",
            HeightmapTypeModel::MotionBlocking => "MOTION_BLOCKING",
            HeightmapTypeModel::MotionBlockingNoLeaves => "MOTION_BLOCKING_NO_LEAVES",
        }
    }

    pub fn lower_case_id(self) -> (r: &'static str)
        ensures
            r@ == self.id_spec(),
    {
        match self {
            HeightmapTypeModel::WorldSurfaceWg => "world_surface_wg",
            HeightmapTypeModel::WorldSurface => "world_surface",
            HeightmapTypeModel::OceanFloorWg => "ocean_floor_wg",
            HeightmapTypeModel::OceanFloor => "ocean_floor",
            HeightmapTypeModel::MotionBlocking => "motion_blocking",
            HeightmapTypeModel::MotionBlockingNoLeaves => "motion_blocking_no_leaves",
        }
    }

    pub fn usage(self) -> (r: HeightmapUsageModel)
        ensures
            r == self.usage_spec(),
    {
        match self {
            HeightmapTypeModel::WorldSurfaceWg => HeightmapUsageModel::Worldgen,
            HeightmapTypeModel::WorldSurface => HeightmapUsageModel::Client,
            HeightmapTypeModel::OceanFloorWg => HeightmapUsageModel::Worldgen,
            HeightmapTypeModel::OceanFloor => HeightmapUsageModel::LiveWorld,
            HeightmapTypeModel::MotionBlocking => HeightmapUsageModel::Client,
            HeightmapTypeModel::MotionBlockingNoLeaves => HeightmapUsageModel::Client,
        }
    }

    /// Worldgen-only heightmaps are dropped after generation.
    pub fn keep_after_worldgen(self) -> (r: bool)
        ensures
            r == (self.usage_spec() != HeightmapUsageModel::Worldgen),
    {
        self.usage() != HeightmapUsageModel::Worldgen
    }

    pub fn send_to_client(self) -> (r: bool)
        ensures
            r == (self.usage_spec() == HeightmapUsageModel::Client),
    {
        self.usage() == HeightmapUsageModel::Client
    }

    /// The types kept after world generation, in declaration order.
    pub fn kept_types() -> (r: Vec<HeightmapTypeModel>)
        ensures
            r@ == Self::VALUES@.filter(|h: HeightmapTypeModel| h.usage_spec() != HeightmapUsageModel::Worldgen),
    {
        let values = Self::VALUES;
        let mut out: Vec<HeightmapTypeModel> = Vec::new();
        let mut i: usize = 0;
        while i < 6
            invariant
                values@ == Self::VALUES@,
                0 <= i <= 6,
                out@ == values@.subrange(0, i as int).filter(|h: HeightmapTypeModel| h.usage_spec() != HeightmapUsageModel::Worldgen),
            decreases 6 - i,
        {
            let h = values[i];
            proof {
                reveal_with_fuel(Seq::<HeightmapTypeModel>::filter, 1);
                assert(values@.subrange(0, i + 1).drop_last() =~= values@.subrange(0, i as int));
            }
            if h.keep_after_worldgen() {
                out.push(h);
            }
            i = i + 1;
        }
        assert(values@.subrange(0, 6) =~= values@);
        out
    }

    fn from_lowercase_id(value: &str) -> (r: Option<HeightmapTypeModel>)
        ensures
            r matches Some(v) ==> v.id_spec() == value@,
            r is None ==> forall|v: HeightmapTypeModel| #[trigger] v.id_spec() != value@,
    {
        if str_eq(value, "world_surface_wg") {
            return Some(HeightmapTypeModel::WorldSurfaceWg);
        }
        if str_eq(value, "world_surface") {
            return Some(HeightmapTypeModel::WorldSurface);
        }
        if str_eq(value, "ocean_floor_wg") {
            return Some(HeightmapTypeModel::OceanFloorWg);
        }
        if str_eq(value, "ocean_floor") {
            return Some(HeightmapTypeModel::OceanFloor);
        }
        if str_eq(value, "motion_blocking") {
            return Some(HeightmapTypeModel::MotionBlocking);
        }
        if str_eq(value, "motion_blocking_no_leaves") {
            return Some(HeightmapTypeModel::MotionBlockingNoLeaves);
        }
        proof {
            assert forall|v: HeightmapTypeModel| #[trigger] v.id_spec() != value@ by {
                match v {
                    HeightmapTypeModel::WorldSurfaceWg => {},
                    HeightmapTypeModel::WorldSurface => {},
                    HeightmapTypeModel::OceanFloorWg => {},
                    HeightmapTypeModel::OceanFloor => {},
                    HeightmapTypeModel::MotionBlocking => {},
                    HeightmapTypeModel::MotionBlockingNoLeaves => {},
                }
            }
        }
        None
    }
}

/// The ids that are suggested: those of the kept types.
pub open spec fn kept_ids() -> Seq<Seq<char>> {
    seq!["world_surface"@, "ocean_floor"@, "motion_blocking"@, "motion_blocking_no_leaves"@]
}

impl HeightmapTypeArgumentModel {
    pub fn heightmap() -> (r: Self) {
        HeightmapTypeArgumentModel
    }

    /// Reads a token up to whitespace; it must be the lower-case id of a kept
    /// heightmap type. The cursor stays after the token even when rejected.
    pub fn parse(&self, reader: &mut StringReaderModel) -> (r: Result<HeightmapTypeModel, HeightmapTypeParseError>)
        requires
            old(reader).at_cut(),
        ensures
            final(reader).text() == old(reader).text(),
            final(reader).pos() == unquoted_end(old(reader).bytes(), old(reader).pos()),
            final(reader).at_cut(),
            ({
                let tok = old(reader).bytes().subrange(old(reader).pos(), final(reader).pos());
                match r {
                    Ok(h) => utf8(h.id_spec()) == tok && h.usage_spec() != HeightmapUsageModel::Worldgen,
                    Err(HeightmapTypeParseError::InvalidValue { value }) => utf8(value@) == tok
                        && forall|h: HeightmapTypeModel| #[trigger] utf8(h.id_spec()) == tok ==> h.usage_spec() == HeightmapUsageModel::Worldgen,
                }
            }),
    {
        let id = reader.read_unquoted_string();
        match HeightmapTypeModel::from_lowercase_id(id.as_str()) {
            Some(h) => {
                if h.keep_after_worldgen() {
                    return Ok(h);
                }
                proof {
                    assert forall|g: HeightmapTypeModel| #[trigger] utf8(g.id_spec()) == utf8(id@) implies g.usage_spec() == HeightmapUsageModel::Worldgen by {
                        lemma_utf8_injective(g.id_spec(), id@);
                        lemma_utf8_injective(h.id_spec(), id@);
                        reveal_strlit("world_surface_wg");
                        reveal_strlit("world_surface");
                        reveal_strlit("ocean_floor_wg");
                        reveal_strlit("ocean_floor");
                        reveal_strlit("motion_blocking");
                        reveal_strlit("motion_blocking_no_leaves");
                        assert(g.id_spec().len() == h.id_spec().len());
                    }
                }
                Err(HeightmapTypeParseError::InvalidValue { value: id })
            },
            None => {
                proof {
                    assert forall|g: HeightmapTypeModel| #[trigger] utf8(g.id_spec()) == utf8(id@) implies g.usage_spec() == HeightmapUsageModel::Worldgen by {
                        lemma_utf8_injective(g.id_spec(), id@);
                    }
                }
                Err(HeightmapTypeParseError::InvalidValue { value: id })
            },
        }
    }

    /// Suggests the ids of the kept types that match the remaining text.
    pub fn list_suggestions(&self, builder: &mut SuggestionsBuilderModel) -> (r: Vec<SuggestionModel>)
        ensures
            final(builder).values() == old(builder).values() + offered(kept_ids(), old(builder).remaining_view()),
            r@.map_values(|s: SuggestionModel| s.value@) == final(builder).values(),
    {
        let mut values: Vec<String> = Vec::new();
        values.push("world_surface".to_owned());
        values.push("ocean_floor".to_owned());
        values.push("motion_blocking".to_owned());
        values.push("motion_blocking_no_leaves".to_owned());
        assert(values@.map_values(|v: String| v@) =~= kept_ids());
        suggest(values, builder);
        builder.build()
    }

    pub fn examples(&self) -> (r: [&'static str; 2])
        ensures
            r@[0]@ == "world_surface"@,
            r@[1]@ == "ocean_floor"@,
    {
        ["world_surface", "ocean_floor"]
    }

    /// The ids of the kept types, in declaration order.
    pub fn ids() -> (r: [&'static str; 4])
        ensures
            r@.map_values(|s: &'static str| s@) == kept_ids(),
    {
        let r = [
            HeightmapTypeModel::WorldSurface.lower_case_id(),
            HeightmapTypeModel::OceanFloor.lower_case_id(),
            HeightmapTypeModel::MotionBlocking.lower_case_id(),
            HeightmapTypeModel::MotionBlockingNoLeaves.lower_case_id(),
        ];
        assert(r@.map_values(|s: &'static str| s@) =~= kept_ids());
        r
    }
}

impl CommandContextModel {
    pub closed spec fn view(&self) -> Map<Seq<char>, HeightmapTypeModel> {
        self.arguments.view()
    }

    pub fn with_heightmap(self, name: &str, value: HeightmapTypeModel) -> (r: Self)
        ensures
            r.view() == self.view().insert(name@, value),
    {
        let mut arguments = self.arguments;
        arguments.insert(name.to_owned(), value);
        CommandContextModel { arguments }
    }
}

impl Default for CommandContextModel {
    fn default() -> (r: Self)
        ensures
            r.view() == Map::<Seq<char>, HeightmapTypeModel>::empty(),
    {
        CommandContextModel { arguments: ArgMap::new() }
    }
}

/// The value bound to `name`, if any.
pub fn get_heightmap(context: &CommandContextModel, name: &str) -> (r: Option<HeightmapTypeModel>)
    ensures
        r matches Some(v) ==> context.view().contains_key(name@) && context.view()[name@] == v,
        r is None ==> !context.view().contains_key(name@),
{
    match context.arguments.get(name) {
        Some(v) => Some(*v),
        None => None,
    }
}

} // verus!
