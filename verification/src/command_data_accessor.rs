//! What `/data` reads and writes: the NBT of a block entity or of an entity,
//! with the feedback each gives when it was changed, and the argument shapes
//! of the providers that find them.

use vstd::prelude::*;
use crate::text::push_str;
use crate::nbt::{Tag, TagView};
use crate::chat_component::{Component, ComponentArgument, ComponentView, ArgView, args_view, arg_view, lemma_args_view};
use crate::command::BlockPos;

verus! {

pub const ERROR_NOT_A_BLOCK_ENTITY: &'static str = "commands.data.block.invalid";

pub const ERROR_NO_PLAYERS: &'static str = "commands.data.entity.invalid";

/// A block update: where, the state before and after, and the update flags.
#[derive(Debug, Clone, PartialEq, Eq)]
pub struct BlockUpdateEvent {
    pub position: BlockPos,
    pub old_state: String,
    pub new_state: String,
    pub flags: i32,
}

/// A block entity as `/data` sees it.
#[derive(Debug, PartialEq, Eq)]
pub struct CommandBlockEntityModel {
    pub block_state: String,
    pub full_metadata: Tag,
    pub problem_path: String,
    pub changed: bool,
    pub updates: Vec<BlockUpdateEvent>,
}

impl CommandBlockEntityModel {
    pub fn new(block_state: &str, full_metadata: Tag, problem_path: &str) -> (r: Self)
        ensures
            r.block_state@ == block_state@,
            r.full_metadata == full_metadata,
            r.problem_path@ == problem_path@,
            !r.changed,
            r.updates@.len() == 0,
    {
        CommandBlockEntityModel {
            block_state: block_state.to_owned(),
            full_metadata,
            problem_path: problem_path.to_owned(),
            changed: false,
            updates: Vec::new(),
        }
    }
}

/// The block entity at a position.
#[derive(Debug, PartialEq, Eq)]
pub struct BlockDataAccessor {
    pub entity: CommandBlockEntityModel,
    pub position: BlockPos,
}

/// The position's coordinates, then the trailing arguments.
pub open spec fn position_args(p: BlockPos, trailing: Seq<ArgView>) -> Seq<ArgView> {
    seq![ArgView::Number(p.x), ArgView::Number(p.y), ArgView::Number(p.z)] + trailing
}

impl BlockDataAccessor {
    pub fn new(entity: CommandBlockEntityModel, position: BlockPos) -> (r: Self)
        ensures
            r.entity == entity,
            r.position == position,
    {
        BlockDataAccessor { entity, position }
    }

    /// Replaces the block entity's data with a compound tag, marks it changed
    /// and records a block update with the state unchanged (flags 3).
    pub fn set_data(&mut self, tag: Tag) -> (r: Result<(), String>)
        ensures
            tag is Compound ==> r is Ok
                && final(self).entity.full_metadata == tag
                && final(self).entity.changed
                && final(self).entity.updates@.len() == old(self).entity.updates@.len() + 1
                && final(self).entity.updates@.drop_last() == old(self).entity.updates@
                && final(self).entity.updates@.last().position == old(self).position
                && final(self).entity.updates@.last().old_state@ == old(self).entity.block_state@
                && final(self).entity.updates@.last().new_state@ == old(self).entity.block_state@
                && final(self).entity.updates@.last().flags == 3
                && final(self).entity.block_state == old(self).entity.block_state
                && final(self).entity.problem_path == old(self).entity.problem_path
                && final(self).position == old(self).position,
            !(tag is Compound) ==> (r matches Err(e) && e@ == "BlockDataAccessor requires a compound tag"@)
                && *final(self) == *old(self),
    {
        match tag {
            Tag::Compound(_) => {},
            _ => {
                return Err("BlockDataAccessor requires a compound tag".to_owned());
            },
        }
        let state = self.entity.block_state.clone();
        self.entity.full_metadata = tag;
        self.entity.changed = true;
        self.entity.updates.push(BlockUpdateEvent { position: self.position, old_state: state.clone(), new_state: state, flags: 3 });
        Ok(())
    }

    /// The block entity's data.
    pub fn get_data(&self) -> (r: Result<Tag, String>)
        ensures
            r matches Ok(t) && t.deep() == self.entity.full_metadata.deep(),
    {
        Ok(self.entity.full_metadata.copy())
    }

    /// `commands.data.block.modified` with the position.
    pub fn get_modified_success(&self) -> (r: Component)
        ensures
            r.deep() == ComponentView::Translatable("commands.data.block.modified"@, position_args(self.position, seq![])),
    {
        let mut args: Vec<ComponentArgument> = Vec::new();
        args.push(ComponentArgument::Number(self.position.x));
        args.push(ComponentArgument::Number(self.position.y));
        args.push(ComponentArgument::Number(self.position.z));
        proof {
            lemma_args_view(args@);
            assert(args_view(args@) =~= position_args(self.position, seq![]));
        }
        Component::translatable("commands.data.block.modified".to_owned(), args)
    }
}

/// An entity as `/data` sees it.
#[derive(Debug, PartialEq, Eq)]
pub struct CommandEntityModel {
    pub uuid: String,
    pub display_name: Component,
    pub is_player: bool,
    pub comparison_tag: Tag,
    pub problem_path: String,
}

#[derive(Debug, PartialEq, Eq)]
pub struct EntityDataAccessor {
    pub entity: CommandEntityModel,
}

impl EntityDataAccessor {
    pub fn new(entity: CommandEntityModel) -> (r: Self)
        ensures
            r.entity == entity,
    {
        EntityDataAccessor { entity }
    }

    /// Replaces a non-player entity's data with a compound tag; the entity
    /// keeps its UUID. Players' data cannot be set.
    pub fn set_data(&mut self, tag: Tag) -> (r: Result<(), String>)
        ensures
            old(self).entity.is_player ==> (r matches Err(e) && e@ == ERROR_NO_PLAYERS@) && *final(self) == *old(self),
            !old(self).entity.is_player && !(tag is Compound) ==> (r matches Err(e)
                && e@ == "EntityDataAccessor requires a compound tag"@) && *final(self) == *old(self),
            !old(self).entity.is_player && tag is Compound ==> r is Ok
                && final(self).entity.comparison_tag == tag
                && final(self).entity.uuid@ == old(self).entity.uuid@
                && final(self).entity.display_name == old(self).entity.display_name
                && final(self).entity.is_player == old(self).entity.is_player
                && final(self).entity.problem_path == old(self).entity.problem_path,
    {
        if self.entity.is_player {
            return Err(ERROR_NO_PLAYERS.to_owned());
        }
        match tag {
            Tag::Compound(_) => {},
            _ => {
                return Err("EntityDataAccessor requires a compound tag".to_owned());
            },
        }
        let uuid = self.entity.uuid.clone();
        self.entity.comparison_tag = tag;
        self.entity.uuid = uuid;
        Ok(())
    }

    /// The entity's data.
    pub fn get_data(&self) -> (r: Result<Tag, String>)
        ensures
            r matches Ok(t) && t.deep() == self.entity.comparison_tag.deep(),
    {
        Ok(self.entity.comparison_tag.copy())
    }

    /// `commands.data.entity.modified` with the entity's display name.
    pub fn get_modified_success(&self) -> (r: Component)
        ensures
            r.deep() == ComponentView::Translatable(
                "commands.data.entity.modified"@,
                seq![ArgView::Component(Box::new(self.entity.display_name.deep()))],
            ),
    {
        let mut args: Vec<ComponentArgument> = Vec::new();
        args.push(ComponentArgument::Component(Box::new(self.entity.display_name.copy())));
        proof {
            lemma_args_view(args@);
            assert(args_view(args@) =~= seq![ArgView::Component(Box::new(self.entity.display_name.deep()))]);
        }
        Component::translatable("commands.data.entity.modified".to_owned(), args)
    }
}

/// `prefix`, `middle`, `suffix` joined.
fn joined(prefix: &str, middle: &str, suffix: &str) -> (r: String)
    ensures
        r@ == prefix@ + middle@ + suffix@,
{
    let mut s = prefix.to_owned();
    push_str(&mut s, middle);
    push_str(&mut s, suffix);
    s
}

#[derive(Debug, Clone, PartialEq, Eq)]
pub struct EntityDataProviderModel {
    pub argument_name: String,
}

impl EntityDataProviderModel {
    pub fn new(argument_name: &str) -> (r: Self)
        ensures
            r.argument_name@ == argument_name@,
    {
        EntityDataProviderModel { argument_name: argument_name.to_owned() }
    }

    pub fn access(&self, entity: CommandEntityModel) -> (r: EntityDataAccessor)
        ensures
            r.entity == entity,
    {
        EntityDataAccessor::new(entity)
    }

    /// `entity <name>`.
    pub fn wrapped_argument_shape(&self) -> (r: String)
        ensures
            r@ == "entity <"@ + self.argument_name@ + ">"@,
    {
        joined("entity <", self.argument_name.as_str(), ">")
    }
}

#[derive(Debug, Clone, PartialEq, Eq)]
pub struct StorageDataProviderModel {
    pub argument_name: String,
}

impl StorageDataProviderModel {
    pub fn new(argument_name: &str) -> (r: Self)
        ensures
            r.argument_name@ == argument_name@,
    {
        StorageDataProviderModel { argument_name: argument_name.to_owned() }
    }

    /// `storage <name> [suggest command-storage keys]`.
    pub fn wrapped_argument_shape(&self) -> (r: String)
        ensures
            r@ == "storage <"@ + self.argument_name@ + "> [suggest command-storage keys]"@,
    {
        joined("storage <", self.argument_name.as_str(), "> [suggest command-storage keys]")
    }
}

#[derive(Debug, Clone, PartialEq, Eq)]
pub struct BlockDataProviderModel {
    pub argument_prefix: String,
}

impl BlockDataProviderModel {
    pub fn new(argument_prefix: &str) -> (r: Self)
        ensures
            r.argument_prefix@ == argument_prefix@,
    {
        BlockDataProviderModel { argument_prefix: argument_prefix.to_owned() }
    }

    /// The name of the position argument: the prefix and `Pos`.
    pub fn position_argument(&self) -> (r: String)
        ensures
            r@ == self.argument_prefix@ + "Pos"@,
    {
        let mut s = self.argument_prefix.clone();
        push_str(&mut s, "Pos");
        s
    }

    /// The block entity at the position, which must be loaded and be one.
    pub fn access(&self, entity: Option<CommandBlockEntityModel>, position: BlockPos) -> (r: Result<BlockDataAccessor, &'static str>)
        ensures
            match entity {
                Some(e) => r matches Ok(a) && a.entity == e && a.position == position,
                None => r matches Err(m) && m@ == ERROR_NOT_A_BLOCK_ENTITY@,
            },
    {
        match entity {
            Some(e) => Ok(BlockDataAccessor::new(e, position)),
            None => Err(ERROR_NOT_A_BLOCK_ENTITY),
        }
    }

    /// `block <prefixPos>`.
    pub fn wrapped_argument_shape(&self) -> (r: String)
        ensures
            r@ == "block <"@ + self.argument_prefix@ + "Pos"@ + ">"@,
    {
        let pos = self.position_argument();
        joined("block <", pos.as_str(), ">")
    }
}

} // verus!
