use lib::chat_component::{Component, ComponentArgument};
use lib::command::BlockPos;
use lib::command_data_accessor::{
    BlockDataAccessor, BlockDataProviderModel, BlockUpdateEvent, CommandBlockEntityModel,
    CommandEntityModel, EntityDataAccessor, EntityDataProviderModel, StorageDataProviderModel,
    ERROR_NOT_A_BLOCK_ENTITY, ERROR_NO_PLAYERS,
};
use lib::nbt::Tag;

fn entity(is_player: bool) -> CommandEntityModel {
    CommandEntityModel {
        uuid: "original-uuid".to_string(),
        display_name: Component::literal("Pig"),
        is_player,
        comparison_tag: Tag::Compound(Vec::new()),
        problem_path: "pig".to_string(),
    }
}

#[test]
fn provider_uses_prefixed_loaded_position_and_rejects_missing_entity() {
    let provider = BlockDataProviderModel::new("target");
    let position = BlockPos { x: 0, y: 0, z: 0 };
    assert_eq!(provider.position_argument(), "targetPos");
    assert_eq!(provider.wrapped_argument_shape(), "block <targetPos>");
    assert_eq!(provider.access(None, position), Err(ERROR_NOT_A_BLOCK_ENTITY));
}

#[test]
fn block_accessor_replaces_data_and_records_the_update() {
    let position = BlockPos { x: 1, y: 64, z: -2 };
    let replacement = Tag::Compound(vec![(
        "id".to_string(),
        Tag::String("minecraft:chest".to_string()),
    )]);
    let entity = CommandBlockEntityModel::new("minecraft:chest", Tag::Compound(Vec::new()), "chest at 1,64,-2");
    let mut accessor = BlockDataAccessor::new(entity, position);
    accessor.set_data(replacement.copy()).unwrap();
    assert_eq!(accessor.get_data(), Ok(replacement.copy()));
    assert!(accessor.entity.changed);
    assert_eq!(
        accessor.entity.updates,
        vec![BlockUpdateEvent {
            position,
            old_state: "minecraft:chest".to_string(),
            new_state: "minecraft:chest".to_string(),
            flags: 3,
        }]
    );
    assert_eq!(
        accessor.get_modified_success(),
        Component::translatable(
            "commands.data.block.modified".to_string(),
            vec![ComponentArgument::Number(1), ComponentArgument::Number(64), ComponentArgument::Number(-2)]
        )
    );
    assert_eq!(
        accessor.set_data(Tag::Int(3)),
        Err("BlockDataAccessor requires a compound tag".to_string())
    );
    assert_eq!(accessor.entity.updates.len(), 1);
}

#[test]
fn entity_accessor_rejects_players_and_keeps_the_uuid() {
    let tag = Tag::Compound(vec![(
        "UUID".to_string(),
        Tag::String("replacement-uuid".to_string()),
    )]);
    let mut player = EntityDataAccessor::new(entity(true));
    assert_eq!(player.set_data(tag.copy()), Err(ERROR_NO_PLAYERS.to_string()));

    let mut entity_accessor = EntityDataAccessor::new(entity(false));
    entity_accessor.set_data(tag.copy()).unwrap();
    assert_eq!(entity_accessor.entity.uuid, "original-uuid");
    assert_eq!(entity_accessor.get_data(), Ok(tag.copy()));
    assert_eq!(
        entity_accessor.get_modified_success(),
        Component::translatable(
            "commands.data.entity.modified".to_string(),
            vec![ComponentArgument::Component(Box::new(Component::literal("Pig")))]
        )
    );
    let provider = EntityDataProviderModel::new("target");
    assert_eq!(provider.wrapped_argument_shape(), "entity <target>");
    assert_eq!(provider.access(entity(false)).entity.uuid, "original-uuid");
    assert_eq!(
        StorageDataProviderModel::new("target").wrapped_argument_shape(),
        "storage <target> [suggest command-storage keys]"
    );
}
