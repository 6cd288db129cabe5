#![verifier::loop_isolation(false)]

//! Models of the server's command arguments and commands: readers that parse
//! argument tokens from command text, and the decisions that commands make.

pub mod text;
pub mod string_reader;
pub mod command_parser_utils;
pub mod command_shared_suggestion_provider;
pub mod arg_map;
pub mod search;
pub mod command;
pub mod command_save;
pub mod command_seed;
pub mod command_set_idle_timeout;
pub mod command_publish;
pub mod command_debug_path;
pub mod command_debug_mob_spawning;
pub mod command_default_gamemode;
pub mod chat_component;
pub mod command_difficulty;
pub mod command_reload;
pub mod command_result_callback;
pub mod command_execution_source;
pub mod command_function_instantiation_exception;
pub mod command_hex_color_argument;
pub mod command_scoreboard_slot_argument;
pub mod command_heightmap_type_argument;
pub mod command_game_mode_argument;
pub mod command_entity_anchor_argument;
pub mod command_operation_argument;
pub mod command_identifier_argument;
pub mod command_dimension_argument;
pub mod command_objective_criteria_argument;
pub mod command_resource_key_argument;
pub mod command_resource_or_tag_key_argument;
pub mod command_resource_or_tag_argument;
pub mod command_resource_argument;
pub mod nbt;
pub mod decimal;
pub mod command_nbt_path_argument;
pub mod str_map;
pub mod command_item_arguments;
pub mod command_execution;
pub mod localization_keys;
pub mod command_feedback;
pub mod command_nbt_arguments;
pub mod command_particle_argument;
pub mod command_resource_selector_argument;
pub mod command_objective_argument;
pub mod criterion_min_max_bounds;
pub mod command_range_argument;
pub mod command_pardon_ip;
pub mod chars;
pub mod command_selector;
pub mod command_entity_argument;
pub mod command_misc_argument_audits;
pub mod command_message_argument;
pub mod player_access;
pub mod command_game_profile_argument;
pub mod command_score_holder_argument;
pub mod command_data_accessor;
pub mod command_set_spawn;
