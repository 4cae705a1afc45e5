//! Turn-based grid combat: the initiative-ordered turn state machine, the
//! occupancy grid, and the resolution of declared movement against it.

pub mod battle_grid;
pub mod card_data;
pub mod card_text;
pub mod card_zones;
pub mod components;
pub mod coordinate;
pub mod direction;
pub mod game_state;
pub mod move_action;
pub mod movement;
mod random;
pub mod systems;
pub mod turn_tracker;
