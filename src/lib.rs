pub mod components;
pub mod dice;
pub mod map;
pub mod mapgen;
pub mod rect;
pub mod state;
pub mod visibility;

pub use components::{Cell, Entity, Monster, Name, Player, Position, Renderable, ViewShed};
pub use map::{TileMap, TileType};
pub use rect::Rect;
pub use state::{player_input, try_move_player, Key, MonsterAI, RunState, State};
