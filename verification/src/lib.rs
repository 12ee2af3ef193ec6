//! The core of a tile-based dungeon crawler: level generation, field of view
//! with map memory, and the per-frame step that moves the player and prepares
//! what a renderer draws.

pub mod builder;
pub mod components;
pub mod fov;
pub mod glyph;
pub mod map;
pub mod player;
pub mod random;
pub mod reach;
pub mod rect;
pub mod render;
pub mod state;
pub mod visibility_system;
pub mod world;

pub use builder::{GenerationError, LevelConfig, Strategy};
pub use components::{Color, Player, Position, Renderable, Viewshed, ViewshedView};
pub use glyph::glyph_for_wall;
pub use map::{Tile, TileMap};
pub use player::{player_input, try_move_player, Input};
pub use rect::Rect;
pub use render::{draw_entities, draw_map, Cell, Frame, Shade, Sprite};
pub use state::{RunState, State};
pub use visibility_system::VisibilitySystem;
pub use world::{EntityRecord, RecordView};
