//! The simulation core of a turn-based dungeon crawler: level generation,
//! entities with combat, inventory and behaviour, visibility, and the rules
//! of a turn.
pub mod ai;
pub mod colors;
pub mod components;
pub mod engine;
pub mod equipment;
pub mod fighter;
pub mod fov;
pub mod game;
pub mod input;
pub mod item;
pub mod map;
pub mod object;
pub mod render;
pub mod rng;
pub mod room;
pub mod scene;
pub mod session;
pub mod text;
