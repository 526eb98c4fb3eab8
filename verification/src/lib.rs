//! A verified core for a hexagonal-grid multi-user dungeon server: cube and
//! axial hex coordinates, per-thread value slots, command matching and
//! argument parsing, the login conversation, telnet line framing, the
//! multi-resolution spatial index of each map, movement, the bookkeeping of
//! entities persisted to a database, saved-entity reloads, and the helpers
//! that scripts and the map widget use.

pub mod text;
pub mod names;
pub mod coords;
pub mod thread_local;
pub mod command;
pub mod parse;
pub mod admin;
pub mod help;
pub mod net;
pub mod account;
pub mod map;
pub mod movement;
pub mod action;
pub mod ascii_map;
pub mod db;
pub mod savestate;
pub mod asset;
pub mod lua_string;
pub mod events;
pub mod render;
