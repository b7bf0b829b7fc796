//! Graph model, layout engine and interaction logic of a patchbay editor.

pub mod units;
pub mod graph;
pub mod pipewire_client;
pub mod preset;
pub mod slots;
pub mod geometry;
pub mod auto_layout;
pub mod columns;
pub mod rows;
pub mod text;
pub mod config;
pub mod search;
pub mod model;
pub mod layout;
pub mod events;
pub mod hit;
pub mod interaction;
