//! Editing rules of a Super Mario Sunshine stage editor.
use vstd::prelude::*;

pub mod text;
pub mod goop;
pub mod editor;
pub mod jdrama;
pub mod goop_spawn;
pub mod music;
pub mod npc;
pub mod project;
pub mod mask;
pub mod material;
pub mod enemy_table;
pub mod dolphin;
pub mod outliner;
pub mod actor_rebind;
pub mod spawn_update;

verus! {

} // verus!
