//! Verified core of a point-and-click adventure engine: asset ids, inventory
//! and combine recipes, ring / hop route planning, dialog trees, story
//! scripts, save-file framing and the small vocabularies the rest of the
//! engine shares.

pub mod text;
pub mod asset_id;
pub mod str_map;
pub mod graph;
pub mod inventory;
pub mod combine;
pub mod save;
pub mod story;
pub mod story_compile;
pub mod story_runner;
pub mod dialogue;
pub mod locomotion;
pub mod input;
pub mod pick;
pub mod render2d;
pub mod batch;
pub mod atlas;
pub mod interner;
pub mod probe;
pub mod audio;
pub mod movie;
pub mod assets;
