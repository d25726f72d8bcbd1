//! Game-side logic with machine-checked contracts.

pub mod actors;
pub mod anim;
pub mod atlas;
pub mod audio;
pub mod bodies;
pub mod fx;
pub mod input;
pub mod lists;
pub mod names;
pub mod physics;
pub mod rapier2d;
pub mod rapier3d;
pub mod scalar;
pub mod shell;
pub mod sim;
pub mod sprite;
pub mod text;
