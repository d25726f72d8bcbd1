//! Game sound: cues, music direction, voices, and the sound data they
//! share. Samples and gains are carried by their bits; mixing arithmetic is
//! the caller's.

pub mod assemble;
pub mod bank;
pub mod channels;
pub mod command;
pub mod music;
pub mod output;
pub mod rig;
pub mod service;
pub mod source;
pub mod voices;
