//! What a sprite viewport decides: cells of sheets, uploads that fit, the
//! order of drawing, and what a pointer means.

pub mod batch;
pub mod fullscreen;
pub mod viewport;
