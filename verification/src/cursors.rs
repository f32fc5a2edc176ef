//! The in-memory model of a cursor: frames, frame sequences and scaled groups.

pub mod bitmap;
pub mod cur;
pub mod cursor_image;
pub mod cursor_images;
pub mod generic_cursor;
pub mod sources;
