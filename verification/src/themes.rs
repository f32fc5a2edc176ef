//! Cursor themes: the roles a cursor can play, the names each role goes by
//! on X11, and the assembly of a theme.

pub mod loader;
pub mod output;
pub mod symlinks;
pub mod theme;
