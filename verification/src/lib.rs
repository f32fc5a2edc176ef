//! Conversion of Windows cursor assets into X11 cursor files and themes.
//!
//! The crate is the verified core of the converter: it decodes the `ANI`
//! container and the `INF` installer text, models static and animated cursors
//! with their scaled variants, and lays out the bytes of an Xcursor file.
//! Reading and writing files and directories is left to the caller, who hands
//! over bytes and text and receives bytes and text back.
//!
//! Three outside crates do what is not proved here: `ico` decodes the images
//! of a `CUR` container, `configparser` reads INI text, and
//! `fast_image_resize` resamples pixels. Each call stands in a small function
//! whose contract says what is taken on trust.

pub mod bytes;
pub mod cli;
pub mod cursors;
pub mod formats;
pub mod fs_utils;
pub mod scaling;
pub mod text;
pub mod themes;
