//! The file formats: the `ANI` container, the `INF` installer and Xcursor.

pub mod ani;
pub mod ani_order;
pub mod inf;
pub mod xcursor;
