//! Pure logic of the Gerber viewer: the layer panel's markup, paint order,
//! layer labels and the names of fetched sources.
pub mod controls;
pub mod scene;

pub mod style;
pub mod sources;
