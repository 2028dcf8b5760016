//! Pure logic of the GDSII tile viewer: layer colours, storage keys and tile
//! ranges.
pub mod manifest;
pub mod panel;
pub mod state;
pub mod transform;
