//! Per-format parsers.
pub mod gerber;
pub mod eagle_binary;
pub mod eagle;
pub mod easyeda;
pub mod altium;
pub mod gdsii;
