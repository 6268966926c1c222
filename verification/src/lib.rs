//! Rendering, firmware-update and safety logic for LED matrix controllers.
pub mod render;
pub mod interfaces;
pub mod crypto;
pub mod firmware;
pub mod safety;
pub mod font;
