//! Verified core of a crosshair overlay: the `config.ini` grammar, the
//! crosshair type names, the colour code, and the choice of shapes that make
//! up each crosshair.

pub mod text;
pub mod config;
pub mod laws;
pub mod shapes;
