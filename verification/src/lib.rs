//! The logic of a Matrix digital-rain screensaver: its configuration and command line, the rain
//! itself, the pictures it paints and the files they go to.

pub mod bytes;
pub mod cff;
pub mod cff_laws;
pub mod charset;
pub mod cli;
pub mod cli_laws;
pub mod color;
pub mod color_laws;
pub mod config;
pub mod config_laws;
pub mod encode;
pub mod fall_laws;
pub mod font;
pub mod font_data;
pub mod font_laws;
pub mod font_tables;
pub mod frame;
pub mod frame_laws;
pub mod glyph;
pub mod number;
pub mod number_laws;
pub mod paint;
pub mod picture;
pub mod rain;
pub mod rain_laws;
pub mod rng;
pub mod session;
pub mod setting_laws;
pub mod text;
pub mod text_laws;
