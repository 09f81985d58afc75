//! Driver stack for a 128x64 monochrome panel built from two half-width
//! controller chips behind an SPI-attached I/O expander, with the alarm-clock
//! data types that feed it.

pub mod error;
pub mod trace;
pub mod link;
pub mod expander;
pub mod bus;
pub mod panel;
pub mod bitmatrix;
pub mod framebuffer;
pub mod font;
pub mod canvas;
pub mod alarm;
pub mod display;
pub mod laws;
pub mod fontmap;
pub mod oled;
pub mod input;
pub mod player;
pub mod webform;
pub mod lcd;
