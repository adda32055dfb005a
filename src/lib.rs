//! Glyph rasterization and text composition for on-screen text editing.
//!
//! Curves are evaluated exactly over integers, outlines are collected from
//! a font decoder's drawing commands, glyph metrics are cached once per font,
//! and text is laid out into a display list that a graphics back end draws.
pub mod math;
pub mod outline;
pub mod font;
pub mod raster;
pub mod textbox;
pub mod io;
pub mod win;
pub mod editor;
