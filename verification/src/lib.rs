//! The logic of a font library: finding fonts in font sources by family and PostScript name,
//! nearest-font matching according to CSS Fonts Level 3, telling font files from font
//! collections, decoding glyph outlines and face properties as a loader reads them, and copying
//! rasterized glyphs into canvases.
//!
//! Loading fonts and rasterizing glyphs is the work of a loader, which implements
//! [`family::Face`]; the library takes what the loader reads and decides the rest.

pub mod bytes;
pub mod canvas;
pub mod error;
pub mod family;
pub mod file_type;
pub mod handle;
pub mod matching;
pub mod names;
pub mod outline;
pub mod properties;
pub mod raster;
pub mod set;
pub mod sfnt;
pub mod source;
pub mod sources;
pub mod text;
