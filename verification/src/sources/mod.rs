//! Sources of fonts: collections of font handles that can be queried by family and PostScript
//! name.

pub mod fontconfig;
pub mod fs;
pub mod mem;
pub mod multi;
