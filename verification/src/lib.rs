//! Library core of the image proxy: glyph atlas, text-to-PNG rendering, and
//! the request rewriting that replaces bulky prompt text with rendered images.

pub mod font;
pub mod text;
pub mod render;
pub mod json;
pub mod digest;
pub mod info;
pub mod cache;
pub mod blocks;
pub mod system;
pub mod tools;
pub mod messages;
pub mod transform;
pub mod usage;
pub mod proxy;
pub mod stats;
