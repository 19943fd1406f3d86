//! Anti-aliased rasterization of vector outlines into 8-bit coverage bitmaps,
//! together with the small data models an outline editor keeps around it.

pub mod bitmap;
pub mod coverage;
pub mod drawing;
pub mod engine;
pub mod error;
pub mod flatten;
pub mod keys;
pub mod level;
pub mod outline;
pub mod paint;
pub mod point;
pub mod polyline;
pub mod rasterizer;
pub mod scan;
pub mod sound;
pub mod split;
pub mod tiles;
pub mod tokens;
pub mod undo;
pub mod utils;
pub mod weirdvec;
