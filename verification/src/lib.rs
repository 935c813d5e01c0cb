//! Error-diffused colour lookup tables.
//!
//! A lookup table is a cubic lattice over the RGB cube. Each cell is first
//! filled with the colour it stands for, then quantized to the nearest colour
//! of a palette while the quantization error of every cell is diffused onto
//! the cells that follow it in scan order ("minimized average error",
//! extended to three dimensions). Images are then converted by looking up
//! the cell that each pixel falls into.
//!
//! The library is generic over the colour type: colour arithmetic is handed
//! in by the caller, while the lattice layout, the diffusion kernel and its
//! reach, the nearest-entry rule and the lookup rule are verified here.

pub mod lattice;
pub mod kernel;
pub mod quantize;
pub mod lookup;
pub mod convimage;
pub mod diffusion;
