//! An L-system plant generator: a grammar-rewriting engine, a turtle
//! interpreter with a pose stack, an integer line rasterizer, a viewport
//! auto-fit pass, and a frame-paced reveal animation, plus a small dice-roll
//! frequency counter.
//!
//! All geometry is integer fixed-point: direction vectors are unit vectors
//! scaled by 65536, positions are in subpixels (256 per pixel), so every
//! computation here is exact and verified.

pub mod actions;
pub mod anim;
pub mod frame;
pub mod freq;
pub mod geom;
pub mod grammar;
pub mod raster;
pub mod turtle;
pub mod viewport;
