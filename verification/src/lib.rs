pub mod engine;
pub mod framebuffer;
pub mod render;
pub mod rng;
