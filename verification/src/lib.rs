//! Bookkeeping for a small OpenGL renderer: which GL contexts exist, which one
//! is current, and what a frame asks of the GL.
pub mod context_tracker;
pub mod support;
