//! Ready-made renderables.

pub mod text_area;
