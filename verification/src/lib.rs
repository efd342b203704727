//! Client-side logic of the Aeonetica game engine: vertex batching, buffer
//! layouts, sprite sheets, bitmap fonts, text areas, window events and the
//! bookkeeping of downloaded mods.

pub mod math;
pub mod events;
pub mod client_runtime;
pub mod text;
pub mod networking;
pub mod client;
pub mod renderer;
