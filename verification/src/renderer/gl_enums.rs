//! OpenGL enumeration values used by the renderer (as defined by the
//! Khronos OpenGL registry).

use vstd::prelude::*;

verus! {

pub const FLOAT: u32 = 0x1406;
pub const INT: u32 = 0x1404;
pub const BOOL: u32 = 0x8B56;
pub const UNSIGNED_BYTE: u32 = 0x1401;
pub const FLOAT_VEC2: u32 = 0x8B50;
pub const FLOAT_VEC3: u32 = 0x8B51;
pub const FLOAT_VEC4: u32 = 0x8B52;
pub const INT_VEC2: u32 = 0x8B53;
pub const INT_VEC3: u32 = 0x8B54;
pub const INT_VEC4: u32 = 0x8B55;
pub const FLOAT_MAT3: u32 = 0x8B5B;
pub const FLOAT_MAT4: u32 = 0x8B5C;
pub const SAMPLER_2D: u32 = 0x8B5E;
pub const RGBA8: u32 = 0x8058;
pub const RGB8: u32 = 0x8051;
pub const RGB16F: u32 = 0x881B;
pub const RGB: u32 = 0x1907;
pub const RGBA: u32 = 0x1908;
pub const GL_TRUE: u8 = 1;
pub const GL_FALSE: u8 = 0;
pub const VERTEX_SHADER: u32 = 0x8B31;
pub const FRAGMENT_SHADER: u32 = 0x8B30;

} // verus!
