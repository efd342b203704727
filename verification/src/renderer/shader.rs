//! Shader data types and their sizes in vertex buffers.

use vstd::prelude::*;
use crate::renderer::{gl_enums, RenderID};

verus! {

/// The data type of one vertex attribute or uniform, as seen by a shader.
#[derive(Clone, Copy, Debug, PartialEq, Eq, Structural)]
pub enum ShaderDataType {
    Float,
    Float2,
    Float3,
    Float4,
    Mat3,
    Mat4,
    Int,
    Int2,
    Int3,
    Int4,
    Bool,
    Sampler2D,
}

/// Number of scalar components of a shader data type.
pub open spec fn spec_component_count(t: ShaderDataType) -> int {
    match t {
        ShaderDataType::Float | ShaderDataType::Int | ShaderDataType::Bool
        | ShaderDataType::Sampler2D => 1,
        ShaderDataType::Float2 | ShaderDataType::Int2 => 2,
        ShaderDataType::Float3 | ShaderDataType::Int3 => 3,
        ShaderDataType::Float4 | ShaderDataType::Int4 => 4,
        ShaderDataType::Mat3 => 9,
        ShaderDataType::Mat4 => 16,
    }
}

/// Size in bytes of one scalar component (`GLfloat` and `GLint` take four
/// bytes, `GLboolean` one).
pub open spec fn spec_component_size(t: ShaderDataType) -> int {
    match t {
        ShaderDataType::Bool => 1,
        _ => 4,
    }
}

/// Size in bytes of a value of the given shader data type.
pub open spec fn spec_size(t: ShaderDataType) -> int {
    spec_component_count(t) * spec_component_size(t)
}

/// Whether the scalar base type is a floating point type.
pub open spec fn spec_base_is_fp(t: ShaderDataType) -> bool {
    match t {
        ShaderDataType::Float | ShaderDataType::Float2 | ShaderDataType::Float3
        | ShaderDataType::Float4 | ShaderDataType::Mat3 | ShaderDataType::Mat4 => true,
        _ => false,
    }
}

impl ShaderDataType {
    /// The OpenGL enumeration value that names this type.
    pub fn gl_enum(&self) -> (r: u32)
        ensures
            *self == ShaderDataType::Float ==> r == gl_enums::FLOAT,
            *self == ShaderDataType::Float2 ==> r == gl_enums::FLOAT_VEC2,
            *self == ShaderDataType::Float3 ==> r == gl_enums::FLOAT_VEC3,
            *self == ShaderDataType::Float4 ==> r == gl_enums::FLOAT_VEC4,
            *self == ShaderDataType::Mat3 ==> r == gl_enums::FLOAT_MAT3,
            *self == ShaderDataType::Mat4 ==> r == gl_enums::FLOAT_MAT4,
            *self == ShaderDataType::Int ==> r == gl_enums::INT,
            *self == ShaderDataType::Int2 ==> r == gl_enums::INT_VEC2,
            *self == ShaderDataType::Int3 ==> r == gl_enums::INT_VEC3,
            *self == ShaderDataType::Int4 ==> r == gl_enums::INT_VEC4,
            *self == ShaderDataType::Bool ==> r == gl_enums::BOOL,
            *self == ShaderDataType::Sampler2D ==> r == gl_enums::SAMPLER_2D,
    {
        match self {
            ShaderDataType::Float => gl_enums::FLOAT,
            ShaderDataType::Float2 => gl_enums::FLOAT_VEC2,
            ShaderDataType::Float3 => gl_enums::FLOAT_VEC3,
            ShaderDataType::Float4 => gl_enums::FLOAT_VEC4,
            ShaderDataType::Mat3 => gl_enums::FLOAT_MAT3,
            ShaderDataType::Mat4 => gl_enums::FLOAT_MAT4,
            ShaderDataType::Int => gl_enums::INT,
            ShaderDataType::Int2 => gl_enums::INT_VEC2,
            ShaderDataType::Int3 => gl_enums::INT_VEC3,
            ShaderDataType::Int4 => gl_enums::INT_VEC4,
            ShaderDataType::Bool => gl_enums::BOOL,
            ShaderDataType::Sampler2D => gl_enums::SAMPLER_2D,
        }
    }

    /// Size in bytes of a value of this type.
    pub fn size(&self) -> (r: u32)
        ensures
            r == spec_size(*self),
    {
        match self {
            ShaderDataType::Float => 4,
            ShaderDataType::Float2 => 8,
            ShaderDataType::Float3 => 12,
            ShaderDataType::Float4 => 16,
            ShaderDataType::Mat3 => 36,
            ShaderDataType::Mat4 => 64,
            ShaderDataType::Int => 4,
            ShaderDataType::Int2 => 8,
            ShaderDataType::Int3 => 12,
            ShaderDataType::Int4 => 16,
            ShaderDataType::Bool => 1,
            ShaderDataType::Sampler2D => 4,
        }
    }

    /// Number of scalar components of this type.
    pub fn component_count(&self) -> (r: i32)
        ensures
            r == spec_component_count(*self),
    {
        match self {
            ShaderDataType::Float | ShaderDataType::Int | ShaderDataType::Bool
            | ShaderDataType::Sampler2D => 1,
            ShaderDataType::Float2 | ShaderDataType::Int2 => 2,
            ShaderDataType::Float3 | ShaderDataType::Int3 => 3,
            ShaderDataType::Float4 | ShaderDataType::Int4 => 4,
            ShaderDataType::Mat3 => 9,
            ShaderDataType::Mat4 => 16,
        }
    }

    /// The OpenGL enumeration value of the scalar base type.
    pub fn base_type(&self) -> (r: u32)
        ensures
            spec_base_is_fp(*self) ==> r == gl_enums::FLOAT,
            *self == ShaderDataType::Bool ==> r == gl_enums::BOOL,
            !spec_base_is_fp(*self) && *self != ShaderDataType::Bool ==> r == gl_enums::INT,
    {
        match self {
            ShaderDataType::Float | ShaderDataType::Float2 | ShaderDataType::Float3
            | ShaderDataType::Float4 | ShaderDataType::Mat3 | ShaderDataType::Mat4 => gl_enums::FLOAT,
            ShaderDataType::Int | ShaderDataType::Int2 | ShaderDataType::Int3
            | ShaderDataType::Int4 | ShaderDataType::Sampler2D => gl_enums::INT,
            ShaderDataType::Bool => gl_enums::BOOL,
        }
    }

    /// Whether the scalar base type is a floating point type.
    pub fn base_is_fp(&self) -> (r: bool)
        ensures
            r == spec_base_is_fp(*self),
    {
        match self {
            ShaderDataType::Float | ShaderDataType::Float2 | ShaderDataType::Float3
            | ShaderDataType::Float4 | ShaderDataType::Mat3 | ShaderDataType::Mat4 => true,
            _ => false,
        }
    }

    /// Whether the scalar base type is an integer type (booleans and samplers
    /// count as integers).
    pub fn base_is_int(&self) -> (r: bool)
        ensures
            r == !spec_base_is_fp(*self),
    {
        match self {
            ShaderDataType::Int | ShaderDataType::Int2 | ShaderDataType::Int3
            | ShaderDataType::Int4 | ShaderDataType::Sampler2D | ShaderDataType::Bool => true,
            _ => false,
        }
    }

    /// Whether the scalar base type is a 64-bit type; no supported type is.
    pub fn base_is_long(&self) -> (r: bool)
        ensures
            !r,
    {
        false
    }
}

/// The stage a shader runs in.
#[derive(Clone, Copy, Debug, PartialEq, Eq, Structural)]
pub enum ShaderType {
    Vertex,
    Fragment,
}

impl ShaderType {
    /// The OpenGL enumeration value of the stage.
    pub fn gl_enum(&self) -> (r: u32)
        ensures
            r == (match *self {
                ShaderType::Vertex => gl_enums::VERTEX_SHADER,
                ShaderType::Fragment => gl_enums::FRAGMENT_SHADER,
            }),
    {
        match self {
            ShaderType::Vertex => gl_enums::VERTEX_SHADER,
            ShaderType::Fragment => gl_enums::FRAGMENT_SHADER,
        }
    }
}

/// A compiled shader stage, by its OpenGL name.
#[derive(Clone, Copy, Debug, PartialEq, Eq, Structural)]
pub struct Shader(RenderID);

impl Shader {
    pub closed spec fn spec_id(&self) -> RenderID {
        self.0
    }

    pub fn from_id(id: RenderID) -> (r: Self)
        ensures
            r.spec_id() == id,
    {
        Shader(id)
    }

    pub fn id(&self) -> (r: RenderID)
        ensures
            r == self.spec_id(),
    {
        self.0
    }
}

/// A linked shader program, by its OpenGL name.
#[derive(Clone, Copy, Debug, PartialEq, Eq, Structural)]
pub struct Program(RenderID);

impl Program {
    pub closed spec fn spec_id(&self) -> RenderID {
        self.0
    }

    pub fn from_id(id: RenderID) -> (r: Self)
        ensures
            r.spec_id() == id,
    {
        Program(id)
    }

    pub fn id(&self) -> (r: RenderID)
        ensures
            r == self.spec_id(),
    {
        self.0
    }
}

/// The name of a uniform of a shader program. The name is handed to OpenGL
/// with a terminating zero byte.
#[derive(Clone, Copy, Debug, PartialEq, Eq)]
pub struct UniformStr(pub &'static str);

} // verus!
