//! Plain configuration records used around the render helpers: window,
//! framebuffer and texture settings, and the raw vertex-attribute slice
//! handed to buffer uploads.

use vstd::prelude::*;

verus! {

/// Standard OpenGL enumerant values, as the graphics bindings expose them.
pub const GL_TEXTURE_2D: u32 = 0x0DE1;

pub const GL_UNSIGNED_BYTE: u32 = 0x1401;

pub const GL_RGBA8: u32 = 0x8058;

pub const GL_RGBA: u32 = 0x1908;

pub const GL_LINEAR: u32 = 0x2601;

pub const GL_REPEAT: u32 = 0x2901;

/// Placeholder UI context handle for builds without a UI backend.
#[derive(Default)]
pub struct CtxRef {}

/// Window settings for an application.
#[derive(Clone, Copy)]
pub struct AppSettings {
    pub window_size: (i32, i32),
    pub window_title: &'static str,
}

/// Window options: size, multisampling, and title.
pub struct Options {
    pub window_width: u32,
    pub window_height: u32,
    pub samples: u32,
    pub title: String,
}

/// Framebuffer-object settings.
#[derive(Clone, Copy)]
pub struct FboSettings {
    pub width: i32,
    pub height: i32,
    pub depth: bool,
    pub initialize_default_texture: bool,
}

/// Texture sampling and storage settings.
#[derive(Clone, Copy)]
pub struct TextureSettings {
    pub data_type: u32,
    pub internal_format: u32,
    pub format: u32,
    pub mag_filter: u32,
    pub min_filter: u32,
    pub wrap_s: u32,
    pub wrap_r: u32,
    pub target: u32,
}

impl TextureSettings {
    /// Linearly filtered, repeating, 8-bit RGBA 2d texture.
    pub fn default() -> (r: Self)
        ensures
            r.target == GL_TEXTURE_2D,
            r.data_type == GL_UNSIGNED_BYTE,
            r.internal_format == GL_RGBA8,
            r.format == GL_RGBA,
            r.mag_filter == GL_LINEAR,
            r.min_filter == GL_LINEAR,
            r.wrap_s == GL_REPEAT,
            r.wrap_r == GL_REPEAT,
    {
        Self {
            target: GL_TEXTURE_2D,
            data_type: GL_UNSIGNED_BYTE,
            internal_format: GL_RGBA8,
            format: GL_RGBA,
            mag_filter: GL_LINEAR,
            min_filter: GL_LINEAR,
            wrap_s: GL_REPEAT,
            wrap_r: GL_REPEAT,
        }
    }
}

/// One vertex attribute as a raw byte slice, ready for a buffer upload.
pub struct VertexAttribSlice<'a> {
    pub name: &'static str,
    pub size: i32,
    pub stride: i32,
    pub data: &'a [u8],
    pub per_instance: bool,
}

} // verus!
