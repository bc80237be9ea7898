//! A small scene-graph library: hierarchical spatial transforms with
//! exact 64-bit integer coordinates, plus the stock GLSL shader sources
//! that the accompanying render helpers feed to the graphics pipeline.

use vstd::prelude::*;

pub mod hierarchy;
pub mod laws;
pub mod math;
pub mod settings;
pub mod stock_shader;
pub mod stock_shader_basic;
pub mod transform_system;
