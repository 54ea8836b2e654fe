//! gloam — loader generator for Vulkan, OpenGL, OpenGL ES, EGL, GLX, and WGL.
//!
//! This crate holds the verified core of the generator: API identity tables,
//! command-line request parsing, C declarator parsing, registry text helpers
//! and the naming/layout policy of the emitted loaders.

pub mod text;
pub mod error;
pub mod identity;
pub mod ir;
pub mod cli;
pub mod parse;
pub mod generator;
pub mod ordered_map;
pub mod fetch;
pub mod bundled;
pub mod invocation;
pub mod diag;
