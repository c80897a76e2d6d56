//! A terminal backend for declarative user interfaces.
//!
//! Views become a retained tree of [`node::Node`]s. Layout runs in logical points,
//! frames snap to whole terminal cells, and drawing produces a display list that is
//! applied to a `ratatui` buffer. Every item of this crate is verified; the few calls
//! into other crates stand behind the wrappers of [`buffer`], [`text`] and [`kitty`].

pub mod buffer;
pub mod controls;
pub mod edit;
pub mod focusing;
pub mod geometry;
pub mod gestures;
pub mod gpu;
pub mod input;
pub mod kitty;
pub mod laws;
pub mod layout;
pub mod node;
pub mod paint;
pub mod present;
pub mod probe;
pub mod render;
pub mod renderer;
pub mod scroll;
pub mod session;
pub mod stability;
pub mod style;
pub mod submit;
pub mod text;
pub mod theme;
pub mod visibility;
