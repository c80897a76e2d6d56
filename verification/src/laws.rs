//! What the parts of the library are for, stated of the parts together: each law relates what
//! goes in to what comes out, in terms of its own.

pub mod cells;
pub mod drawing;
pub mod events;
pub mod gpu;
pub mod layout;
pub mod nesting;
pub mod scrolling;
pub mod styles;
pub mod terminal;
pub mod text;
pub mod views;
