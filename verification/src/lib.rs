//! A retained-mode UI runtime: it turns a markup tree into a styled layout
//! tree, generates per-frame draw commands with clipping and scrolling,
//! answers pointer hit tests, and diffs consecutive frames so a renderer can
//! repaint only what changed.

pub mod chars;
pub mod css;
pub mod defaults;
pub mod geometry;
pub mod graphics;
pub mod layout;
pub mod markup;
pub mod paint;
pub mod pointer;
pub mod runtime;
pub mod style;
pub mod ui;
