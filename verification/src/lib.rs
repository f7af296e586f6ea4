//! A pixel-art editor's model: images, palettes and fonts, the editor state
//! with its undo and redo history, the painting tools, and the decisions that
//! the user interface makes on each input event.

pub mod element;

pub mod image;
pub mod geometry;
pub mod state;
pub mod util;
pub mod event;
pub mod paint;
pub mod pixels;
pub mod canvas;
pub mod view;
