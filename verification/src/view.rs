//! The elements of the editor's window and what each does with an event.

pub mod editor;
pub mod menu;
pub mod mirrors;
pub mod namebox;
pub mod palette;
pub mod scrollbar;
pub mod textbox;
pub mod tiles;
pub mod toolbox;
