//! The tile view: the image being edited repeated side by side, or, for a
//! font, the test sentence set in it.

use crate::element::Action;
use crate::event::Event;
use crate::geometry::{clamp_position, clamp_size, Rect};
use crate::state::EditorState;
use crate::view::menu::ignored;
use vstd::prelude::*;

verus! {

/// The rectangle in which the tiles are shown; it takes no event.
pub struct TileView {
    rect: Rect,
}

impl TileView {
    pub closed spec fn rect(&self) -> Rect {
        self.rect
    }

    pub fn new(left: i32, top: i32, width: u32, height: u32) -> (t: TileView)
        ensures
            t.rect()@ == (clamp_position(left as int), clamp_position(top as int), clamp_size(width as int), clamp_size(height as int)),
    {
        TileView { rect: Rect::new(left, top, width, height) }
    }

    pub fn rect_of(&self) -> (r: Rect)
        ensures
            r == self.rect(),
    {
        self.rect
    }

    pub fn on_event(&mut self, event: &Event, state: &mut EditorState) -> (a: Action<()>)
        ensures
            a == ignored::<()>(),
            *final(state) == *old(state),
            *final(self) == *old(self),
    {
        Action::ignore()
    }
}

} // verus!
