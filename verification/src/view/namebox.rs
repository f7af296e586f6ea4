//! The line that names the image being edited.

use crate::element::Action;
use crate::event::Event;
use crate::state::EditorState;
use crate::view::menu::ignored;
use vstd::prelude::*;

verus! {

/// Where the name of the image being edited is written; it takes no event.
pub struct ImageNameBox {
    left: i32,
    top: i32,
}

impl ImageNameBox {
    pub closed spec fn corner(&self) -> (int, int) {
        (self.left as int, self.top as int)
    }

    pub fn new(left: i32, top: i32) -> (b: ImageNameBox)
        ensures
            b.corner() == (left as int, top as int),
    {
        ImageNameBox { left, top }
    }

    pub fn corner_of(&self) -> (c: (i32, i32))
        ensures
            (c.0 as int, c.1 as int) == self.corner(),
    {
        (self.left, self.top)
    }

    pub fn on_event(&mut self, event: &Event, state: &mut EditorState) -> (a: Action<()>)
        ensures
            a == ignored::<()>(),
            *final(state) == *old(state),
            *final(self) == *old(self),
    {
        Action::ignore()
    }
}

} // verus!
