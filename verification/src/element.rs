//! What a user-interface element answers to an event: whether the screen
//! must be redrawn, and whether the event stops there, possibly with a value.

use crate::event::{Event, EventView};
use crate::geometry::Rect;
use vstd::prelude::*;

verus! {

/// Whether an event goes on to the next element, stops, or stops with a value.
#[derive(Debug, PartialEq, Eq)]
pub enum Value<A> {
    Continue,
    Stop,
    Return(A),
}

impl<A> Value<A> {
    /// The result of merging `other` into `self`: a returned value always
    /// wins, a stop wins over a continue, and a continue changes nothing.
    pub open spec fn merged(self, other: Value<A>) -> Value<A> {
        match other {
            Value::Continue => self,
            Value::Stop => match self {
                Value::Continue => Value::Stop,
                _ => self,
            },
            Value::Return(a) => Value::Return(a),
        }
    }

    /// Merges `other` into `self`.
    pub fn merge(&mut self, other: Value<A>)
        ensures
            *final(self) == old(self).merged(other),
    {
        match other {
            Value::Continue => {},
            Value::Stop => match *self {
                Value::Continue => *self = other,
                _ => {},
            },
            Value::Return(_) => {
                *self = other;
            },
        }
    }
}

/// The answer of an element to an event.
pub struct Action<A> {
    pub redraw: bool,
    pub value: Value<A>,
}

impl<A> Action<A> {
    /// No redraw, and the event goes on.
    pub fn ignore() -> (a: Action<A>)
        ensures
            !a.redraw,
            a.value == Value::<A>::Continue,
    {
        Action { redraw: false, value: Value::Continue }
    }

    /// A redraw, and the event goes on.
    pub fn redraw() -> (a: Action<A>)
        ensures
            a.redraw,
            a.value == Value::<A>::Continue,
    {
        Action { redraw: true, value: Value::Continue }
    }

    /// A redraw exactly when `redraw` holds, and the event goes on.
    pub fn redraw_if(redraw: bool) -> (a: Action<A>)
        ensures
            a.redraw == redraw,
            a.value == Value::<A>::Continue,
    {
        Action { redraw, value: Value::Continue }
    }

    /// Asks for a redraw, keeping the value.
    pub fn also_redraw(&mut self)
        ensures
            final(self).redraw,
            final(self).value == old(self).value,
    {
        self.redraw = true;
    }

    /// The same redraw, and the event stops here.
    pub fn and_stop(self) -> (a: Action<A>)
        ensures
            a.redraw == self.redraw,
            a.value == Value::<A>::Stop,
    {
        let mut this = self;
        this.value = Value::Stop;
        this
    }

    /// The same redraw, and the event stops here with `value`.
    pub fn and_return(self, value: A) -> (a: Action<A>)
        ensures
            a.redraw == self.redraw,
            a.value == Value::Return(value),
    {
        let mut this = self;
        this.value = Value::Return(value);
        this
    }

    /// The same redraw and the same decision to stop, without the value.
    pub fn but_no_value<B>(self) -> (a: Action<B>)
        ensures
            a.redraw == self.redraw,
            a.value == (if self.value is Continue {
                Value::<B>::Continue
            } else {
                Value::<B>::Stop
            }),
    {
        Action {
            redraw: self.redraw,
            value: match self.value {
                Value::Continue => Value::Continue,
                _ => Value::Stop,
            },
        }
    }

    pub fn should_redraw(&self) -> (r: bool)
        ensures
            r == self.redraw,
    {
        self.redraw
    }

    pub open spec fn stops(&self) -> bool {
        !(self.value is Continue)
    }

    /// Whether the event stops here with a value.
    pub fn has_value(&self) -> (r: bool)
        ensures
            r == self.value is Return,
    {
        match self.value {
            Value::Return(_) => true,
            _ => false,
        }
    }

    /// Whether the event stops here.
    pub fn should_stop(&self) -> (r: bool)
        ensures
            r == self.stops(),
    {
        match self.value {
            Value::Continue => false,
            _ => true,
        }
    }

    /// Takes the returned value out, if there is one; the event then still
    /// stops here.
    pub fn take_value(&mut self) -> (r: Option<A>)
        ensures
            final(self).redraw == old(self).redraw,
            match old(self).value {
                Value::Return(v) => r == Some(v) && final(self).value == Value::<A>::Stop,
                _ => r is None && final(self).value == old(self).value,
            },
    {
        match self.value {
            Value::Continue | Value::Stop => return None,
            Value::Return(_) => {},
        }
        let mut taken = Value::Stop;
        std::mem::swap(&mut taken, &mut self.value);
        match taken {
            Value::Return(value) => Some(value),
            _ => None,
        }
    }

    /// Merges `action` into `self`: a redraw if either asks for one, and the
    /// values merged as `Value::merged` says.
    pub fn merge(&mut self, action: Action<A>)
        ensures
            final(self).redraw == (old(self).redraw || action.redraw),
            final(self).value == old(self).value.merged(action.value),
    {
        self.redraw = self.redraw || action.redraw;
        self.value.merge(action.value);
    }
}

/// What an element inside `rect` sees of `e`: a press outside the rectangle
/// does not reach it, and positions are taken from the rectangle's corner.
pub open spec fn routed(rect: Rect, e: EventView) -> Option<EventView> {
    match e {
        EventView::MouseDown(p) => if rect.covers(p) {
            Some(e.translated(-rect@.0, -rect@.1))
        } else {
            None
        },
        _ => Some(e.translated(-rect@.0, -rect@.1)),
    }
}

/// An element placed in a rectangle of its parent.
pub struct SubrectElement<E> {
    subrect: Rect,
    element: E,
}

impl<E> SubrectElement<E> {
    pub closed spec fn subrect(&self) -> Rect {
        self.subrect
    }

    pub closed spec fn element(&self) -> E {
        self.element
    }

    pub fn new(element: E, subrect: Rect) -> (s: SubrectElement<E>)
        ensures
            s.subrect() == subrect,
            s.element() == element,
    {
        SubrectElement { subrect, element }
    }

    pub fn rect(&self) -> (r: Rect)
        ensures
            r == self.subrect(),
    {
        self.subrect
    }

    pub fn inner(&self) -> (e: &E)
        ensures
            *e == self.element(),
    {
        &self.element
    }

    pub fn inner_mut(&mut self) -> (e: &mut E)
        ensures
            *e == old(self).element(),
            final(self).element() == *final(e),
            final(self).subrect() == old(self).subrect(),
    {
        &mut self.element
    }

    /// The event as the element sees it, or `None` for a press outside the
    /// rectangle, which it does not see.
    pub fn route(&self, event: &Event) -> (r: Option<Event>)
        ensures
            match routed(self.subrect(), event@) {
                Some(e) => r matches Some(f) && f@ == e,
                None => r is None,
            },
    {
        if let Event::MouseDown(pt) = event {
            if !self.subrect.contains_point(*pt) {
                return None;
            }
        }
        let dx = self.subrect.x();
        let dy = self.subrect.y();
        Some(event.translate(-dx, -dy))
    }
}

} // verus!
