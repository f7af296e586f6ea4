//! The input events that the editor reacts to, and the modifier keys held
//! with a key press.

use crate::geometry::{offset_coord, Point};
use vstd::prelude::*;

verus! {

/// The keys that the editor tells apart; any other key is `Other`.
#[derive(Clone, Copy, Debug, PartialEq, Eq, Structural)]
pub enum Keycode {
    Backspace,
    Escape,
    Return,
    Tab,
    Up,
    Down,
    Left,
    Right,
    Num0,
    Num1,
    Num2,
    Num3,
    Num4,
    Num5,
    Num6,
    Num7,
    Num8,
    Num9,
    A,
    B,
    C,
    D,
    E,
    F,
    G,
    H,
    I,
    J,
    K,
    L,
    M,
    N,
    O,
    P,
    Q,
    R,
    S,
    T,
    U,
    V,
    W,
    X,
    Y,
    Z,
    Other,
}

/// The modifier keys held with a key press, as bits.
#[derive(Clone, Copy, Debug, PartialEq, Eq, Structural)]
pub struct KeyMod {
    pub bits: u8,
}

/// The bit of the shift key.
pub const SHIFT_BIT: u8 = 0x1;

/// The bit of the alt key.
pub const ALT_BIT: u8 = 0x2;

/// The bit of the command key.
pub const COMMAND_BIT: u8 = 0x4;

/// The bits of the left and the right shift keys in SDL's modifier state.
pub const SDL_SHIFT_BITS: u16 = 0x0003;

/// The bits of the left and the right control keys in SDL's modifier state.
pub const SDL_CTRL_BITS: u16 = 0x00c0;

/// The bits of the left and the right alt keys in SDL's modifier state.
pub const SDL_ALT_BITS: u16 = 0x0300;

/// The bits of the left and the right GUI (command) keys in SDL's modifier
/// state.
pub const SDL_GUI_BITS: u16 = 0x0c00;

impl KeyMod {
    /// No modifier.
    pub fn none() -> (k: KeyMod)
        ensures
            k.bits == 0,
    {
        KeyMod { bits: 0 }
    }

    /// The shift key alone.
    pub fn shift() -> (k: KeyMod)
        ensures
            k.bits == SHIFT_BIT,
    {
        KeyMod { bits: SHIFT_BIT }
    }

    /// The alt key alone.
    pub fn alt() -> (k: KeyMod)
        ensures
            k.bits == ALT_BIT,
    {
        KeyMod { bits: ALT_BIT }
    }

    /// The command key alone.
    pub fn command() -> (k: KeyMod)
        ensures
            k.bits == COMMAND_BIT,
    {
        KeyMod { bits: COMMAND_BIT }
    }

    /// The modifiers held in SDL's modifier state `bits`: shift, alt, and
    /// command, which is the GUI key on macOS and the control key elsewhere.
    pub open spec fn spec_from_sdl2(bits: u16, macos: bool) -> KeyMod {
        let command_bits = if macos { SDL_GUI_BITS } else { SDL_CTRL_BITS };
        KeyMod {
            bits: ((if bits & SDL_SHIFT_BITS != 0 { 1u8 } else { 0u8 }) | (if bits & SDL_ALT_BITS != 0 { 2u8 } else { 0u8 })
                | (if bits & command_bits != 0 { 4u8 } else { 0u8 })) as u8,
        }
    }

    /// The modifiers held in SDL's modifier state `bits`; `macos` says
    /// whether the program runs on macOS.
    pub fn from_sdl2(bits: u16, macos: bool) -> (k: KeyMod)
        ensures
            k == Self::spec_from_sdl2(bits, macos),
    {
        let ghost sb: u8 = if bits & SDL_SHIFT_BITS != 0 { 1u8 } else { 0u8 };
        let ghost ab: u8 = if bits & SDL_ALT_BITS != 0 { 2u8 } else { 0u8 };
        let command_bits = if macos { SDL_GUI_BITS } else { SDL_CTRL_BITS };
        let ghost cb: u8 = if bits & command_bits != 0 { 4u8 } else { 0u8 };
        assert(forall|x: u8| #[trigger] (x | 0u8) == x) by (bit_vector);
        let mut result = KeyMod::none();
        if bits & SDL_SHIFT_BITS != 0 {
            result.bitor_assign(KeyMod::shift());
        }
        assert(result.bits == sb) by {
            assert(0u8 | 1u8 == 1u8) by (bit_vector);
        }
        if bits & SDL_ALT_BITS != 0 {
            result.bitor_assign(KeyMod::alt());
        }
        assert(result.bits == sb | ab);
        if bits & command_bits != 0 {
            result.bitor_assign(KeyMod::command());
        }
        assert(result.bits == (sb | ab) | cb);
        result
    }

    /// Both sets of modifiers.
    pub fn bitor(self, rhs: KeyMod) -> (k: KeyMod)
        ensures
            k.bits == self.bits | rhs.bits,
    {
        KeyMod { bits: self.bits | rhs.bits }
    }

    /// Adds the modifiers of `rhs`.
    pub fn bitor_assign(&mut self, rhs: KeyMod)
        ensures
            final(self).bits == old(self).bits | rhs.bits,
    {
        self.bits = self.bits | rhs.bits;
    }
}

/// Combining modifiers is commutative and associative, and `NONE` adds
/// nothing.
pub proof fn lemma_keymod_union(a: KeyMod, b: KeyMod, c: KeyMod)
    ensures
        a.bits | b.bits == b.bits | a.bits,
        (a.bits | b.bits) | c.bits == a.bits | (b.bits | c.bits),
        a.bits | 0u8 == a.bits,
{
    let x = a.bits;
    let y = b.bits;
    let z = c.bits;
    assert(x | y == y | x) by (bit_vector);
    assert((x | y) | z == x | (y | z)) by (bit_vector);
    assert(x | 0u8 == x) by (bit_vector);
}

//---------------------------------------------------------------------------//

/// An input event.
#[derive(PartialEq, Eq)]
pub enum Event {
    Quit,
    ClockTick,
    MouseDrag(Point),
    MouseDown(Point),
    MouseUp,
    KeyDown(Keycode, KeyMod),
    TextInput(String),
}

/// The mathematical content of an event.
pub ghost enum EventView {
    Quit,
    ClockTick,
    MouseDrag((int, int)),
    MouseDown((int, int)),
    MouseUp,
    KeyDown(Keycode, KeyMod),
    TextInput(Seq<char>),
}

impl View for Event {
    type V = EventView;

    open spec fn view(&self) -> EventView {
        match self {
            Event::Quit => EventView::Quit,
            Event::ClockTick => EventView::ClockTick,
            Event::MouseDrag(p) => EventView::MouseDrag(p@),
            Event::MouseDown(p) => EventView::MouseDown(p@),
            Event::MouseUp => EventView::MouseUp,
            Event::KeyDown(k, m) => EventView::KeyDown(*k, *m),
            Event::TextInput(s) => EventView::TextInput(s@),
        }
    }
}

/// A point moved by `(dx, dy)` as `Point::offset` moves it.
pub open spec fn offset_point(p: (int, int), dx: int, dy: int) -> (int, int) {
    (offset_coord(p.0, dx), offset_coord(p.1, dy))
}

impl EventView {
    /// The event with its mouse position, if any, moved by `(dx, dy)`.
    pub open spec fn translated(self, dx: int, dy: int) -> EventView {
        match self {
            EventView::MouseDrag(p) => EventView::MouseDrag(offset_point(p, dx, dy)),
            EventView::MouseDown(p) => EventView::MouseDown(offset_point(p, dx, dy)),
            _ => self,
        }
    }
}

impl Event {
    /// The event with its mouse position, if any, moved by `(dx, dy)`.
    pub fn translate(&self, dx: i32, dy: i32) -> (e: Event)
        ensures
            e@ == self@.translated(dx as int, dy as int),
    {
        match self {
            Event::MouseDrag(pt) => Event::MouseDrag(pt.offset(dx, dy)),
            Event::MouseDown(pt) => Event::MouseDown(pt.offset(dx, dy)),
            Event::Quit => Event::Quit,
            Event::ClockTick => Event::ClockTick,
            Event::MouseUp => Event::MouseUp,
            Event::KeyDown(k, m) => Event::KeyDown(*k, *m),
            Event::TextInput(s) => Event::TextInput(s.clone()),
        }
    }
}

} // verus!
