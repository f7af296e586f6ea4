//! The palette view: the sixteen colors of the palette in use, the arrows
//! that choose a palette, and the buttons that add and delete palettes.

use crate::element::{routed, Action, SubrectElement, Value};
use crate::event::{Event, EventView, Keycode};
use crate::geometry::{clamp_position, Rect};
use crate::image::Color;
use crate::state::{EditorState, StateView, Tool};
use crate::util::{floor_mod, modulo};
use crate::view::menu::ignored;
use crate::view::toolbox::{picker_takes, picks, redrawn_and_stopped, route_in};
use vstd::prelude::*;

verus! {

/// What the palette view asks of the editor: to edit the entry of a color.
#[derive(Clone, Copy, Debug, PartialEq, Eq, Structural)]
pub enum PaletteAction {
    EditColor(Color),
}

/// `color` chosen as the current color; the select tool then gives way to
/// the pencil. Nothing changes when `color` is the current color.
pub open spec fn color_picked(s: StateView, color: Color) -> StateView {
    if s.color != color {
        let t = StateView { color, ..s };
        if t.tool == Tool::Select {
            t.with_tool(Tool::Pencil)
        } else {
            t
        }
    } else {
        s
    }
}

/// How many clock ticks a second press may follow a first one and count as
/// a double click.
pub const DOUBLE_CLICK_TICKS: i32 = 4;

/// The double-click counter, the state and the answer of a color picker for
/// `color`, chosen by `key`, after it sees `e`: a press chooses the color
/// and starts the counter, which clock ticks run down; a press while it runs
/// asks to edit the color; the key chooses the color.
pub open spec fn color_picker_event(counter: int, color: Color, key: Keycode, s: StateView, e: EventView) -> (
    int,
    StateView,
    Action<PaletteAction>,
) {
    match e {
        EventView::ClockTick => (if counter > 0 { counter - 1 } else { counter }, s, ignored::<PaletteAction>()),
        EventView::MouseDown(_) => if counter > 0 {
            (counter, s, Action { redraw: true, value: Value::Return(PaletteAction::EditColor(color)) })
        } else {
            (DOUBLE_CLICK_TICKS as int, color_picked(s, color), redrawn_and_stopped::<PaletteAction>())
        },
        EventView::KeyDown(k, m) => if k == key && m.bits == 0 {
            (counter, color_picked(s, color), redrawn_and_stopped::<PaletteAction>())
        } else {
            (counter, s, ignored::<PaletteAction>())
        },
        _ => (counter, s, ignored::<PaletteAction>()),
    }
}

/// The picker of one color of the palette.
pub struct ColorPicker {
    color: Color,
    key: Keycode,
    double_click_counter: i32,
}

impl ColorPicker {
    pub closed spec fn color(&self) -> Color {
        self.color
    }

    pub closed spec fn key(&self) -> Keycode {
        self.key
    }

    pub closed spec fn counter(&self) -> int {
        self.double_click_counter as int
    }

    pub fn new(color: Color, key: Keycode) -> (p: ColorPicker)
        ensures
            p.color() == color,
            p.key() == key,
            p.counter() == 0,
    {
        ColorPicker { color, key, double_click_counter: 0 }
    }

    pub fn color_of(&self) -> (c: Color)
        ensures
            c == self.color(),
    {
        self.color
    }

    /// Chooses the picker's color.
    pub fn pick_color(&self, state: &mut EditorState)
        requires
            old(state).wf(),
        ensures
            final(state).wf(),
            final(state)@ == color_picked(old(state)@, self.color()),
    {
        if state.color() != self.color {
            state.set_color(self.color);
            if state.tool() == Tool::Select {
                state.set_tool(Tool::Pencil);
            }
        }
    }

    /// Answers `event`: see `color_picker_event`.
    pub fn on_event(&mut self, event: &Event, state: &mut EditorState) -> (a: Action<PaletteAction>)
        requires
            old(state).wf(),
            0 <= old(self).counter() <= DOUBLE_CLICK_TICKS,
        ensures
            final(state).wf(),
            (final(self).counter(), final(state)@, a) == color_picker_event(
                old(self).counter(),
                old(self).color(),
                old(self).key(),
                old(state)@,
                event@,
            ),
            final(self).color() == old(self).color(),
            final(self).key() == old(self).key(),
            0 <= final(self).counter() <= DOUBLE_CLICK_TICKS,
    {
        match event {
            Event::ClockTick => {
                if self.double_click_counter > 0 {
                    self.double_click_counter -= 1;
                }
            },
            Event::MouseDown(_) => {
                if self.double_click_counter > 0 {
                    return Action::redraw().and_return(PaletteAction::EditColor(self.color));
                } else {
                    self.double_click_counter = DOUBLE_CLICK_TICKS;
                    self.pick_color(state);
                    return Action::redraw().and_stop();
                }
            },
            Event::KeyDown(key, kmod) => {
                if *key == self.key && kmod.bits == 0 {
                    self.pick_color(state);
                    return Action::redraw().and_stop();
                }
            },
            _ => {},
        }
        Action::ignore()
    }
}

/// The pickers of a color palette from the `i`-th on see `e`, which lies in
/// the palette's frame, in turn until one stops it: their counters, the
/// state, and the answer.
pub open spec fn pickers_from(
    counters: Seq<int>,
    rects: Seq<Rect>,
    colors: Seq<Color>,
    keys: Seq<Keycode>,
    s: StateView,
    e: EventView,
    i: int,
) -> (Seq<int>, StateView, Action<PaletteAction>)
    decreases counters.len() - i,
{
    if i < 0 || i >= counters.len() {
        (counters, s, ignored::<PaletteAction>())
    } else {
        let (c, t, a) = match routed(rects[i], e) {
            Some(f) => color_picker_event(counters[i], colors[i], keys[i], s, f),
            None => (counters[i], s, ignored::<PaletteAction>()),
        };
        if a.stops() {
            (counters.update(i, c), t, a)
        } else {
            pickers_from(counters.update(i, c), rects, colors, keys, t, e, i + 1)
        }
    }
}

/// Pickers that let an event go on leave the state as it was.
pub proof fn lemma_pickers_from_keep_state(
    counters: Seq<int>,
    rects: Seq<Rect>,
    colors: Seq<Color>,
    keys: Seq<Keycode>,
    s: StateView,
    e: EventView,
    i: int,
)
    ensures
        !pickers_from(counters, rects, colors, keys, s, e, i).2.stops() ==> pickers_from(counters, rects, colors, keys, s, e, i).1 == s,
    decreases counters.len() - i,
{
    if 0 <= i < counters.len() {
        let (c, t, a) = match routed(rects[i], e) {
            Some(f) => color_picker_event(counters[i], colors[i], keys[i], s, f),
            None => (counters[i], s, ignored::<PaletteAction>()),
        };
        if !a.stops() {
            lemma_pickers_from_keep_state(counters.update(i, c), rects, colors, keys, t, e, i + 1);
        }
    }
}

/// The colors of the palette with their keys and the corners of their
/// pickers, in the order in which the pickers see an event.
pub open spec fn color_palette_layout() -> Seq<(Color, Keycode, (int, int))> {
    seq![
        (Color::C0, Keycode::Num0, (0int, 0int)),
        (Color::C1, Keycode::Num1, (18int, 0int)),
        (Color::C2, Keycode::Num2, (36int, 0int)),
        (Color::C3, Keycode::Num3, (54int, 0int)),
        (Color::C4, Keycode::Num4, (0int, 18int)),
        (Color::C5, Keycode::Num5, (18int, 18int)),
        (Color::C6, Keycode::Num6, (36int, 18int)),
        (Color::C7, Keycode::Num7, (54int, 18int)),
        (Color::C8, Keycode::Num8, (0int, 36int)),
        (Color::C9, Keycode::Num9, (18int, 36int)),
        (Color::Ca, Keycode::A, (36int, 36int)),
        (Color::Cb, Keycode::B, (54int, 36int)),
        (Color::Cc, Keycode::C, (0int, 54int)),
        (Color::Cd, Keycode::D, (18int, 54int)),
        (Color::Ce, Keycode::E, (36int, 54int)),
        (Color::Cf, Keycode::F, (54int, 54int)),
    ]
}

/// The side of the color palette.
pub const COLOR_PALETTE_SIZE: u32 = 72;

/// The sixteen color pickers, in a square.
pub struct ColorPalette {
    rect: Rect,
    pickers: Vec<SubrectElement<ColorPicker>>,
}

impl ColorPalette {
    pub closed spec fn rect(&self) -> Rect {
        self.rect
    }

    pub closed spec fn rects(&self) -> Seq<Rect> {
        self.pickers@.map_values(|p: SubrectElement<ColorPicker>| p.subrect())
    }

    pub closed spec fn colors(&self) -> Seq<Color> {
        self.pickers@.map_values(|p: SubrectElement<ColorPicker>| p.element().color())
    }

    pub closed spec fn keys(&self) -> Seq<Keycode> {
        self.pickers@.map_values(|p: SubrectElement<ColorPicker>| p.element().key())
    }

    pub closed spec fn counters(&self) -> Seq<int> {
        self.pickers@.map_values(|p: SubrectElement<ColorPicker>| p.element().counter())
    }

    /// The counters lie between zero and `DOUBLE_CLICK_TICKS`.
    pub open spec fn wf(&self) -> bool {
        forall|k: int| 0 <= k < self.counters().len() ==> 0 <= #[trigger] self.counters()[k] <= DOUBLE_CLICK_TICKS
    }

    fn picker(x: i32, y: i32, color: Color, key: Keycode) -> (p: SubrectElement<ColorPicker>)
        requires
            0 <= x <= 100,
            0 <= y <= 100,
        ensures
            p.subrect()@ == (x as int, y as int, 18int, 18int),
            p.element().color() == color,
            p.element().key() == key,
            p.element().counter() == 0,
    {
        SubrectElement::new(ColorPicker::new(color, key), Rect::new(x, y, 18, 18))
    }

    /// The palette at `(left, top)`, with the pickers of
    /// `color_palette_layout`.
    pub fn new(left: i32, top: i32) -> (p: ColorPalette)
        ensures
            p.wf(),
            p.rect()@ == (clamp_position(left as int), clamp_position(top as int), 72int, 72int),
            p.rects().len() == color_palette_layout().len(),
            forall|i: int|
                0 <= i < color_palette_layout().len() ==> {
                    let (color, key, corner) = #[trigger] color_palette_layout()[i];
                    &&& p.colors()[i] == color
                    &&& p.keys()[i] == key
                    &&& p.rects()[i]@ == (corner.0, corner.1, 18int, 18int)
                    &&& p.counters()[i] == 0
                },
    {
        let pickers = vec![
            ColorPalette::picker(0, 0, Color::C0, Keycode::Num0),
            ColorPalette::picker(18, 0, Color::C1, Keycode::Num1),
            ColorPalette::picker(36, 0, Color::C2, Keycode::Num2),
            ColorPalette::picker(54, 0, Color::C3, Keycode::Num3),
            ColorPalette::picker(0, 18, Color::C4, Keycode::Num4),
            ColorPalette::picker(18, 18, Color::C5, Keycode::Num5),
            ColorPalette::picker(36, 18, Color::C6, Keycode::Num6),
            ColorPalette::picker(54, 18, Color::C7, Keycode::Num7),
            ColorPalette::picker(0, 36, Color::C8, Keycode::Num8),
            ColorPalette::picker(18, 36, Color::C9, Keycode::Num9),
            ColorPalette::picker(36, 36, Color::Ca, Keycode::A),
            ColorPalette::picker(54, 36, Color::Cb, Keycode::B),
            ColorPalette::picker(0, 54, Color::Cc, Keycode::C),
            ColorPalette::picker(18, 54, Color::Cd, Keycode::D),
            ColorPalette::picker(36, 54, Color::Ce, Keycode::E),
            ColorPalette::picker(54, 54, Color::Cf, Keycode::F),
        ];
        let p = ColorPalette { rect: Rect::new(left, top, COLOR_PALETTE_SIZE, COLOR_PALETTE_SIZE), pickers };
        assert forall|i: int|
            0 <= i < color_palette_layout().len() implies {
                let (color, key, corner) = #[trigger] color_palette_layout()[i];
                &&& p.colors()[i] == color
                &&& p.keys()[i] == key
                &&& p.rects()[i]@ == (corner.0, corner.1, 18int, 18int)
                &&& p.counters()[i] == 0
            } by {
            assert(p.colors()[i] == p.pickers@[i].element().color());
            assert(p.keys()[i] == p.pickers@[i].element().key());
            assert(p.counters()[i] == p.pickers@[i].element().counter());
        }
        p
    }

    pub fn rect_of(&self) -> (r: Rect)
        ensures
            r == self.rect(),
    {
        self.rect
    }

    /// The rectangle and the color of each picker, for drawing.
    pub fn layout(&self) -> (l: Vec<(Rect, Color)>)
        ensures
            l@.len() == self.rects().len(),
            forall|k: int| 0 <= k < l@.len() ==> (#[trigger] l@[k]).0 == self.rects()[k] && l@[k].1 == self.colors()[k],
    {
        let mut out: Vec<(Rect, Color)> = Vec::new();
        for i in 0..self.pickers.len()
            invariant
                out@.len() == i,
                forall|k: int| 0 <= k < i ==> (#[trigger] out@[k]).0 == self.rects()[k] && out@[k].1 == self.colors()[k],
        {
            let p = &self.pickers[i];
            assert(self.rects()[i as int] == p.subrect());
            assert(self.colors()[i as int] == p.element().color());
            out.push((p.rect(), p.inner().color));
        }
        out
    }

    /// Answers `event`: the pickers see it, from the palette's corner, in
    /// turn until one stops it (see `pickers_from`).
    pub fn on_event(&mut self, event: &Event, state: &mut EditorState) -> (a: Action<PaletteAction>)
        requires
            old(state).wf(),
            old(self).wf(),
        ensures
            final(state).wf(),
            final(self).wf(),
            final(self).rect() == old(self).rect(),
            final(self).rects() == old(self).rects(),
            final(self).colors() == old(self).colors(),
            final(self).keys() == old(self).keys(),
            match routed(old(self).rect(), event@) {
                Some(e) => (final(self).counters(), final(state)@, a) == pickers_from(
                    old(self).counters(),
                    old(self).rects(),
                    old(self).colors(),
                    old(self).keys(),
                    old(state)@,
                    e,
                    0,
                ),
                None => final(self).counters() == old(self).counters() && final(state)@ == old(state)@
                    && a == ignored::<PaletteAction>(),
            },
    {
        let inner = match route_in(self.rect, event) {
            Some(inner) => inner,
            None => return Action::ignore(),
        };
        let ghost e = inner@;
        let ghost goal = pickers_from(self.counters(), self.rects(), self.colors(), self.keys(), state@, e, 0);
        let ghost rects0 = self.rects();
        let ghost colors0 = self.colors();
        let ghost keys0 = self.keys();
        let mut action: Action<PaletteAction> = Action::ignore();
        let mut i: usize = 0;
        while i < self.pickers.len()
            invariant_except_break
                action == ignored::<PaletteAction>(),
                goal == pickers_from(self.counters(), rects0, colors0, keys0, state@, e, i as int),
            invariant
                0 <= i <= self.pickers@.len(),
                e == inner@,
                state.wf(),
                self.wf(),
                self.rect == old(self).rect,
                self.rects() == rects0,
                self.colors() == colors0,
                self.keys() == keys0,
                rects0.len() == self.pickers@.len(),
                self.counters().len() == self.pickers@.len(),
            ensures
                (self.counters(), state@, action) == goal,
            decreases self.pickers@.len() - i,
        {
            let ghost before = self.counters();
            let ghost pk0 = self.pickers@;
            let ghost sub0 = self.pickers@[i as int];
            assert(rects0[i as int] == sub0.subrect());
            assert(colors0[i as int] == sub0.element().color());
            assert(keys0[i as int] == sub0.element().key());
            assert(before[i as int] == sub0.element().counter());
            let subaction = match self.pickers[i].route(&inner) {
                Some(f) => {
                    let sub = &mut self.pickers[i];
                    sub.inner_mut().on_event(&f, state)
                },
                None => Action::ignore(),
            };
            proof {
                let sub1 = self.pickers@[i as int];
                assert(self.pickers@ == pk0.update(i as int, sub1));
                assert(self.rects() =~= rects0);
                assert(self.colors() =~= colors0);
                assert(self.keys() =~= keys0);
                assert(self.counters() =~= before.update(i as int, sub1.element().counter()));
            }
            action.merge(subaction);
            if action.should_stop() {
                break;
            }
            i = i + 1;
        }
        action
    }
}

//---------------------------------------------------------------------------//

/// The palette `delta` places from the chosen one, counting the built-in
/// palette after the last, around.
pub open spec fn palette_stepped(s: StateView, delta: int) -> StateView {
    let n = s.current.data.num_palettes() as int;
    let index = floor_mod(s.current.data.palette_index() + delta, n + 1);
    match s.current.data {
        crate::state::DataView::Ahi { palettes, image_index, images, .. } => s.with_data(
            crate::state::DataView::Ahi { palette_index: (index as nat) % (1 + palettes.len()), palettes, image_index, images },
        ),
        crate::state::DataView::Ahf { .. } => s,
    }
}

/// Whether stepping `delta` palettes stays within `i32`.
pub open spec fn palette_step_fits(s: StateView, delta: int) -> bool {
    &&& s.current.data.num_palettes() < i32::MAX
    &&& i32::MIN <= s.current.data.palette_index() + delta <= i32::MAX
}

/// An arrow that steps through the palettes.
pub struct NextPrevPalette {
    delta: i32,
    key: Keycode,
}

impl NextPrevPalette {
    pub closed spec fn delta(&self) -> i32 {
        self.delta
    }

    pub closed spec fn key(&self) -> Keycode {
        self.key
    }

    pub fn new(delta: i32, key: Keycode) -> (n: NextPrevPalette)
        ensures
            n.delta() == delta,
            n.key() == key,
    {
        NextPrevPalette { delta, key }
    }

    pub fn delta_of(&self) -> (d: i32)
        ensures
            d == self.delta(),
    {
        self.delta
    }

    /// Steps `delta` palettes, around.
    pub fn increment(&self, state: &mut EditorState) -> (a: Action<PaletteAction>)
        requires
            old(state).wf(),
            palette_step_fits(old(state)@, self.delta() as int),
        ensures
            final(state).wf(),
            final(state)@ == palette_stepped(old(state)@, self.delta() as int),
            a == redrawn_and_stopped::<PaletteAction>(),
    {
        let count = state.num_palettes() as i32;
        let new_index = modulo((state.palette_index() as i32) + self.delta, count + 1);
        state.set_palette_index(new_index as usize);
        Action::redraw().and_stop()
    }

    /// A press, or the arrow's key with no modifier, steps.
    pub fn on_event(&mut self, event: &Event, state: &mut EditorState) -> (a: Action<PaletteAction>)
        requires
            old(state).wf(),
            palette_step_fits(old(state)@, old(self).delta() as int),
        ensures
            *final(self) == *old(self),
            final(state).wf(),
            (final(state)@, a) == (if picks(Some(old(self).key()), event@) {
                (palette_stepped(old(state)@, old(self).delta() as int), redrawn_and_stopped::<PaletteAction>())
            } else {
                (old(state)@, ignored::<PaletteAction>())
            }),
    {
        match event {
            Event::MouseDown(_) => {
                return self.increment(state);
            },
            Event::KeyDown(key, kmod) => {
                if *key == self.key && kmod.bits == 0 {
                    return self.increment(state);
                }
            },
            _ => {},
        }
        Action::ignore()
    }
}

/// The button that adds a copy of the palette in use.
pub struct AddPalettteButton {}

impl AddPalettteButton {
    pub fn new() -> (b: AddPalettteButton) {
        AddPalettteButton {}
    }

    /// A press adds a palette, in a mutation.
    pub fn on_event(&mut self, event: &Event, state: &mut EditorState) -> (a: Action<PaletteAction>)
        requires
            old(state).wf(),
        ensures
            final(state).wf(),
            (final(state)@, a) == (if event@ is MouseDown {
                (old(state)@.mutation_begun().palette_added().0, redrawn_and_stopped::<PaletteAction>())
            } else {
                (old(state)@, ignored::<PaletteAction>())
            }),
    {
        match event {
            Event::MouseDown(_) => {
                state.mutation().add_new_palette();
                Action::redraw().and_stop()
            },
            _ => Action::ignore(),
        }
    }
}

/// The button that deletes the chosen palette.
pub struct DeletePalettteButton {}

impl DeletePalettteButton {
    pub fn new() -> (b: DeletePalettteButton) {
        DeletePalettteButton {}
    }

    /// A press deletes the chosen palette, in a mutation.
    pub fn on_event(&mut self, event: &Event, state: &mut EditorState) -> (a: Action<PaletteAction>)
        requires
            old(state).wf(),
        ensures
            final(state).wf(),
            (final(state)@, a) == (if event@ is MouseDown {
                (old(state)@.mutation_begun().palette_deleted().0, redrawn_and_stopped::<PaletteAction>())
            } else {
                (old(state)@, ignored::<PaletteAction>())
            }),
    {
        match event {
            Event::MouseDown(_) => {
                state.mutation().delete_palette();
                Action::redraw().and_stop()
            },
            _ => Action::ignore(),
        }
    }
}

/// The line under the palette that tells which palette is in use.
pub struct PaletteInfoView {
    left: i32,
    top: i32,
}

/// The height of the palette information line.
pub const PALETTE_INFO_HEIGHT: u32 = 18;

impl PaletteInfoView {
    pub closed spec fn corner(&self) -> (int, int) {
        (self.left as int, self.top as int)
    }

    pub fn new(left: i32, top: i32) -> (v: PaletteInfoView)
        ensures
            v.corner() == (left as int, top as int),
    {
        PaletteInfoView { left, top }
    }

    pub fn corner_of(&self) -> (c: (i32, i32))
        ensures
            (c.0 as int, c.1 as int) == self.corner(),
    {
        (self.left, self.top)
    }

    /// The information line takes no event.
    pub fn on_event(&mut self, event: &Event, state: &mut EditorState) -> (a: Action<PaletteAction>)
        ensures
            a == ignored::<PaletteAction>(),
            *final(state) == *old(state),
            *final(self) == *old(self),
    {
        Action::ignore()
    }
}

/// The width of an arrow or a button under the palette.
pub const PALETTE_BUTTON_SIZE: u32 = 18;

/// The palette view: the color palette, then the left arrow, the add and
/// delete buttons and the right arrow in a row under it, then the
/// information line.
pub struct PaletteView {
    rect: Rect,
    colors: ColorPalette,
    left_arrow: SubrectElement<NextPrevPalette>,
    add_button: SubrectElement<AddPalettteButton>,
    delete_button: SubrectElement<DeletePalettteButton>,
    right_arrow: SubrectElement<NextPrevPalette>,
    info: PaletteInfoView,
}

impl PaletteView {
    pub closed spec fn rect(&self) -> Rect {
        self.rect
    }

    pub closed spec fn colors(&self) -> ColorPalette {
        self.colors
    }

    pub closed spec fn info_view(&self) -> PaletteInfoView {
        self.info
    }

    pub closed spec fn left_rect(&self) -> Rect {
        self.left_arrow.subrect()
    }

    pub closed spec fn add_rect(&self) -> Rect {
        self.add_button.subrect()
    }

    pub closed spec fn delete_rect(&self) -> Rect {
        self.delete_button.subrect()
    }

    pub closed spec fn right_rect(&self) -> Rect {
        self.right_arrow.subrect()
    }

    /// The arrows step by one, left with the key left and right with the key
    /// right, and the color palette sits at the corner.
    pub open spec fn wf(&self) -> bool {
        &&& self.colors().wf()
        &&& self.colors().rect()@ == (0int, 0int, 72int, 72int)
        &&& self.left_delta() == -1
        &&& self.right_delta() == 1
        &&& self.left_key() == Keycode::Left
        &&& self.right_key() == Keycode::Right
    }

    pub closed spec fn left_delta(&self) -> int {
        self.left_arrow.element().delta() as int
    }

    pub closed spec fn right_delta(&self) -> int {
        self.right_arrow.element().delta() as int
    }

    pub closed spec fn left_key(&self) -> Keycode {
        self.left_arrow.element().key()
    }

    pub closed spec fn right_key(&self) -> Keycode {
        self.right_arrow.element().key()
    }

    pub fn new(left: i32, top: i32) -> (v: PaletteView)
        ensures
            v.wf(),
            v.rect()@ == (clamp_position(left as int), clamp_position(top as int), 72int, 108int),
            v.left_rect()@ == (0int, 72int, 18int, 18int),
            v.add_rect()@ == (18int, 72int, 18int, 18int),
            v.delete_rect()@ == (36int, 72int, 18int, 18int),
            v.right_rect()@ == (54int, 72int, 18int, 18int),
            v.colors().rect()@ == (0int, 0int, 72int, 72int),
            v.colors().rects().len() == color_palette_layout().len(),
            forall|i: int|
                0 <= i < color_palette_layout().len() ==> {
                    let (color, key, corner) = #[trigger] color_palette_layout()[i];
                    &&& v.colors().colors()[i] == color
                    &&& v.colors().keys()[i] == key
                    &&& v.colors().rects()[i]@ == (corner.0, corner.1, 18int, 18int)
                },
            v.info_view().corner() == (0int, 90int),
            v.left_delta() == -1,
            v.right_delta() == 1,
            v.left_key() == Keycode::Left,
            v.right_key() == Keycode::Right,
    {
        let size = PALETTE_BUTTON_SIZE;
        PaletteView {
            rect: Rect::new(left, top, COLOR_PALETTE_SIZE, COLOR_PALETTE_SIZE + size + PALETTE_INFO_HEIGHT),
            colors: ColorPalette::new(0, 0),
            left_arrow: SubrectElement::new(NextPrevPalette::new(-1, Keycode::Left), Rect::new(0, 72, size, size)),
            add_button: SubrectElement::new(AddPalettteButton::new(), Rect::new(18, 72, size, size)),
            delete_button: SubrectElement::new(DeletePalettteButton::new(), Rect::new(36, 72, size, size)),
            right_arrow: SubrectElement::new(NextPrevPalette::new(1, Keycode::Right), Rect::new(54, 72, size, size)),
            info: PaletteInfoView::new(0, 90),
        }
    }

    pub fn rect_of(&self) -> (r: Rect)
        ensures
            r == self.rect(),
    {
        self.rect
    }

    pub fn color_palette(&self) -> (p: &ColorPalette)
        ensures
            *p == self.colors(),
    {
        &self.colors
    }

    /// The rectangles of the left arrow, the add and delete buttons and the
    /// right arrow, for drawing.
    pub fn button_rects(&self) -> (r: (Rect, Rect, Rect, Rect))
        ensures
            r == (self.left_rect(), self.add_rect(), self.delete_rect(), self.right_rect()),
    {
        (self.left_arrow.rect(), self.add_button.rect(), self.delete_button.rect(), self.right_arrow.rect())
    }

    pub fn info(&self) -> (i: &PaletteInfoView)
        ensures
            *i == self.info_view(),
    {
        &self.info
    }

    /// Answers `event`: see `palette_view_event`.
    pub fn on_event(&mut self, event: &Event, state: &mut EditorState) -> (a: Action<PaletteAction>)
        requires
            old(state).wf(),
            old(self).wf(),
            palette_step_fits(old(state)@, -1),
            palette_step_fits(old(state)@, 1),
        ensures
            final(state).wf(),
            final(self).wf(),
            final(self).rect() == old(self).rect(),
            final(self).colors().rect() == old(self).colors().rect(),
            final(self).left_rect() == old(self).left_rect(),
            final(self).add_rect() == old(self).add_rect(),
            final(self).delete_rect() == old(self).delete_rect(),
            final(self).right_rect() == old(self).right_rect(),
            final(self).colors().rects() == old(self).colors().rects(),
            final(self).colors().colors() == old(self).colors().colors(),
            final(self).colors().keys() == old(self).colors().keys(),
            (final(self).colors().counters(), final(state)@, a) == palette_view_event(
                old(self).rect(),
                old(self).colors(),
                old(self).left_rect(),
                old(self).add_rect(),
                old(self).delete_rect(),
                old(self).right_rect(),
                old(state)@,
                event@,
            ),
    {
        let inner = match route_in(self.rect, event) {
            Some(inner) => inner,
            None => return Action::ignore(),
        };
        let ghost s0 = state@;
        let action = self.colors.on_event(&inner, state);
        if action.should_stop() {
            return action;
        }
        proof {
            let c = old(self).colors();
            if let Some(f) = routed(c.rect(), inner@) {
                lemma_pickers_from_keep_state(c.counters(), c.rects(), c.colors(), c.keys(), s0, f, 0);
            }
        }
        if let Some(e) = self.left_arrow.route(&inner) {
            if takes_key(&e, self.left_arrow.inner().key) {
                return self.left_arrow.inner().increment(state);
            }
        }
        if let Some(e) = self.add_button.route(&inner) {
            if let Event::MouseDown(_) = e {
                state.mutation().add_new_palette();
                return Action::redraw().and_stop();
            }
        }
        if let Some(e) = self.delete_button.route(&inner) {
            if let Event::MouseDown(_) = e {
                state.mutation().delete_palette();
                return Action::redraw().and_stop();
            }
        }
        if let Some(e) = self.right_arrow.route(&inner) {
            if takes_key(&e, self.right_arrow.inner().key) {
                return self.right_arrow.inner().increment(state);
            }
        }
        Action::ignore()
    }
}

/// Whether `e` is a press, or `key` with no modifier.
fn takes_key(e: &Event, key: Keycode) -> (b: bool)
    ensures
        b == picks(Some(key), e@),
{
    match e {
        Event::MouseDown(_) => true,
        Event::KeyDown(k, m) => *k == key && m.bits == 0,
        _ => false,
    }
}

/// The color pickers' counters, the state and the answer after `e` reaches
/// the palette view: the color palette sees it first, then the left arrow,
/// the add and delete buttons, and the right arrow, until one stops it.
pub open spec fn palette_view_event(
    rect: Rect,
    colors: ColorPalette,
    left: Rect,
    add: Rect,
    delete: Rect,
    right: Rect,
    s: StateView,
    e: EventView,
) -> (Seq<int>, StateView, Action<PaletteAction>) {
    match routed(rect, e) {
        None => (colors.counters(), s, ignored::<PaletteAction>()),
        Some(inner) => {
            let (cs, t, a) = match routed(colors.rect(), inner) {
                Some(f) => pickers_from(colors.counters(), colors.rects(), colors.colors(), colors.keys(), s, f, 0),
                None => (colors.counters(), s, ignored::<PaletteAction>()),
            };
            if a.stops() {
                (cs, t, a)
            } else if picker_takes(left, Some(Keycode::Left), inner) {
                (cs, palette_stepped(t, -1), redrawn_and_stopped::<PaletteAction>())
            } else if routed(add, inner) matches Some(EventView::MouseDown(_)) {
                (cs, t.mutation_begun().palette_added().0, redrawn_and_stopped::<PaletteAction>())
            } else if routed(delete, inner) matches Some(EventView::MouseDown(_)) {
                (cs, t.mutation_begun().palette_deleted().0, redrawn_and_stopped::<PaletteAction>())
            } else if picker_takes(right, Some(Keycode::Right), inner) {
                (cs, palette_stepped(t, 1), redrawn_and_stopped::<PaletteAction>())
            } else {
                (cs, t, ignored::<PaletteAction>())
            }
        },
    }
}

/// Stepping through the palettes by `delta` and then back by `delta` comes
/// back to the palette chosen before.
pub proof fn lemma_palette_step_back(s: StateView, delta: int)
    requires
        s.current.data.wf(),
    ensures
        palette_stepped(palette_stepped(s, delta), -delta).current.data.palette_index() == s.current.data.palette_index(),
{
    match s.current.data {
        crate::state::DataView::Ahi { palette_index, palettes, .. } => {
            let m: int = palettes.len() as int + 1;
            let j = (palette_index + delta) % m;
            vstd::arithmetic::div_mod::lemma_small_mod(j as nat, m as nat);
            let t = palette_stepped(s, delta);
            assert(t.current.data.palette_index() == j);
            vstd::arithmetic::div_mod::lemma_add_mod_noop_right(-delta, palette_index + delta, m);
            assert(-delta + (palette_index + delta) == palette_index);
            vstd::arithmetic::div_mod::lemma_small_mod(palette_index, m as nat);
            let k = (j - delta) % m;
            assert(k == palette_index);
            vstd::arithmetic::div_mod::lemma_small_mod(k as nat, m as nat);
        },
        crate::state::DataView::Ahf { .. } => {},
    }
}

} // verus!
