//! The toolbox: one picker per tool, each chosen by a click or by its key.

use crate::canvas::{tool_icon, ToolIcon};
use crate::element::{routed, Action, SubrectElement, Value};
use crate::event::{Event, EventView, KeyMod, Keycode};
use crate::geometry::{clamp_position, Rect};
use crate::state::{EditorState, StateView, Tool};
use crate::view::menu::ignored;
use vstd::prelude::*;

verus! {

/// Whether a picker placed in `rect` and chosen by `key`, if it has one,
/// takes `e`: a press inside it, or its key with no modifier.
pub open spec fn picker_takes(rect: Rect, key: Option<Keycode>, e: EventView) -> bool {
    match routed(rect, e) {
        Some(EventView::MouseDown(_)) => true,
        Some(EventView::KeyDown(k, m)) => key == Some(k) && m.bits == 0,
        _ => false,
    }
}

/// The first of the pickers in `rects`, chosen by `keys`, to take `e`.
pub open spec fn first_taker(rects: Seq<Rect>, keys: Seq<Option<Keycode>>, e: EventView) -> Option<int>
    decreases rects.len(),
{
    if rects.len() == 0 || keys.len() == 0 {
        None
    } else if picker_takes(rects[0], keys[0], e) {
        Some(0)
    } else {
        match first_taker(rects.drop_first(), keys.drop_first(), e) {
            Some(i) => Some(i + 1),
            None => None,
        }
    }
}

/// The first picker to take `e` is at index `i` when it takes `e` and none
/// before it does.
pub proof fn lemma_first_taker(rects: Seq<Rect>, keys: Seq<Option<Keycode>>, e: EventView, i: int)
    requires
        rects.len() == keys.len(),
        0 <= i <= rects.len(),
        forall|j: int| 0 <= j < i ==> !picker_takes(#[trigger] rects[j], keys[j], e),
    ensures
        i < rects.len() && picker_takes(rects[i], keys[i], e) ==> first_taker(rects, keys, e) == Some(i),
        i == rects.len() ==> first_taker(rects, keys, e) is None,
    decreases rects.len(),
{
    if rects.len() > 0 && i > 0 {
        let r = rects.drop_first();
        let k = keys.drop_first();
        assert forall|j: int| 0 <= j < i - 1 implies !picker_takes(#[trigger] r[j], k[j], e) by {
            assert(r[j] == rects[j + 1] && k[j] == keys[j + 1]);
        }
        lemma_first_taker(r, k, e, i - 1);
    }
}

/// Whether `e` is a press, or the key `key` with no modifier.
pub open spec fn picks(key: Option<Keycode>, e: EventView) -> bool {
    match e {
        EventView::MouseDown(_) => true,
        EventView::KeyDown(k, m) => key == Some(k) && m.bits == 0,
        _ => false,
    }
}

/// A redraw, and the event stops here.
pub open spec fn redrawn_and_stopped<A>() -> Action<A> {
    Action { redraw: true, value: Value::Stop }
}

/// The picker of one tool.
pub struct ToolPicker {
    tool: Tool,
    key: Keycode,
    icon: ToolIcon,
}

impl ToolPicker {
    pub closed spec fn tool(&self) -> Tool {
        self.tool
    }

    pub closed spec fn key(&self) -> Keycode {
        self.key
    }

    pub closed spec fn icon(&self) -> ToolIcon {
        self.icon
    }

    pub fn new(tool: Tool, key: Keycode) -> (p: ToolPicker)
        ensures
            p.tool() == tool,
            p.key() == key,
            p.icon() == tool_icon(tool),
    {
        ToolPicker { tool, key, icon: ToolIcon::for_tool(tool) }
    }

    pub fn tool_of(&self) -> (t: Tool)
        ensures
            t == self.tool(),
    {
        self.tool
    }

    pub fn icon_of(&self) -> (i: ToolIcon)
        ensures
            i == self.icon(),
    {
        self.icon
    }

    /// A press, or the picker's key with no modifier, chooses its tool.
    pub fn on_event(&mut self, event: &Event, tool: &mut Tool) -> (a: Action<()>)
        ensures
            *final(self) == *old(self),
            picks(Some(old(self).key()), event@) ==> *final(tool) == old(self).tool() && a == redrawn_and_stopped::<()>(),
            !picks(Some(old(self).key()), event@) ==> *final(tool) == *old(tool) && a == ignored::<()>(),
    {
        match event {
            Event::MouseDown(_) => {
                *tool = self.tool;
                return Action::redraw().and_stop();
            },
            Event::KeyDown(key, kmod) => {
                if *key == self.key && kmod.bits == 0 {
                    *tool = self.tool;
                    return Action::redraw().and_stop();
                }
            },
            _ => {},
        }
        Action::ignore()
    }
}

/// The width of the toolbox.
pub const TOOLBOX_WIDTH: u32 = 72;

/// The height of the toolbox.
pub const TOOLBOX_HEIGHT: u32 = 96;

/// The tools of the toolbox, their keys, and the corners of their pickers,
/// in the order in which the pickers see an event.
pub open spec fn toolbox_layout() -> Seq<(Tool, Keycode, (int, int))> {
    seq![
        (Tool::Pencil, Keycode::P, (2int, 2int)),
        (Tool::PaintBucket, Keycode::K, (26int, 2int)),
        (Tool::PaletteReplace, Keycode::V, (50int, 2int)),
        (Tool::Watercolor, Keycode::W, (2int, 26int)),
        (Tool::Checkerboard, Keycode::H, (26int, 26int)),
        (Tool::PaletteSwap, Keycode::X, (50int, 26int)),
        (Tool::Line, Keycode::I, (2int, 50int)),
        (Tool::Rectangle, Keycode::R, (26int, 50int)),
        (Tool::Oval, Keycode::O, (50int, 50int)),
        (Tool::Eyedropper, Keycode::Y, (2int, 74int)),
        (Tool::Select, Keycode::S, (26int, 74int)),
        (Tool::Lasso, Keycode::L, (50int, 74int)),
    ]
}

/// The toolbox: a picker for each tool, in a rectangle of the window.
pub struct Toolbox {
    rect: Rect,
    pickers: Vec<SubrectElement<ToolPicker>>,
}

impl Toolbox {
    pub closed spec fn rect(&self) -> Rect {
        self.rect
    }

    pub closed spec fn picker_rects(&self) -> Seq<Rect> {
        self.pickers@.map_values(|p: SubrectElement<ToolPicker>| p.subrect())
    }

    pub closed spec fn picker_keys(&self) -> Seq<Option<Keycode>> {
        self.pickers@.map_values(|p: SubrectElement<ToolPicker>| Some(p.element().key()))
    }

    pub closed spec fn picker_tools(&self) -> Seq<Tool> {
        self.pickers@.map_values(|p: SubrectElement<ToolPicker>| p.element().tool())
    }

    pub closed spec fn picker_icons(&self) -> Seq<ToolIcon> {
        self.pickers@.map_values(|p: SubrectElement<ToolPicker>| p.element().icon())
    }

    fn picker(x: i32, y: i32, tool: Tool, key: Keycode) -> (p: SubrectElement<ToolPicker>)
        requires
            0 <= x <= 100,
            0 <= y <= 100,
        ensures
            p.subrect()@ == (x as int, y as int, 20int, 20int),
            p.element().tool() == tool,
            p.element().key() == key,
            p.element().icon() == tool_icon(tool),
    {
        SubrectElement::new(ToolPicker::new(tool, key), Rect::new(x, y, 20, 20))
    }

    /// The toolbox at `(left, top)`, with the pickers of `toolbox_layout`.
    pub fn new(left: i32, top: i32) -> (t: Toolbox)
        ensures
            t.rect()@ == (clamp_position(left as int), clamp_position(top as int), TOOLBOX_WIDTH as int, TOOLBOX_HEIGHT as int),
            t.picker_rects().len() == toolbox_layout().len(),
            forall|i: int|
                0 <= i < toolbox_layout().len() ==> {
                    let (tool, key, corner) = #[trigger] toolbox_layout()[i];
                    &&& t.picker_tools()[i] == tool
                    &&& t.picker_keys()[i] == Some(key)
                    &&& t.picker_rects()[i]@ == (corner.0, corner.1, 20int, 20int)
                    &&& t.picker_icons()[i] == tool_icon(tool)
                },
    {
        let pickers = vec![
            Toolbox::picker(2, 2, Tool::Pencil, Keycode::P),
            Toolbox::picker(26, 2, Tool::PaintBucket, Keycode::K),
            Toolbox::picker(50, 2, Tool::PaletteReplace, Keycode::V),
            Toolbox::picker(2, 26, Tool::Watercolor, Keycode::W),
            Toolbox::picker(26, 26, Tool::Checkerboard, Keycode::H),
            Toolbox::picker(50, 26, Tool::PaletteSwap, Keycode::X),
            Toolbox::picker(2, 50, Tool::Line, Keycode::I),
            Toolbox::picker(26, 50, Tool::Rectangle, Keycode::R),
            Toolbox::picker(50, 50, Tool::Oval, Keycode::O),
            Toolbox::picker(2, 74, Tool::Eyedropper, Keycode::Y),
            Toolbox::picker(26, 74, Tool::Select, Keycode::S),
            Toolbox::picker(50, 74, Tool::Lasso, Keycode::L),
        ];
        let t = Toolbox { rect: Rect::new(left, top, TOOLBOX_WIDTH, TOOLBOX_HEIGHT), pickers };
        assert forall|i: int|
            0 <= i < toolbox_layout().len() implies {
                let (tool, key, corner) = #[trigger] toolbox_layout()[i];
                &&& t.picker_tools()[i] == tool
                &&& t.picker_keys()[i] == Some(key)
                &&& t.picker_rects()[i]@ == (corner.0, corner.1, 20int, 20int)
                &&& t.picker_icons()[i] == tool_icon(tool)
            } by {
            assert(t.picker_tools()[i] == t.pickers@[i].element().tool());
            assert(t.picker_icons()[i] == t.pickers@[i].element().icon());
        }
        t
    }

    /// The picker at `index`, for drawing.
    pub fn picker_at(&self, index: usize) -> (p: &SubrectElement<ToolPicker>)
        requires
            index < self.picker_rects().len(),
        ensures
            p.subrect() == self.picker_rects()[index as int],
            p.element().tool() == self.picker_tools()[index as int],
            Some(p.element().key()) == self.picker_keys()[index as int],
            p.element().icon() == self.picker_icons()[index as int],
    {
        &self.pickers[index]
    }

    pub fn num_pickers(&self) -> (n: usize)
        ensures
            n == self.picker_rects().len(),
    {
        self.pickers.len()
    }

    pub fn rect_of(&self) -> (r: Rect)
        ensures
            r == self.rect(),
    {
        self.rect
    }

    /// The first picker that takes `e`.
    fn find_taker(&self, e: &Event) -> (r: Option<usize>)
        ensures
            match first_taker(self.picker_rects(), self.picker_keys(), e@) {
                Some(i) => r matches Some(k) && k == i && 0 <= i < self.pickers@.len()
                    && self.pickers@[i].element().tool() == self.picker_tools()[i],
                None => r is None,
            },
    {
        let mut i: usize = 0;
        while i < self.pickers.len()
            invariant
                0 <= i <= self.pickers@.len(),
                self.picker_rects().len() == self.pickers@.len(),
                self.picker_keys().len() == self.pickers@.len(),
                forall|j: int| 0 <= j < i ==> !picker_takes(#[trigger] self.picker_rects()[j], self.picker_keys()[j], e@),
            decreases self.pickers@.len() - i,
        {
            let sub = &self.pickers[i];
            assert(self.picker_rects()[i as int] == sub.subrect());
            assert(self.picker_keys()[i as int] == Some(sub.element().key()));
            assert(self.picker_tools()[i as int] == sub.element().tool());
            if let Some(picked) = sub.route(e) {
                let takes = match &picked {
                    Event::MouseDown(_) => true,
                    Event::KeyDown(key, kmod) => *key == sub.inner().key && kmod.bits == 0,
                    _ => false,
                };
                if takes {
                    proof {
                        lemma_first_taker(self.picker_rects(), self.picker_keys(), e@, i as int);
                    }
                    return Some(i);
                }
            }
            i = i + 1;
        }
        proof {
            lemma_first_taker(self.picker_rects(), self.picker_keys(), e@, i as int);
        }
        None
    }

    /// Answers `event`: see `toolbox_event`.
    pub fn on_event(&mut self, event: &Event, state: &mut EditorState) -> (a: Action<()>)
        requires
            old(state).wf(),
        ensures
            final(state).wf(),
            (final(state)@, a) == toolbox_event(
                old(self).rect(),
                old(self).picker_rects(),
                old(self).picker_keys(),
                old(self).picker_tools(),
                old(state)@,
                event@,
            ),
            *final(self) == *old(self),
    {
        match route_in(self.rect, event) {
            Some(inner) => match self.find_taker(&inner) {
                Some(i) => {
                    let new_tool = self.pickers[i].inner().tool;
                    if new_tool != state.tool() {
                        state.set_tool(new_tool);
                    }
                    Action::redraw().and_stop()
                },
                None => Action::ignore(),
            },
            None => Action::ignore(),
        }
    }
}

/// The event as an element inside `rect` sees it, or `None` for a press
/// outside the rectangle.
pub fn route_in(rect: Rect, event: &Event) -> (r: Option<Event>)
    ensures
        match routed(rect, event@) {
            Some(e) => r matches Some(f) && f@ == e,
            None => r is None,
        },
{
    if let Event::MouseDown(pt) = event {
        if !rect.contains_point(*pt) {
            return None;
        }
    }
    let dx = rect.x();
    let dy = rect.y();
    Some(event.translate(-dx, -dy))
}

/// The state and the answer after `e` reaches a toolbox in `rect` with
/// pickers in `rects` for `tools`, chosen by `keys`: the first picker that
/// takes the event chooses its tool (putting down any selection when the
/// tool changes), and the event stops there.
pub open spec fn toolbox_event(
    rect: Rect,
    rects: Seq<Rect>,
    keys: Seq<Option<Keycode>>,
    tools: Seq<Tool>,
    s: StateView,
    e: EventView,
) -> (StateView, Action<()>) {
    match routed(rect, e) {
        Some(inner) => match first_taker(rects, keys, inner) {
            Some(i) => (s.with_tool(tools[i]), redrawn_and_stopped::<()>()),
            None => (s, ignored::<()>()),
        },
        None => (s, ignored::<()>()),
    }
}

/// In a toolbox laid out as `toolbox_layout` lists, each tool's key pressed
/// with no modifier chooses that tool, wherever the pickers stand.
pub proof fn lemma_tool_keys(rect: Rect, rects: Seq<Rect>, keys: Seq<Option<Keycode>>, tools: Seq<Tool>, s: StateView, i: int)
    requires
        rects.len() == toolbox_layout().len(),
        keys.len() == toolbox_layout().len(),
        tools.len() == toolbox_layout().len(),
        forall|j: int| 0 <= j < toolbox_layout().len() ==> #[trigger] keys[j] == Some(toolbox_layout()[j].1),
        forall|j: int| 0 <= j < toolbox_layout().len() ==> #[trigger] tools[j] == toolbox_layout()[j].0,
        0 <= i < toolbox_layout().len(),
    ensures
        toolbox_event(rect, rects, keys, tools, s, EventView::KeyDown(toolbox_layout()[i].1, KeyMod { bits: 0 }))
            == (s.with_tool(toolbox_layout()[i].0), redrawn_and_stopped::<()>()),
{
    let key = toolbox_layout()[i].1;
    let e = EventView::KeyDown(key, KeyMod { bits: 0 });
    assert(routed(rect, e) == Some(e));
    assert forall|j: int| 0 <= j < i implies !picker_takes(#[trigger] rects[j], keys[j], e) by {
        assert(routed(rects[j], e) == Some(e));
        assert(keys[j] == Some(toolbox_layout()[j].1));
        assert(toolbox_layout()[j].1 != key);
    }
    assert(routed(rects[i], e) == Some(e));
    assert(keys[i] == Some(key));
    lemma_first_taker(rects, keys, e, i);
    assert(tools[i] == toolbox_layout()[i].0);
}

} // verus!
