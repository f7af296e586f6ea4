//! The mirror pickers: the symmetry with which the pencil paints.

use crate::canvas::{mirror_icon, ToolIcon};
use crate::element::{routed, Action, SubrectElement};
use crate::event::{Event, EventView, Keycode};
use crate::geometry::{clamp_position, Rect};
use crate::state::{EditorState, Mirror, StateView};
use crate::view::menu::ignored;
use crate::view::toolbox::{first_taker, lemma_first_taker, picker_takes, redrawn_and_stopped, route_in};
use vstd::prelude::*;

verus! {

/// The picker of one mirror.
pub struct MirrorPicker {
    mirror: Mirror,
    icon: ToolIcon,
}

impl MirrorPicker {
    pub closed spec fn mirror(&self) -> Mirror {
        self.mirror
    }

    pub closed spec fn icon(&self) -> ToolIcon {
        self.icon
    }

    pub fn new(mirror: Mirror) -> (p: MirrorPicker)
        ensures
            p.mirror() == mirror,
            p.icon() == mirror_icon(mirror),
    {
        MirrorPicker { mirror, icon: ToolIcon::for_mirror(mirror) }
    }

    pub fn mirror_of(&self) -> (m: Mirror)
        ensures
            m == self.mirror(),
    {
        self.mirror
    }

    pub fn icon_of(&self) -> (i: ToolIcon)
        ensures
            i == self.icon(),
    {
        self.icon
    }

    /// A press chooses the picker's mirror.
    pub fn on_event(&mut self, event: &Event, mirror: &mut Mirror) -> (a: Action<()>)
        ensures
            *final(self) == *old(self),
            event@ is MouseDown ==> *final(mirror) == old(self).mirror() && a == redrawn_and_stopped::<()>(),
            !(event@ is MouseDown) ==> *final(mirror) == *old(mirror) && a == ignored::<()>(),
    {
        match event {
            Event::MouseDown(_) => {
                *mirror = self.mirror;
                Action::redraw().and_stop()
            },
            _ => Action::ignore(),
        }
    }
}

/// The width of the mirror pickers' box.
pub const MIRRORS_WIDTH: u32 = 72;

/// The height of the mirror pickers' box.
pub const MIRRORS_HEIGHT: u32 = 48;

/// The mirrors and the corners of their pickers, in the order in which the
/// pickers see an event.
pub open spec fn mirrors_layout() -> Seq<(Mirror, (int, int))> {
    seq![
        (Mirror::NoMirror, (2int, 2int)),
        (Mirror::Horz, (26int, 2int)),
        (Mirror::Rot2, (50int, 2int)),
        (Mirror::Vert, (2int, 26int)),
        (Mirror::Both, (26int, 26int)),
        (Mirror::Rot4, (50int, 26int)),
    ]
}

/// The box of mirror pickers.
pub struct Mirrors {
    rect: Rect,
    pickers: Vec<SubrectElement<MirrorPicker>>,
}

impl Mirrors {
    pub closed spec fn rect(&self) -> Rect {
        self.rect
    }

    pub closed spec fn picker_rects(&self) -> Seq<Rect> {
        self.pickers@.map_values(|p: SubrectElement<MirrorPicker>| p.subrect())
    }

    pub closed spec fn picker_mirrors(&self) -> Seq<Mirror> {
        self.pickers@.map_values(|p: SubrectElement<MirrorPicker>| p.element().mirror())
    }

    pub closed spec fn picker_icons(&self) -> Seq<ToolIcon> {
        self.pickers@.map_values(|p: SubrectElement<MirrorPicker>| p.element().icon())
    }

    /// No picker is chosen by a key.
    pub open spec fn no_keys(n: nat) -> Seq<Option<Keycode>> {
        Seq::new(n, |i: int| None::<Keycode>)
    }

    fn picker(x: i32, y: i32, mirror: Mirror) -> (p: SubrectElement<MirrorPicker>)
        requires
            0 <= x <= 100,
            0 <= y <= 100,
        ensures
            p.subrect()@ == (x as int, y as int, 20int, 20int),
            p.element().mirror() == mirror,
            p.element().icon() == mirror_icon(mirror),
    {
        SubrectElement::new(MirrorPicker::new(mirror), Rect::new(x, y, 20, 20))
    }

    /// The box at `(left, top)`, with the pickers of `mirrors_layout`.
    pub fn new(left: i32, top: i32) -> (m: Mirrors)
        ensures
            m.rect()@ == (clamp_position(left as int), clamp_position(top as int), MIRRORS_WIDTH as int, MIRRORS_HEIGHT as int),
            m.picker_rects().len() == mirrors_layout().len(),
            forall|i: int|
                0 <= i < mirrors_layout().len() ==> {
                    let (mirror, corner) = #[trigger] mirrors_layout()[i];
                    &&& m.picker_mirrors()[i] == mirror
                    &&& m.picker_rects()[i]@ == (corner.0, corner.1, 20int, 20int)
                    &&& m.picker_icons()[i] == mirror_icon(mirror)
                },
    {
        let pickers = vec![
            Mirrors::picker(2, 2, Mirror::NoMirror),
            Mirrors::picker(26, 2, Mirror::Horz),
            Mirrors::picker(50, 2, Mirror::Rot2),
            Mirrors::picker(2, 26, Mirror::Vert),
            Mirrors::picker(26, 26, Mirror::Both),
            Mirrors::picker(50, 26, Mirror::Rot4),
        ];
        let m = Mirrors { rect: Rect::new(left, top, MIRRORS_WIDTH, MIRRORS_HEIGHT), pickers };
        assert forall|i: int|
            0 <= i < mirrors_layout().len() implies {
                let (mirror, corner) = #[trigger] mirrors_layout()[i];
                &&& m.picker_mirrors()[i] == mirror
                &&& m.picker_rects()[i]@ == (corner.0, corner.1, 20int, 20int)
                &&& m.picker_icons()[i] == mirror_icon(mirror)
            } by {
            assert(m.picker_mirrors()[i] == m.pickers@[i].element().mirror());
            assert(m.picker_icons()[i] == m.pickers@[i].element().icon());
        }
        m
    }

    pub fn num_pickers(&self) -> (n: usize)
        ensures
            n == self.picker_rects().len(),
    {
        self.pickers.len()
    }

    /// The picker at `index`, for drawing.
    pub fn picker_at(&self, index: usize) -> (p: &SubrectElement<MirrorPicker>)
        requires
            index < self.picker_rects().len(),
        ensures
            p.subrect() == self.picker_rects()[index as int],
            p.element().mirror() == self.picker_mirrors()[index as int],
            p.element().icon() == self.picker_icons()[index as int],
    {
        &self.pickers[index]
    }

    pub fn rect_of(&self) -> (r: Rect)
        ensures
            r == self.rect(),
    {
        self.rect
    }

    /// The first picker that takes `e`.
    fn find_taker(&self, e: &Event) -> (r: Option<usize>)
        ensures
            match first_taker(self.picker_rects(), Self::no_keys(self.picker_rects().len()), e@) {
                Some(i) => r matches Some(k) && k == i && 0 <= i < self.pickers@.len()
                    && self.pickers@[i].element().mirror() == self.picker_mirrors()[i],
                None => r is None,
            },
    {
        let ghost keys = Self::no_keys(self.picker_rects().len());
        let mut i: usize = 0;
        while i < self.pickers.len()
            invariant
                0 <= i <= self.pickers@.len(),
                self.picker_rects().len() == self.pickers@.len(),
                keys == Self::no_keys(self.picker_rects().len()),
                forall|j: int| 0 <= j < i ==> !picker_takes(#[trigger] self.picker_rects()[j], keys[j], e@),
            decreases self.pickers@.len() - i,
        {
            let sub = &self.pickers[i];
            assert(self.picker_rects()[i as int] == sub.subrect());
            assert(self.picker_mirrors()[i as int] == sub.element().mirror());
            assert(keys[i as int] is None);
            if let Some(picked) = sub.route(e) {
                if let Event::MouseDown(_) = picked {
                    proof {
                        lemma_first_taker(self.picker_rects(), keys, e@, i as int);
                    }
                    return Some(i);
                }
            }
            i = i + 1;
        }
        proof {
            lemma_first_taker(self.picker_rects(), keys, e@, i as int);
        }
        None
    }

    /// Answers `event`: see `mirrors_event`.
    pub fn on_event(&mut self, event: &Event, state: &mut EditorState) -> (a: Action<()>)
        requires
            old(state).wf(),
        ensures
            final(state).wf(),
            (final(state)@, a) == mirrors_event(old(self).rect(), old(self).picker_rects(), old(self).picker_mirrors(), old(state)@, event@),
            *final(self) == *old(self),
    {
        match route_in(self.rect, event) {
            Some(inner) => match self.find_taker(&inner) {
                Some(i) => {
                    let new_mirror = self.pickers[i].inner().mirror;
                    if new_mirror != state.mirror() {
                        state.set_mirror(new_mirror);
                    }
                    Action::redraw().and_stop()
                },
                None => Action::ignore(),
            },
            None => Action::ignore(),
        }
    }
}

/// The state and the answer after `e` reaches a box in `rect` with mirror
/// pickers in `rects` for `mirrors`: the first picker pressed chooses its
/// mirror, and the event stops there.
pub open spec fn mirrors_event(rect: Rect, rects: Seq<Rect>, mirrors: Seq<Mirror>, s: StateView, e: EventView) -> (StateView, Action<()>) {
    match routed(rect, e) {
        Some(inner) => match first_taker(rects, Mirrors::no_keys(rects.len()), inner) {
            Some(i) => (StateView { mirror: mirrors[i], ..s }, redrawn_and_stopped::<()>()),
            None => (s, ignored::<()>()),
        },
        None => (s, ignored::<()>()),
    }
}

} // verus!
