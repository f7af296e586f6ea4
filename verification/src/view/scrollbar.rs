//! The images scrollbar: thumbnails of the images around the one being
//! edited, and arrows that step through the images, wrapping around.

use crate::element::{routed, Action, SubrectElement, Value};
use crate::event::{Event, EventView, Keycode};
use crate::geometry::{clamp_position, Rect};
use crate::state::{EditorState, StateView};
use crate::util::floor_mod;
use crate::view::menu::{first_hit, ignored, lemma_first_hit};
use crate::view::toolbox::{picker_takes, redrawn_and_stopped, route_in};
use vstd::prelude::*;

verus! {

/// `num_integer::mod_floor` on two `i32`: the remainder of `x` by `y` that
/// takes the sign of `y`. It panics where `%` does: for a zero `y`, and for
/// `i32::MIN` by `-1`.
#[verifier::external_body]
fn mod_floor_i32(x: i32, y: i32) -> (r: i32)
    requires
        y != 0,
        !(x == i32::MIN && y == -1),
    ensures
        r == floor_mod(x as int, y as int),
{
    num_integer::mod_floor(x, y)
}

/// The number of images and the index of the one being edited.
pub open spec fn image_count(s: StateView) -> int {
    s.current.data.num_images() as int
}

pub open spec fn image_position(s: StateView) -> int {
    s.current.data.image_index() as int
}

/// The image `delta` places from the one being edited, counted around.
pub open spec fn stepped(s: StateView, delta: int) -> StateView {
    s.with_image_index(floor_mod(image_position(s) + delta, image_count(s)) as nat)
}

/// The thumbnail `delta` places from the image being edited, if there is an
/// image there.
pub open spec fn picker_index(s: StateView, delta: int) -> Option<int> {
    let index = image_position(s) + delta;
    if 0 <= index < image_count(s) {
        Some(index)
    } else {
        None
    }
}

/// Whether the state's image count and index, moved by `delta`, fit `i32`.
pub open spec fn fits_i32(s: StateView, delta: int) -> bool {
    &&& image_count(s) <= i32::MAX
    &&& i32::MIN <= image_position(s) + delta <= i32::MAX
}

/// A thumbnail of the image `delta` places from the one being edited.
pub struct ImagePicker {
    delta: i32,
}

impl ImagePicker {
    pub closed spec fn delta(&self) -> i32 {
        self.delta
    }

    pub fn new(delta: i32) -> (p: ImagePicker)
        ensures
            p.delta() == delta,
    {
        ImagePicker { delta }
    }

    /// The index of the image that the thumbnail shows, if there is one.
    pub fn index(&self, state: &EditorState) -> (r: Option<usize>)
        requires
            state.wf(),
            fits_i32(state@, self.delta() as int),
        ensures
            match picker_index(state@, self.delta() as int) {
                Some(i) => r matches Some(k) && k == i,
                None => r is None,
            },
    {
        let index = (state.image_index() as i32) + self.delta;
        if index >= 0 && index < (state.num_images() as i32) {
            Some(index as usize)
        } else {
            None
        }
    }

    /// A press edits the image that the thumbnail shows, if any, and stops.
    pub fn on_event(&mut self, event: &Event, state: &mut EditorState) -> (a: Action<()>)
        requires
            old(state).wf(),
            fits_i32(old(state)@, old(self).delta() as int),
        ensures
            *final(self) == *old(self),
            final(state).wf(),
            (final(state)@, a) == (if event@ is MouseDown {
                picked(old(state)@, old(self).delta() as int)
            } else {
                (old(state)@, ignored::<()>())
            }),
    {
        match event {
            Event::MouseDown(_) => {
                if let Some(index) = self.index(state) {
                    state.set_image_index(index);
                    Action::redraw().and_stop()
                } else {
                    Action::ignore().and_stop()
                }
            },
            _ => Action::ignore(),
        }
    }
}

/// A press on the thumbnail `delta` places away.
pub open spec fn picked(s: StateView, delta: int) -> (StateView, Action<()>) {
    match picker_index(s, delta) {
        Some(i) => (s.with_image_index(i as nat), redrawn_and_stopped::<()>()),
        None => (s, Action { redraw: false, value: Value::Stop }),
    }
}

/// An arrow that steps `delta` images, wrapping around, when pressed or when
/// its key is pressed with no modifier.
pub struct NextPrevImage {
    delta: i32,
    key: Keycode,
}

impl NextPrevImage {
    pub closed spec fn delta(&self) -> i32 {
        self.delta
    }

    pub closed spec fn key(&self) -> Keycode {
        self.key
    }

    pub fn new(delta: i32, key: Keycode) -> (n: NextPrevImage)
        ensures
            n.delta() == delta,
            n.key() == key,
    {
        NextPrevImage { delta, key }
    }

    pub fn delta_of(&self) -> (d: i32)
        ensures
            d == self.delta(),
    {
        self.delta
    }

    /// Steps `delta` images, wrapping around.
    pub fn increment(&self, state: &mut EditorState) -> (a: Action<()>)
        requires
            old(state).wf(),
            fits_i32(old(state)@, self.delta() as int),
        ensures
            final(state).wf(),
            final(state)@ == stepped(old(state)@, self.delta() as int),
            a == redrawn_and_stopped::<()>(),
    {
        let count = state.num_images();
        proof {
            assert(image_count(state@) >= 1) by {
                match state@.current.data {
                    crate::state::DataView::Ahi { .. } => {},
                    crate::state::DataView::Ahf { .. } => {},
                }
            }
        }
        let new_index = mod_floor_i32((state.image_index() as i32) + self.delta, count as i32);
        state.set_image_index(new_index as usize);
        Action::redraw().and_stop()
    }

    /// A press, or the arrow's key with no modifier, steps.
    pub fn on_event(&mut self, event: &Event, state: &mut EditorState) -> (a: Action<()>)
        requires
            old(state).wf(),
            fits_i32(old(state)@, old(self).delta() as int),
        ensures
            *final(self) == *old(self),
            final(state).wf(),
            (final(state)@, a) == (if crate::view::toolbox::picks(Some(old(self).key()), event@) {
                (stepped(old(state)@, old(self).delta() as int), redrawn_and_stopped::<()>())
            } else {
                (old(state)@, ignored::<()>())
            }),
    {
        match event {
            Event::MouseDown(_) => {
                return self.increment(state);
            },
            Event::KeyDown(key, kmod) => {
                if *key == self.key && kmod.bits == 0 {
                    return self.increment(state);
                }
            },
            _ => {},
        }
        Action::ignore()
    }
}

/// The deltas of the thumbnails, from the top.
pub open spec fn thumbnail_deltas() -> Seq<int> {
    seq![-2int, -1, 0, 1, 2, 3]
}

/// The scrollbar: an arrow up, six thumbnails, and an arrow down.
pub struct ImagesScrollbar {
    rect: Rect,
    up: SubrectElement<NextPrevImage>,
    pickers: Vec<SubrectElement<ImagePicker>>,
    down: SubrectElement<NextPrevImage>,
}

impl ImagesScrollbar {
    pub closed spec fn rect(&self) -> Rect {
        self.rect
    }

    pub closed spec fn up_rect(&self) -> Rect {
        self.up.subrect()
    }

    pub closed spec fn down_rect(&self) -> Rect {
        self.down.subrect()
    }

    pub closed spec fn picker_rects(&self) -> Seq<Rect> {
        self.pickers@.map_values(|p: SubrectElement<ImagePicker>| p.subrect())
    }

    pub closed spec fn picker_deltas(&self) -> Seq<int> {
        self.pickers@.map_values(|p: SubrectElement<ImagePicker>| p.element().delta() as int)
    }

    fn picker(y: i32, delta: i32) -> (p: SubrectElement<ImagePicker>)
        requires
            0 <= y <= 300,
        ensures
            p.subrect()@ == (1int, y as int, 36int, 36int),
            p.element().delta() == delta,
    {
        SubrectElement::new(ImagePicker::new(delta), Rect::new(1, y, 36, 36))
    }

    /// The scrollbar at `(left, top)`: the up arrow (key up) at the top, the
    /// thumbnails of `thumbnail_deltas` below it, the down arrow (key down)
    /// at the bottom.
    pub fn new(left: i32, top: i32) -> (s: ImagesScrollbar)
        ensures
            s.rect()@ == (clamp_position(left as int), clamp_position(top as int), 38int, 266int),
            s.up_rect()@ == (2int, 2int, 32int, 16int),
            s.down_rect()@ == (2int, 248int, 32int, 16int),
            s.picker_deltas() == thumbnail_deltas(),
            s.picker_rects().len() == 6,
            forall|k: int| 0 <= k < 6 ==> (#[trigger] s.picker_rects()[k])@ == (1int, 20 + 38 * k, 36int, 36int),
            s.wf(),
    {
        let pickers = vec![
            ImagesScrollbar::picker(20, -2),
            ImagesScrollbar::picker(58, -1),
            ImagesScrollbar::picker(96, 0),
            ImagesScrollbar::picker(134, 1),
            ImagesScrollbar::picker(172, 2),
            ImagesScrollbar::picker(210, 3),
        ];
        let s = ImagesScrollbar {
            rect: Rect::new(left, top, 38, 266),
            up: SubrectElement::new(NextPrevImage::new(-1, Keycode::Up), Rect::new(2, 2, 32, 16)),
            pickers,
            down: SubrectElement::new(NextPrevImage::new(1, Keycode::Down), Rect::new(2, 248, 32, 16)),
        };
        assert(s.picker_deltas() =~= thumbnail_deltas());
        assert forall|k: int| 0 <= k < 6 implies (#[trigger] s.picker_rects()[k])@ == (1int, 20 + 38 * k, 36int, 36int) by {
            assert(s.picker_rects()[k] == s.pickers@[k].subrect());
        }
        s
    }

    /// The arrows step by one, up with the key up and down with the key
    /// down; the deltas are small.
    pub open spec fn wf(&self) -> bool {
        &&& self.up_delta() == -1
        &&& self.down_delta() == 1
        &&& self.up_key() == Keycode::Up
        &&& self.down_key() == Keycode::Down
        &&& self.picker_rects().len() == self.picker_deltas().len()
        &&& forall|k: int| 0 <= k < self.picker_deltas().len() ==> -2 <= #[trigger] self.picker_deltas()[k] <= 3
    }

    pub closed spec fn up_delta(&self) -> int {
        self.up.element().delta() as int
    }

    pub closed spec fn down_delta(&self) -> int {
        self.down.element().delta() as int
    }

    pub closed spec fn up_key(&self) -> Keycode {
        self.up.element().key()
    }

    pub closed spec fn down_key(&self) -> Keycode {
        self.down.element().key()
    }

    pub fn rect_of(&self) -> (r: Rect)
        ensures
            r == self.rect(),
    {
        self.rect
    }

    /// The arrows and the thumbnails, for drawing: the rectangles of the
    /// arrows, and the rectangle and delta of each thumbnail.
    pub fn layout(&self) -> (l: (Rect, Rect, Vec<(Rect, i32)>))
        ensures
            l.0 == self.up_rect(),
            l.1 == self.down_rect(),
            l.2@.len() == self.picker_rects().len(),
            forall|k: int| 0 <= k < l.2@.len() ==> (#[trigger] l.2@[k]).0 == self.picker_rects()[k] && l.2@[k].1 == self.picker_deltas()[k],
    {
        let mut thumbs: Vec<(Rect, i32)> = Vec::new();
        for i in 0..self.pickers.len()
            invariant
                thumbs@.len() == i,
                forall|k: int| 0 <= k < i ==> (#[trigger] thumbs@[k]).0 == self.picker_rects()[k] && thumbs@[k].1 == self.picker_deltas()[k],
        {
            let p = &self.pickers[i];
            assert(self.picker_rects()[i as int] == p.subrect());
            assert(self.picker_deltas()[i as int] == p.element().delta());
            thumbs.push((p.rect(), p.inner().delta));
        }
        (self.up.rect(), self.down.rect(), thumbs)
    }

    /// The first thumbnail pressed by `e`.
    fn find_picker(&self, e: &Event) -> (r: Option<usize>)
        ensures
            match e@ {
                EventView::MouseDown(p) => match first_hit(self.picker_rects(), p) {
                    Some(i) => r matches Some(k) && k == i && 0 <= i < self.pickers@.len(),
                    None => r is None,
                },
                _ => r is None,
            },
    {
        if let Event::MouseDown(_) = e {
            let ghost p = e@->MouseDown_0;
            let mut i: usize = 0;
            while i < self.pickers.len()
                invariant
                    0 <= i <= self.pickers@.len(),
                    e@ == EventView::MouseDown(p),
                    self.picker_rects().len() == self.pickers@.len(),
                    forall|j: int| 0 <= j < i ==> !(#[trigger] self.picker_rects()[j]).covers(p),
                decreases self.pickers@.len() - i,
            {
                let sub = &self.pickers[i];
                assert(self.picker_rects()[i as int] == sub.subrect());
                if let Some(_) = sub.route(e) {
                    proof {
                        lemma_first_hit(self.picker_rects(), p, i as int);
                    }
                    return Some(i);
                }
                i = i + 1;
            }
            proof {
                lemma_first_hit(self.picker_rects(), p, i as int);
            }
        }
        None
    }

    /// Answers `event`: see `scrollbar_event`.
    pub fn on_event(&mut self, event: &Event, state: &mut EditorState) -> (a: Action<()>)
        requires
            old(state).wf(),
            old(self).wf(),
            fits_i32(old(state)@, -2),
            fits_i32(old(state)@, 3),
        ensures
            final(state).wf(),
            (final(state)@, a) == scrollbar_event(
                old(self).rect(),
                old(self).up_rect(),
                old(self).picker_rects(),
                old(self).picker_deltas(),
                old(self).down_rect(),
                old(state)@,
                event@,
            ),
            *final(self) == *old(self),
    {
        match route_in(self.rect, event) {
            Some(inner) => {
                if let Some(e) = self.up.route(&inner) {
                    let taken = match &e {
                        Event::MouseDown(_) => true,
                        Event::KeyDown(key, kmod) => *key == self.up.inner().key && kmod.bits == 0,
                        _ => false,
                    };
                    if taken {
                        return self.up.inner().increment(state);
                    }
                }
                match self.find_picker(&inner) {
                    Some(i) => {
                        let picker = self.pickers[i].inner();
                        assert(self.picker_deltas()[i as int] == picker.delta());
                        return match picker.index(state) {
                            Some(index) => {
                                state.set_image_index(index);
                                Action::redraw().and_stop()
                            },
                            None => Action::ignore().and_stop(),
                        };
                    },
                    None => {},
                }
                if let Some(e) = self.down.route(&inner) {
                    let taken = match &e {
                        Event::MouseDown(_) => true,
                        Event::KeyDown(key, kmod) => *key == self.down.inner().key && kmod.bits == 0,
                        _ => false,
                    };
                    if taken {
                        return self.down.inner().increment(state);
                    }
                }
                Action::ignore()
            },
            None => Action::ignore(),
        }
    }
}

/// The state and the answer after `e` reaches the scrollbar: the up arrow,
/// then the thumbnails, then the down arrow see the event, and the first to
/// take it answers. An arrow steps by one, wrapping around; a thumbnail
/// edits the image it shows, and stops the press even when it shows none.
pub open spec fn scrollbar_event(
    rect: Rect,
    up: Rect,
    rects: Seq<Rect>,
    deltas: Seq<int>,
    down: Rect,
    s: StateView,
    e: EventView,
) -> (StateView, Action<()>) {
    match routed(rect, e) {
        Some(inner) => if picker_takes(up, Some(Keycode::Up), inner) {
            (stepped(s, -1), redrawn_and_stopped::<()>())
        } else {
            let hit = match inner {
                EventView::MouseDown(p) => first_hit(rects, p),
                _ => None,
            };
            match hit {
                Some(i) => picked(s, deltas[i]),
                None => if picker_takes(down, Some(Keycode::Down), inner) {
                    (stepped(s, 1), redrawn_and_stopped::<()>())
                } else {
                    (s, ignored::<()>())
                },
            }
        },
        None => (s, ignored::<()>()),
    }
}

/// With nothing selected, choosing the image at `k`, a place below the
/// number of images, makes `k` the place of the image being edited and keeps
/// the images.
proof fn lemma_with_image_index(s: StateView, k: nat)
    requires
        s.wf(),
        s.current.selection is None,
        k < image_count(s),
    ensures
        image_position(s.with_image_index(k)) == k,
        image_count(s.with_image_index(k)) == image_count(s),
        s.with_image_index(k).wf(),
        s.with_image_index(k).current.selection is None,
{
    match s.current.data {
        crate::state::DataView::Ahi { images, .. } => {
            vstd::arithmetic::div_mod::lemma_small_mod(k, images.len());
        },
        crate::state::DataView::Ahf { font, .. } => {
            if k > 0 {
                crate::image::Font::lemma_position_unique(font, font.glyphs[k - 1].0, k - 1);
            }
        },
    }
}

/// With nothing selected, stepping `delta` images and then back by `delta`
/// comes back to the image edited before.
pub proof fn lemma_image_step_back(s: StateView, delta: int)
    requires
        s.wf(),
        s.current.selection is None,
    ensures
        image_position(stepped(stepped(s, delta), -delta)) == image_position(s),
{
    let n = image_count(s);
    let p = image_position(s);
    assert(n >= 1 && 0 <= p < n) by {
        match s.current.data {
            crate::state::DataView::Ahi { .. } => {},
            crate::state::DataView::Ahf { font, current_char } => {
                match current_char {
                    Some(c) => if font.has(c) {
                        let i = choose|i: int| 0 <= i < font.glyphs.len() && (#[trigger] font.glyphs[i]).0 == c;
                        crate::image::Font::lemma_position_unique(font, c, i);
                    },
                    None => {},
                }
            },
        }
    }
    let j = (p + delta) % n;
    lemma_with_image_index(s, j as nat);
    let t = stepped(s, delta);
    assert(image_position(t) == j);
    vstd::arithmetic::div_mod::lemma_add_mod_noop_right(-delta, p + delta, n);
    assert(-delta + (p + delta) == p);
    vstd::arithmetic::div_mod::lemma_small_mod(p as nat, n as nat);
    let k = (j - delta) % n;
    assert(k == p);
    lemma_with_image_index(t, k as nat);
}

/// With nothing selected, pressing the thumbnail `delta` places from the
/// image being edited picks the image at `position + delta` whenever there
/// is one, so every image can be picked by its thumbnail; where there is
/// none, the press changes nothing and redraws nothing.
pub proof fn lemma_thumbnail_picks_image(s: StateView, delta: int)
    requires
        s.wf(),
        s.current.selection is None,
    ensures
        0 <= image_position(s) + delta < image_count(s) ==> {
            &&& picker_index(s, delta) == Some(image_position(s) + delta)
            &&& image_position(picked(s, delta).0) == image_position(s) + delta
            &&& image_count(picked(s, delta).0) == image_count(s)
            &&& picked(s, delta).1.redraw
        },
        !(0 <= image_position(s) + delta < image_count(s)) ==> {
            &&& picker_index(s, delta) is None
            &&& picked(s, delta).0 == s
            &&& !picked(s, delta).1.redraw
        },
{
    let k = image_position(s) + delta;
    if 0 <= k < image_count(s) {
        lemma_with_image_index(s, k as nat);
    }
}


/// With nothing selected, stepping one image forward edits the next image,
/// or the first after the last; stepping one back edits the previous image,
/// or the last before the first. The images stay the same in number.
pub proof fn lemma_step_wraps_around(s: StateView)
    requires
        s.wf(),
        s.current.selection is None,
    ensures
        ({
            let n = image_count(s);
            let p = image_position(s);
            &&& image_position(stepped(s, 1)) == (if p + 1 == n { 0 } else { p + 1 })
            &&& image_position(stepped(s, -1)) == (if p == 0 { n - 1 } else { p - 1 })
            &&& image_count(stepped(s, 1)) == n
            &&& image_count(stepped(s, -1)) == n
        }),
{
    let n = image_count(s);
    let p = image_position(s);
    assert(n >= 1 && 0 <= p < n) by {
        match s.current.data {
            crate::state::DataView::Ahi { .. } => {},
            crate::state::DataView::Ahf { font, current_char } => {
                match current_char {
                    Some(c) => if font.has(c) {
                        let i = choose|i: int| 0 <= i < font.glyphs.len() && (#[trigger] font.glyphs[i]).0 == c;
                        crate::image::Font::lemma_position_unique(font, c, i);
                    },
                    None => {},
                }
            },
        }
    }
    let f = if p + 1 == n { 0 } else { p + 1 };
    let b = if p == 0 { n - 1 } else { p - 1 };
    if p + 1 == n {
        vstd::arithmetic::div_mod::lemma_mod_self_0(n);
    } else {
        vstd::arithmetic::div_mod::lemma_small_mod((p + 1) as nat, n as nat);
    }
    if p == 0 {
        vstd::arithmetic::div_mod::lemma_add_mod_noop_right(-1, n, n);
        vstd::arithmetic::div_mod::lemma_mod_self_0(n);
        vstd::arithmetic::div_mod::lemma_small_mod((n - 1) as nat, n as nat);
    } else {
        vstd::arithmetic::div_mod::lemma_small_mod((p - 1) as nat, n as nat);
    }
    assert(floor_mod(p + 1, n) == f);
    assert(floor_mod(p - 1, n) == b);
    lemma_with_image_index(s, f as nat);
    lemma_with_image_index(s, b as nat);
}

} // verus!
