//! The menu: a button that opens a list of whole-collection operations.

use crate::element::{routed, Action, SubrectElement, Value};
use crate::event::{Event, EventView, Keycode};
use crate::geometry::{clamp_position, Rect};
use crate::state::EditorState;
use vstd::prelude::*;

verus! {

/// An operation that the menu offers.
#[derive(Clone, Copy, Debug, PartialEq, Eq, Structural)]
pub enum MenuAction {
    FlipHorz,
    FlipVert,
    Resize,
    RotateLeft,
    RotateRight,
}

/// The text by which the menu offers an operation.
pub open spec fn menu_label(action: MenuAction) -> Seq<char> {
    match action {
        MenuAction::FlipHorz => "Flip horizontally"@,
        MenuAction::FlipVert => "Flip vertically"@,
        MenuAction::Resize => "Resize images"@,
        MenuAction::RotateLeft => "Rotate left (CCW)"@,
        MenuAction::RotateRight => "Rotate right (CW)"@,
    }
}

/// The keys that do an operation without the menu, as the menu shows them.
pub open spec fn menu_shortcut(action: MenuAction) -> Seq<char> {
    match action {
        MenuAction::FlipHorz => "CS-H"@,
        MenuAction::FlipVert => "CS-V"@,
        MenuAction::Resize => "C-R"@,
        MenuAction::RotateLeft => "CS-L"@,
        MenuAction::RotateRight => "CS-R"@,
    }
}

/// Every operation, in the order the menu lists them.
pub open spec fn all_menu_actions() -> Seq<MenuAction> {
    seq![MenuAction::FlipHorz, MenuAction::FlipVert, MenuAction::Resize, MenuAction::RotateLeft, MenuAction::RotateRight]
}

impl MenuAction {
    pub fn label(&self) -> (s: &'static str)
        ensures
            s@ == menu_label(*self),
    {
        match *self {
            MenuAction::FlipHorz => "Flip horizontally",
            MenuAction::FlipVert => "Flip vertically",
            MenuAction::Resize => "Resize images",
            MenuAction::RotateLeft => "Rotate left (CCW)",
            MenuAction::RotateRight => "Rotate right (CW)",
        }
    }

    pub fn shortcut(&self) -> (s: &'static str)
        ensures
            s@ == menu_shortcut(*self),
    {
        match *self {
            MenuAction::FlipHorz => "CS-H",
            MenuAction::FlipVert => "CS-V",
            MenuAction::Resize => "C-R",
            MenuAction::RotateLeft => "CS-L",
            MenuAction::RotateRight => "CS-R",
        }
    }

    pub fn all() -> (v: Vec<MenuAction>)
        ensures
            v@ == all_menu_actions(),
    {
        let v = vec![
            MenuAction::FlipHorz,
            MenuAction::FlipVert,
            MenuAction::Resize,
            MenuAction::RotateLeft,
            MenuAction::RotateRight,
        ];
        assert(v@ =~= all_menu_actions());
        v
    }
}

/// An answer that changes nothing and lets the event go on.
pub open spec fn ignored<A>() -> Action<A> {
    Action { redraw: false, value: Value::Continue }
}

//---------------------------------------------------------------------------//

/// The button that opens and closes the menu.
pub struct MenuButton {}

impl MenuButton {
    pub fn new() -> (b: MenuButton) {
        MenuButton {}
    }

    /// A press answers with a value, which tells the menu to open or close.
    pub fn on_event(&mut self, event: &Event, _state: &mut ()) -> (a: Action<()>)
        ensures
            a == (if event@ is MouseDown {
                Action { redraw: false, value: Value::Return(()) }
            } else {
                ignored::<()>()
            }),
    {
        match event {
            Event::MouseDown(_) => Action::ignore().and_return(()),
            _ => Action::ignore(),
        }
    }
}

//---------------------------------------------------------------------------//

/// One line of the open menu.
pub struct MenuItem {
    action: MenuAction,
}

impl MenuItem {
    pub closed spec fn action(&self) -> MenuAction {
        self.action
    }

    pub fn new(action: MenuAction) -> (m: MenuItem)
        ensures
            m.action() == action,
    {
        MenuItem { action }
    }

    /// A press answers with the item's operation.
    pub fn on_event(&mut self, event: &Event, _state: &mut ()) -> (a: Action<MenuAction>)
        ensures
            a == (if event@ is MouseDown {
                Action { redraw: false, value: Value::Return(old(self).action()) }
            } else {
                ignored::<MenuAction>()
            }),
            final(self).action() == old(self).action(),
    {
        match event {
            Event::MouseDown(_) => Action::ignore().and_return(self.action),
            _ => Action::ignore(),
        }
    }
}

/// The first of `items` whose rectangle holds `p`, as an index.
pub open spec fn first_hit(rects: Seq<Rect>, p: (int, int)) -> Option<int>
    decreases rects.len(),
{
    if rects.len() == 0 {
        None
    } else if rects[0].covers(p) {
        Some(0)
    } else {
        match first_hit(rects.drop_first(), p) {
            Some(i) => Some(i + 1),
            None => None,
        }
    }
}

/// The first of `rects` to hold `p` is at index `i` when `i` holds it and
/// none before does.
pub proof fn lemma_first_hit(rects: Seq<Rect>, p: (int, int), i: int)
    requires
        0 <= i <= rects.len(),
        forall|j: int| 0 <= j < i ==> !(#[trigger] rects[j]).covers(p),
    ensures
        i < rects.len() && rects[i].covers(p) ==> first_hit(rects, p) == Some(i),
        i == rects.len() ==> first_hit(rects, p) is None,
    decreases rects.len(),
{
    if rects.len() > 0 && i > 0 {
        let rest = rects.drop_first();
        assert forall|j: int| 0 <= j < i - 1 implies !(#[trigger] rest[j]).covers(p) by {
            assert(rest[j] == rects[j + 1]);
        }
        lemma_first_hit(rest, p, i - 1);
    }
}

/// The first rectangle to hold `p` is one of `rects`, and holds `p`.
pub proof fn lemma_first_hit_in(rects: Seq<Rect>, p: (int, int))
    ensures
        first_hit(rects, p) matches Some(i) ==> 0 <= i < rects.len() && rects[i].covers(p),
    decreases rects.len(),
{
    if rects.len() > 0 && !rects[0].covers(p) {
        lemma_first_hit_in(rects.drop_first(), p);
    }
}

/// The height of a line of the menu.
pub const MENU_ITEM_HEIGHT: u32 = 14;

/// The margin around the lines of the menu.
pub const MENU_MARGIN: u32 = 4;

/// The width of the open menu.
pub const MENU_WIDTH: u32 = 200;

/// The open menu: a list of operations above `bottom`.
pub struct MenuItems {
    items: Vec<SubrectElement<MenuItem>>,
    rect: Rect,
}

impl MenuItems {
    pub closed spec fn rect(&self) -> Rect {
        self.rect
    }

    /// The rectangles of the lines, in their order.
    pub closed spec fn item_rects(&self) -> Seq<Rect> {
        self.items@.map_values(|s: SubrectElement<MenuItem>| s.subrect())
    }

    /// The operations of the lines, in their order.
    pub closed spec fn item_actions(&self) -> Seq<MenuAction> {
        self.items@.map_values(|s: SubrectElement<MenuItem>| s.element().action())
    }

    /// The menu with every operation, one line each from the top, its bottom
    /// edge at `bottom`.
    pub fn new(left: i32, bottom: i32) -> (m: MenuItems)
        requires
            bottom - (MENU_MARGIN + MENU_ITEM_HEIGHT * 5) >= i32::MIN,
        ensures
            m.item_actions() == all_menu_actions(),
            m.item_rects().len() == 5,
            forall|k: int|
                0 <= k < 5 ==> (#[trigger] m.item_rects()[k])@ == (
                    MENU_MARGIN as int,
                    MENU_MARGIN + MENU_ITEM_HEIGHT * k,
                    (MENU_WIDTH - 2 * MENU_MARGIN) as int,
                    MENU_ITEM_HEIGHT as int,
                ),
            m.rect()@ == (
                clamp_position(left as int),
                clamp_position(bottom - (MENU_MARGIN + MENU_ITEM_HEIGHT * 5)),
                MENU_WIDTH as int,
                (MENU_MARGIN + MENU_ITEM_HEIGHT * 5) as int,
            ),
    {
        let actions = MenuAction::all();
        let mut items: Vec<SubrectElement<MenuItem>> = Vec::new();
        for row in 0..actions.len()
            invariant
                actions@ == all_menu_actions(),
                items@.len() == row,
                forall|k: int| 0 <= k < row ==> (#[trigger] items@[k]).element().action() == actions@[k],
                forall|k: int|
                    0 <= k < row ==> (#[trigger] items@[k]).subrect()@ == (
                        MENU_MARGIN as int,
                        MENU_MARGIN + MENU_ITEM_HEIGHT * k,
                        (MENU_WIDTH - 2 * MENU_MARGIN) as int,
                        MENU_ITEM_HEIGHT as int,
                    ),
        {
            let top = (MENU_MARGIN as i32) + (MENU_ITEM_HEIGHT as i32) * (row as i32);
            let rect = Rect::new(MENU_MARGIN as i32, top, MENU_WIDTH - MENU_MARGIN * 2, MENU_ITEM_HEIGHT);
            items.push(SubrectElement::new(MenuItem::new(actions[row]), rect));
        }
        let height = MENU_MARGIN + MENU_ITEM_HEIGHT * (items.len() as u32);
        let top = bottom - (height as i32);
        let rect = Rect::new(left, top, MENU_WIDTH, height);
        let m = MenuItems { items, rect };
        assert(m.item_actions() =~= all_menu_actions());
        m
    }

    /// A press on a line answers with its operation; a press or a drag
    /// elsewhere on the menu stops there.
    pub fn on_event(&mut self, event: &Event, state: &mut ()) -> (a: Action<MenuAction>)
        ensures
            a == menu_items_answer(old(self).rect(), old(self).item_rects(), old(self).item_actions(), event@),
            *final(self) == *old(self),
    {
        let inner = event.translate(-self.rect.x(), -self.rect.y());
        let ghost e = inner@;
        let mut action: Action<MenuAction> = Action::ignore();
        let mut i: usize = 0;
        while i < self.items.len()
            invariant
                0 <= i <= self.items@.len(),
                e == inner@,
                e == event@.translated(-self.rect()@.0, -self.rect()@.1),
                forall|j: int| 0 <= j < i ==> !(e is MouseDown && (#[trigger] self.item_rects()[j]).covers(e->MouseDown_0)),
                action == ignored::<MenuAction>(),
            decreases self.items@.len() - i,
        {
            let sub = &self.items[i];
            assert(self.item_rects()[i as int] == sub.subrect());
            assert(self.item_actions()[i as int] == sub.element().action());
            match sub.route(&inner) {
                Some(routed_event) => {
                    if let Event::MouseDown(_) = routed_event {
                        proof {
                            assert(e is MouseDown);
                            assert(sub.subrect().covers(e->MouseDown_0));
                            lemma_first_hit(self.item_rects(), e->MouseDown_0, i as int);
                            assert(first_hit(self.item_rects(), e->MouseDown_0) == Some(i as int));
                        }
                        let answer = Action::ignore().and_return(sub.inner().action);
                        proof {
                            assert(e == event@.translated(-self.rect()@.0, -self.rect()@.1));
                            assert(answer.value == Value::Return(self.item_actions()[i as int]));
                            assert(answer == menu_items_answer(self.rect(), self.item_rects(), self.item_actions(), event@));
                        }
                        return self.stop_on_menu(event, answer);
                    }
                },
                None => {},
            }
            i = i + 1;
        }
        proof {
            if e is MouseDown {
                lemma_first_hit(self.item_rects(), e->MouseDown_0, i as int);
            }
        }
        self.stop_on_menu(event, action)
    }

    /// `action`, stopped when it goes on and `event` presses or drags on the
    /// menu.
    fn stop_on_menu(&self, event: &Event, action: Action<MenuAction>) -> (a: Action<MenuAction>)
        ensures
            a == (if !action.stops() && on_rect(self.rect(), event@) {
                Action { value: Value::Stop, ..action }
            } else {
                action
            }),
    {
        if !action.should_stop() {
            match event {
                Event::MouseDrag(pt) | Event::MouseDown(pt) => {
                    if self.rect.contains_point(*pt) {
                        return action.and_stop();
                    }
                },
                _ => {},
            }
        }
        action
    }
}

/// Whether `e` presses or drags inside `rect`.
pub open spec fn on_rect(rect: Rect, e: EventView) -> bool {
    match e {
        EventView::MouseDown(p) => rect.covers(p),
        EventView::MouseDrag(p) => rect.covers(p),
        _ => false,
    }
}

/// What the open menu answers to `e`: a press on a line (taken from the
/// menu's corner) answers with that line's operation; otherwise a press or a
/// drag on the menu stops there.
pub open spec fn menu_items_answer(rect: Rect, rects: Seq<Rect>, actions: Seq<MenuAction>, e: EventView) -> Action<MenuAction> {
    let inner = e.translated(-rect@.0, -rect@.1);
    let hit = match inner {
        EventView::MouseDown(p) => first_hit(rects, p),
        _ => None,
    };
    match hit {
        Some(i) => Action { redraw: false, value: Value::Return(actions[i]) },
        None => if on_rect(rect, e) {
            Action { redraw: false, value: Value::Stop }
        } else {
            ignored::<MenuAction>()
        },
    }
}

/// The two answers merged as `Action::merge` merges them.
pub open spec fn merged_action<A>(a: Action<A>, b: Action<A>) -> Action<A> {
    Action { redraw: a.redraw || b.redraw, value: a.value.merged(b.value) }
}

/// Whether the menu is open after `e`, and its answer: escape closes the
/// open menu; then the open menu answers, and closes when it answers with an
/// operation; then a press on the button opens or closes the menu.
pub open spec fn menu_view_event(
    is_open: bool,
    button: Rect,
    rect: Rect,
    rects: Seq<Rect>,
    actions: Seq<MenuAction>,
    e: EventView,
) -> (bool, Action<MenuAction>) {
    let escape = e matches EventView::KeyDown(Keycode::Escape, _);
    let open1 = is_open && !escape;
    let a1 = if is_open && escape { Action { redraw: true, value: Value::Stop } } else { ignored::<MenuAction>() };
    let sub = menu_items_answer(rect, rects, actions, e);
    let open2 = if !a1.stops() && open1 && sub.value is Return { false } else { open1 };
    let a2 = if !a1.stops() && open1 { merged_action(a1, sub) } else { a1 };
    let pressed = routed(button, e) matches Some(EventView::MouseDown(_));
    if !a2.stops() && pressed {
        (!open2, merged_action(a2, Action { redraw: true, value: Value::Stop }))
    } else {
        (open2, a2)
    }
}

/// The menu: its button, and the list it opens above the button.
pub struct MenuView {
    button: SubrectElement<MenuButton>,
    items: MenuItems,
    is_open: bool,
}

impl MenuView {
    pub closed spec fn is_open(&self) -> bool {
        self.is_open
    }

    pub closed spec fn button_rect(&self) -> Rect {
        self.button.subrect()
    }

    pub closed spec fn items(&self) -> MenuItems {
        self.items
    }

    /// A closed menu whose button is at `(left, top)`.
    pub fn new(left: i32, top: i32) -> (m: MenuView)
        requires
            top - 2 - (MENU_MARGIN + MENU_ITEM_HEIGHT * 5) >= i32::MIN,
        ensures
            !m.is_open(),
            m.button_rect()@ == (clamp_position(left as int), clamp_position(top as int), 60int, 18int),
            m.items().item_actions() == all_menu_actions(),
    {
        let button_rect = Rect::new(left, top, 60, 18);
        let button = SubrectElement::new(MenuButton::new(), button_rect);
        let items = MenuItems::new(left, top - 2);
        MenuView { button, items, is_open: false }
    }

    pub fn close(&mut self)
        ensures
            !final(self).is_open(),
            final(self).button_rect() == old(self).button_rect(),
            final(self).items() == old(self).items(),
    {
        self.is_open = false;
    }

    /// Answers `event`: see `menu_view_event`.
    pub fn on_event(&mut self, event: &Event, _state: &mut EditorState) -> (a: Action<MenuAction>)
        ensures
            (final(self).is_open(), a) == menu_view_event(
                old(self).is_open(),
                old(self).button_rect(),
                old(self).items().rect(),
                old(self).items().item_rects(),
                old(self).items().item_actions(),
                event@,
            ),
            final(self).button_rect() == old(self).button_rect(),
            final(self).items() == old(self).items(),
    {
        let mut action: Action<MenuAction> = Action::ignore();
        if let Event::KeyDown(Keycode::Escape, _) = event {
            if self.is_open {
                self.close();
                action.merge(Action::redraw().and_stop());
            }
        }
        if !action.should_stop() && self.is_open {
            let subaction = self.items.on_event(event, &mut ());
            if subaction.has_value() {
                self.close();
            }
            action.merge(subaction);
        }
        if !action.should_stop() {
            let mut subaction: Action<()> = match self.button.route(event) {
                Some(e) => self.button.inner_mut().on_event(&e, &mut ()),
                None => Action::ignore(),
            };
            if let Some(()) = subaction.take_value() {
                self.is_open = !self.is_open;
                subaction.also_redraw();
            }
            action.merge(subaction.but_no_value());
        }
        action
    }
}

} // verus!
