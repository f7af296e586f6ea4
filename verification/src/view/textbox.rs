//! The text box at the top of the window, with which the editor asks for a
//! path, a size, a character or other text, and what it does with keys.

use crate::element::{routed, Action, SubrectElement, Value};
use crate::event::{Event, EventView, KeyMod, Keycode, ALT_BIT};
use crate::geometry::{clamp_position, Rect};
use crate::image::{Color, Rgba};
use crate::util::{chars_of, hex_byte, push_hex_byte, string_of_chars};
use crate::view::menu::{first_hit, ignored, lemma_first_hit, lemma_first_hit_in, merged_action};
use crate::view::toolbox::{redrawn_and_stopped, route_in};
use vstd::multiset::Multiset;
use vstd::prelude::*;

verus! {

/// What the text box asks for.
#[derive(Clone, Copy, Debug, PartialEq, Eq, Structural)]
pub enum Mode {
    Edit,
    Export,
    Goto,
    LoadFile,
    NewGlyph,
    Resize,
    SaveAs,
    SetColor(Color),
    SetGrid,
    SetMetadata,
    SetMetrics,
    SetTag,
    TestSentence,
}

/// Which files tab completion offers.
#[derive(Clone, Copy, Debug, PartialEq, Eq, Structural)]
pub enum TabCompletion {
    AllFiles,
    LoadableFiles,
}

/// Whether `s` ends with `suffix`.
pub open spec fn ends_with(s: Seq<char>, suffix: Seq<char>) -> bool {
    s.len() >= suffix.len() && s.subrange(s.len() - suffix.len(), s.len() as int) == suffix
}

/// Whether `s` begins with `prefix`.
pub open spec fn starts_with(s: Seq<char>, prefix: Seq<char>) -> bool {
    s.len() >= prefix.len() && s.subrange(0, prefix.len() as int) == prefix
}

/// The tab completion of a mode, if it has one.
pub open spec fn mode_completion(mode: Mode) -> Option<TabCompletion> {
    match mode {
        Mode::LoadFile => Some(TabCompletion::LoadableFiles),
        Mode::Export | Mode::SaveAs => Some(TabCompletion::AllFiles),
        _ => None,
    }
}

/// The label written before the text box in a mode.
pub open spec fn mode_label(mode: Mode) -> Seq<char> {
    match mode {
        Mode::Edit => "Path:"@,
        Mode::Export => "Export:"@,
        Mode::Goto => "Goto:"@,
        Mode::LoadFile => "Load:"@,
        Mode::NewGlyph => "Char:"@,
        Mode::Resize => "Size:"@,
        Mode::SaveAs => "Save:"@,
        Mode::SetColor(_) => "Color:"@,
        Mode::SetGrid => "Grid:"@,
        Mode::SetMetadata => "Meta:"@,
        Mode::SetMetrics => "Metrics:"@,
        Mode::SetTag => "Tag:"@,
        Mode::TestSentence => "Text:"@,
    }
}

impl Mode {
    pub fn tab_completion(self) -> (t: Option<TabCompletion>)
        ensures
            t == mode_completion(self),
    {
        match self {
            Mode::LoadFile => Some(TabCompletion::LoadableFiles),
            Mode::Export | Mode::SaveAs => Some(TabCompletion::AllFiles),
            _ => None,
        }
    }

    pub fn label(self) -> (s: &'static str)
        ensures
            s@ == mode_label(self),
    {
        match self {
            Mode::Edit => "Path:",
            Mode::Export => "Export:",
            Mode::Goto => "Goto:",
            Mode::LoadFile => "Load:",
            Mode::NewGlyph => "Char:",
            Mode::Resize => "Size:",
            Mode::SaveAs => "Save:",
            Mode::SetColor(_) => "Color:",
            Mode::SetGrid => "Grid:",
            Mode::SetMetadata => "Meta:",
            Mode::SetMetrics => "Metrics:",
            Mode::SetTag => "Tag:",
            Mode::TestSentence => "Text:",
        }
    }
}

/// Whether the characters `cs` end with the four characters `a b c d`.
fn ends_with_four(cs: &Vec<char>, a: char, b: char, c: char, d: char) -> (r: bool)
    ensures
        r == ends_with(cs@, seq![a, b, c, d]),
{
    let n = cs.len();
    if n < 4 {
        return false;
    }
    let r = cs[n - 4] == a && cs[n - 3] == b && cs[n - 2] == c && cs[n - 1] == d;
    proof {
        let tail = cs@.subrange(n - 4, n as int);
        if r {
            assert(tail =~= seq![a, b, c, d]);
        } else {
            assert(tail[0] == cs@[n - 4] && tail[1] == cs@[n - 3] && tail[2] == cs@[n - 2] && tail[3] == cs@[n - 1]);
        }
    }
    r
}

impl TabCompletion {
    /// Whether completion offers a file of this name: any file, or only
    /// collections (`.ahi`) and fonts (`.ahf`).
    pub open spec fn allows(self, file_name: Seq<char>) -> bool {
        match self {
            TabCompletion::AllFiles => true,
            TabCompletion::LoadableFiles => ends_with(file_name, ".ahi"@) || ends_with(file_name, ".ahf"@),
        }
    }

    pub fn allow(self, file_name: &str) -> (b: bool)
        ensures
            b == self.allows(file_name@),
    {
        match self {
            TabCompletion::AllFiles => true,
            TabCompletion::LoadableFiles => {
                proof {
                    reveal_strlit(".ahi");
                    reveal_strlit(".ahf");
                    assert(".ahi"@ =~= seq!['.', 'a', 'h', 'i']);
                    assert(".ahf"@ =~= seq!['.', 'a', 'h', 'f']);
                }
                let cs = chars_of(file_name);
                ends_with_four(&cs, '.', 'a', 'h', 'i') || ends_with_four(&cs, '.', 'a', 'h', 'f')
            },
        }
    }
}

//---------------------------------------------------------------------------//

/// For how many clock ticks the cursor shows, and then for how many it
/// hides.
pub const CURSOR_ON_FRAMES: u32 = 3;

pub const CURSOR_OFF_FRAMES: u32 = 3;

/// The content of a text box: its text, the cursor's place in it (in
/// characters), and where the cursor is in its blinking.
pub ghost struct TextBoxView {
    pub text: Seq<char>,
    pub cursor: nat,
    pub blink: nat,
}

/// `s` without the `'/'` (when `slash` holds), or without the characters
/// other than `'/'` (when it does not), that it ends with.
pub open spec fn strip_trailing(s: Seq<char>, slash: bool) -> Seq<char>
    decreases s.len(),
{
    if s.len() > 0 && ((s.last() == '/') == slash) {
        strip_trailing(s.drop_last(), slash)
    } else {
        s
    }
}

/// A path without its last component: the slashes that end it and then the
/// name before them go, the slash before that name stays.
pub open spec fn without_last_component(s: Seq<char>) -> Seq<char> {
    strip_trailing(strip_trailing(s, true), false)
}

/// The text box after `e`, and its answer. A clock tick moves the cursor's
/// blinking; backspace deletes the character before the cursor, or with alt
/// the path component before it; up and down move the cursor to the start
/// and the end, left and right by one character; other keys stop there;
/// typed text goes in at the cursor. Every change shows the cursor.
pub open spec fn textbox_event(v: TextBoxView, e: EventView) -> (TextBoxView, Action<()>) {
    let moved = |cursor: nat| (TextBoxView { cursor, blink: 0, ..v }, redrawn_and_stopped::<()>());
    match e {
        EventView::ClockTick => {
            let blink = ((v.blink + 1) as int % (CURSOR_ON_FRAMES + CURSOR_OFF_FRAMES) as int) as nat;
            (
                TextBoxView { blink, ..v },
                Action { redraw: (v.blink < CURSOR_ON_FRAMES) != (blink < CURSOR_ON_FRAMES), value: Value::Continue },
            )
        },
        EventView::KeyDown(Keycode::Backspace, m) => if v.cursor > 0 {
            let head = v.text.subrange(0, v.cursor as int);
            let kept = if m.bits == ALT_BIT { without_last_component(head) } else { head.drop_last() };
            (
                TextBoxView { text: kept + v.text.subrange(v.cursor as int, v.text.len() as int), cursor: kept.len(), blink: 0 },
                redrawn_and_stopped::<()>(),
            )
        } else {
            (v, ignored::<()>())
        },
        EventView::KeyDown(Keycode::Up, _) => if v.cursor > 0 { moved(0) } else { (v, ignored::<()>()) },
        EventView::KeyDown(Keycode::Down, _) => if v.cursor < v.text.len() {
            moved(v.text.len())
        } else {
            (v, ignored::<()>())
        },
        EventView::KeyDown(Keycode::Left, _) => if v.cursor > 0 {
            moved((v.cursor - 1) as nat)
        } else {
            (v, ignored::<()>())
        },
        EventView::KeyDown(Keycode::Right, _) => if v.cursor < v.text.len() {
            moved(v.cursor + 1)
        } else {
            (v, ignored::<()>())
        },
        EventView::KeyDown(_, _) => (v, Action { redraw: false, value: Value::Stop }),
        EventView::TextInput(input) => (
            TextBoxView {
                text: v.text.subrange(0, v.cursor as int) + input + v.text.subrange(v.cursor as int, v.text.len() as int),
                cursor: v.cursor + input.len(),
                blink: 0,
            },
            redrawn_and_stopped::<()>(),
        ),
        _ => (v, ignored::<()>()),
    }
}

/// Typing one character and then pressing backspace, without alt, gives
/// back the text and the cursor as they were.
pub proof fn lemma_type_then_backspace(v: TextBoxView, c: char, m: KeyMod)
    requires
        v.cursor <= v.text.len(),
        m.bits != ALT_BIT,
    ensures
        ({
            let typed = textbox_event(v, EventView::TextInput(seq![c])).0;
            let erased = textbox_event(typed, EventView::KeyDown(Keycode::Backspace, m)).0;
            erased.text == v.text && erased.cursor == v.cursor
        }),
{
    let typed = textbox_event(v, EventView::TextInput(seq![c])).0;
    let head = v.text.subrange(0, v.cursor as int);
    let tail = v.text.subrange(v.cursor as int, v.text.len() as int);
    assert(typed.text == head + seq![c] + tail);
    assert(typed.cursor == v.cursor + 1);
    assert(typed.text.subrange(0, typed.cursor as int) =~= head.push(c));
    assert(typed.text.subrange(typed.cursor as int, typed.text.len() as int) =~= tail);
    assert(head.push(c).drop_last() =~= head);
    assert(head + tail =~= v.text);
}

/// A line of editable text with a blinking cursor.
pub struct TextBox {
    cursor: usize,
    cursor_blink: u32,
    text: Vec<char>,
}

impl View for TextBox {
    type V = TextBoxView;

    closed spec fn view(&self) -> TextBoxView {
        TextBoxView { text: self.text@, cursor: self.cursor as nat, blink: self.cursor_blink as nat }
    }
}

impl TextBox {
    /// The cursor lies in the text, and the blinking in its cycle.
    pub open spec fn wf(&self) -> bool {
        &&& self@.cursor <= self@.text.len()
        &&& self@.blink < CURSOR_ON_FRAMES + CURSOR_OFF_FRAMES
    }

    pub fn new() -> (t: TextBox)
        ensures
            t@ == (TextBoxView { text: Seq::empty(), cursor: 0, blink: 0 }),
            t.wf(),
    {
        TextBox { cursor: 0, cursor_blink: 0, text: Vec::new() }
    }

    pub fn text(&self) -> (s: String)
        ensures
            s@ == self@.text,
    {
        string_of_chars(&self.text)
    }

    /// The text before the cursor, for drawing the cursor after it.
    pub fn text_before_cursor(&self) -> (s: String)
        requires
            self.wf(),
        ensures
            s@ == self@.text.subrange(0, self@.cursor as int),
    {
        let mut head: Vec<char> = Vec::new();
        for i in 0..self.cursor
            invariant
                self.wf(),
                head@ == self@.text.subrange(0, i as int),
        {
            head.push(self.text[i]);
            assert(head@ =~= self@.text.subrange(0, i + 1));
        }
        string_of_chars(&head)
    }

    /// Whether the cursor shows.
    pub fn cursor_visible(&self) -> (b: bool)
        ensures
            b == (self@.blink < CURSOR_ON_FRAMES),
    {
        self.cursor_blink < CURSOR_ON_FRAMES
    }

    /// Replaces the text; the cursor goes to its end and shows.
    pub fn set_text(&mut self, text: String)
        ensures
            final(self)@ == (TextBoxView { text: text@, cursor: text@.len(), blink: 0 }),
            final(self).wf(),
    {
        let cs = chars_of(text.as_str());
        self.cursor = cs.len();
        self.text = cs;
        self.cursor_blink = 0;
    }

    /// Answers `event`: see `textbox_event`.
    pub fn on_event(&mut self, event: &Event, _state: &mut ()) -> (a: Action<()>)
        requires
            old(self).wf(),
        ensures
            final(self).wf(),
            (final(self)@, a) == textbox_event(old(self)@, event@),
    {
        match event {
            Event::ClockTick => {
                let was_on = self.cursor_blink < CURSOR_ON_FRAMES;
                self.cursor_blink = (self.cursor_blink + 1) % (CURSOR_ON_FRAMES + CURSOR_OFF_FRAMES);
                let is_on = self.cursor_blink < CURSOR_ON_FRAMES;
                Action::redraw_if(was_on != is_on)
            },
            Event::KeyDown(Keycode::Backspace, keymod) => {
                if self.cursor > 0 {
                    let mut rest = self.text.split_off(self.cursor);
                    if keymod.bits == ALT_BIT {
                        pop_last_component(&mut self.text);
                    } else {
                        self.text.pop();
                    }
                    self.cursor = self.text.len();
                    self.text.append(&mut rest);
                    self.cursor_blink = 0;
                    Action::redraw().and_stop()
                } else {
                    Action::ignore()
                }
            },
            Event::KeyDown(Keycode::Up, _) => {
                if self.cursor > 0 {
                    self.cursor = 0;
                    self.cursor_blink = 0;
                    Action::redraw().and_stop()
                } else {
                    Action::ignore()
                }
            },
            Event::KeyDown(Keycode::Down, _) => {
                if self.cursor < self.text.len() {
                    self.cursor = self.text.len();
                    self.cursor_blink = 0;
                    Action::redraw().and_stop()
                } else {
                    Action::ignore()
                }
            },
            Event::KeyDown(Keycode::Left, _) => {
                if self.cursor > 0 {
                    self.cursor = self.cursor - 1;
                    self.cursor_blink = 0;
                    Action::redraw().and_stop()
                } else {
                    Action::ignore()
                }
            },
            Event::KeyDown(Keycode::Right, _) => {
                if self.cursor < self.text.len() {
                    self.cursor = self.cursor + 1;
                    self.cursor_blink = 0;
                    Action::redraw().and_stop()
                } else {
                    Action::ignore()
                }
            },
            Event::KeyDown(_, _) => Action::ignore().and_stop(),
            Event::TextInput(input) => {
                let typed = chars_of(input.as_str());
                let mut rest = self.text.split_off(self.cursor);
                let mut typed_copy = typed;
                self.text.append(&mut typed_copy);
                self.cursor = self.text.len();
                self.text.append(&mut rest);
                self.cursor_blink = 0;
                Action::redraw().and_stop()
            },
            _ => Action::ignore(),
        }
    }
}

/// Removes the last component of the path `text`: the slashes that end it,
/// then the name before them.
fn pop_last_component(text: &mut Vec<char>)
    ensures
        final(text)@ == without_last_component(old(text)@),
{
    let ghost goal = without_last_component(text@);
    let mut popped_non_slash = false;
    loop
        invariant_except_break
            !popped_non_slash ==> without_last_component(text@) == goal,
            popped_non_slash ==> strip_trailing(text@, false) == goal,
        ensures
            text@ == goal,
        decreases text@.len(),
    {
        let ghost before = text@;
        match text.pop() {
            None => {
                break;
            },
            Some(c) => {
                proof {
                    assert(before.drop_last() == text@);
                    assert(before.last() == c);
                }
                if c == '/' {
                    if popped_non_slash {
                        text.push('/');
                        proof {
                            assert(text@ =~= before);
                        }
                        break;
                    }
                } else {
                    popped_non_slash = true;
                }
            },
        }
    }
}

//---------------------------------------------------------------------------//

/// A swatch of one RGBA color; a press answers with its color.
pub struct RgbaSwatch {
    rgba: Rgba,
}

impl RgbaSwatch {
    pub closed spec fn rgba(&self) -> Rgba {
        self.rgba
    }

    pub fn new(rgba: Rgba) -> (s: RgbaSwatch)
        ensures
            s.rgba() == rgba,
    {
        RgbaSwatch { rgba }
    }

    pub fn rgba_of(&self) -> (c: Rgba)
        ensures
            c == self.rgba(),
    {
        self.rgba
    }

    pub fn on_event(&mut self, event: &Event, _state: &mut ()) -> (a: Action<Rgba>)
        ensures
            *final(self) == *old(self),
            a == (if event@ is MouseDown {
                Action { redraw: true, value: Value::Return(old(self).rgba()) }
            } else {
                ignored::<Rgba>()
            }),
    {
        match event {
            Event::MouseDown(_) => Action::redraw().and_return(self.rgba),
            _ => Action::ignore(),
        }
    }
}

/// The side of a swatch, the margin around the swatches, and how many
/// columns and rows of swatches the panel has.
pub const SWATCH_SIZE: i32 = 18;

pub const RGBA_PANEL_MARGIN: i32 = 6;

pub const RGBA_PANEL_WIDTH: u32 = 300;

pub const RGBA_PANEL_HEIGHT: u32 = 120;

/// The swatches of the color panel, by column, row and color: the built-in
/// palette on the first row, then the NES palette, then the Game Boy
/// palette in the last column.
pub open spec fn rgba_swatches() -> Seq<(int, int, Rgba)> {
    seq![
        (0int, 0int, (0u8, 0u8, 0u8, 0u8)),
        (1int, 0int, (0u8, 0u8, 0u8, 255u8)),
        (2int, 0int, (127u8, 0u8, 0u8, 255u8)),
        (3int, 0int, (255u8, 0u8, 0u8, 255u8)),
        (4int, 0int, (0u8, 127u8, 0u8, 255u8)),
        (5int, 0int, (0u8, 255u8, 0u8, 255u8)),
        (6int, 0int, (127u8, 127u8, 0u8, 255u8)),
        (7int, 0int, (255u8, 255u8, 0u8, 255u8)),
        (8int, 0int, (0u8, 0u8, 127u8, 255u8)),
        (9int, 0int, (0u8, 0u8, 255u8, 255u8)),
        (10int, 0int, (127u8, 0u8, 127u8, 255u8)),
        (11int, 0int, (255u8, 0u8, 255u8, 255u8)),
        (12int, 0int, (0u8, 127u8, 127u8, 255u8)),
        (13int, 0int, (0u8, 255u8, 255u8, 255u8)),
        (14int, 0int, (127u8, 127u8, 127u8, 255u8)),
        (15int, 0int, (255u8, 255u8, 255u8, 255u8)),
        (0int, 2int, (84u8, 84u8, 84u8, 255u8)),
        (1int, 2int, (0u8, 30u8, 116u8, 255u8)),
        (2int, 2int, (8u8, 16u8, 144u8, 255u8)),
        (3int, 2int, (48u8, 0u8, 136u8, 255u8)),
        (4int, 2int, (68u8, 0u8, 100u8, 255u8)),
        (5int, 2int, (92u8, 0u8, 48u8, 255u8)),
        (6int, 2int, (84u8, 4u8, 0u8, 255u8)),
        (7int, 2int, (60u8, 24u8, 0u8, 255u8)),
        (8int, 2int, (32u8, 42u8, 0u8, 255u8)),
        (9int, 2int, (8u8, 58u8, 0u8, 255u8)),
        (10int, 2int, (0u8, 64u8, 0u8, 255u8)),
        (11int, 2int, (0u8, 60u8, 0u8, 255u8)),
        (12int, 2int, (0u8, 50u8, 60u8, 255u8)),
        (0int, 3int, (152u8, 150u8, 152u8, 255u8)),
        (1int, 3int, (8u8, 76u8, 196u8, 255u8)),
        (2int, 3int, (48u8, 50u8, 236u8, 255u8)),
        (3int, 3int, (92u8, 30u8, 228u8, 255u8)),
        (4int, 3int, (136u8, 20u8, 176u8, 255u8)),
        (5int, 3int, (160u8, 20u8, 100u8, 255u8)),
        (6int, 3int, (152u8, 34u8, 32u8, 255u8)),
        (7int, 3int, (120u8, 60u8, 0u8, 255u8)),
        (8int, 3int, (84u8, 90u8, 0u8, 255u8)),
        (9int, 3int, (40u8, 114u8, 0u8, 255u8)),
        (10int, 3int, (8u8, 124u8, 0u8, 255u8)),
        (11int, 3int, (0u8, 118u8, 40u8, 255u8)),
        (12int, 3int, (0u8, 102u8, 120u8, 255u8)),
        (13int, 3int, (0u8, 0u8, 0u8, 255u8)),
        (0int, 4int, (236u8, 238u8, 236u8, 255u8)),
        (1int, 4int, (76u8, 154u8, 236u8, 255u8)),
        (2int, 4int, (120u8, 124u8, 236u8, 255u8)),
        (3int, 4int, (176u8, 98u8, 236u8, 255u8)),
        (4int, 4int, (228u8, 84u8, 236u8, 255u8)),
        (5int, 4int, (236u8, 88u8, 180u8, 255u8)),
        (6int, 4int, (236u8, 106u8, 100u8, 255u8)),
        (7int, 4int, (212u8, 136u8, 32u8, 255u8)),
        (8int, 4int, (160u8, 170u8, 0u8, 255u8)),
        (9int, 4int, (116u8, 196u8, 0u8, 255u8)),
        (10int, 4int, (76u8, 208u8, 32u8, 255u8)),
        (11int, 4int, (56u8, 204u8, 108u8, 255u8)),
        (12int, 4int, (56u8, 180u8, 204u8, 255u8)),
        (13int, 4int, (60u8, 60u8, 60u8, 255u8)),
        (1int, 5int, (168u8, 204u8, 236u8, 255u8)),
        (2int, 5int, (188u8, 188u8, 236u8, 255u8)),
        (3int, 5int, (212u8, 178u8, 236u8, 255u8)),
        (4int, 5int, (236u8, 174u8, 236u8, 255u8)),
        (5int, 5int, (236u8, 174u8, 212u8, 255u8)),
        (6int, 5int, (236u8, 180u8, 176u8, 255u8)),
        (7int, 5int, (228u8, 196u8, 144u8, 255u8)),
        (8int, 5int, (204u8, 210u8, 120u8, 255u8)),
        (9int, 5int, (180u8, 222u8, 120u8, 255u8)),
        (10int, 5int, (168u8, 226u8, 144u8, 255u8)),
        (11int, 5int, (152u8, 226u8, 180u8, 255u8)),
        (12int, 5int, (160u8, 214u8, 228u8, 255u8)),
        (13int, 5int, (160u8, 162u8, 160u8, 255u8)),
        (15int, 2int, (208u8, 224u8, 64u8, 255u8)),
        (15int, 3int, (160u8, 168u8, 48u8, 255u8)),
        (15int, 4int, (96u8, 112u8, 40u8, 255u8)),
        (15int, 5int, (56u8, 72u8, 40u8, 255u8))
    ]
}

fn rgba_swatch_table() -> (t: Vec<(i32, i32, Rgba)>)
    ensures
        t@.len() == rgba_swatches().len(),
        forall|k: int|
            0 <= k < t@.len() ==> (#[trigger] t@[k]).0 as int == rgba_swatches()[k].0 && t@[k].1 as int == rgba_swatches()[k].1
                && t@[k].2 == rgba_swatches()[k].2 && 0 <= t@[k].0 < 16 && 0 <= t@[k].1 < 6,
{
    let t: Vec<(i32, i32, Rgba)> = vec![
            (0, 0, (0, 0, 0, 0)),
            (1, 0, (0, 0, 0, 255)),
            (2, 0, (127, 0, 0, 255)),
            (3, 0, (255, 0, 0, 255)),
            (4, 0, (0, 127, 0, 255)),
            (5, 0, (0, 255, 0, 255)),
            (6, 0, (127, 127, 0, 255)),
            (7, 0, (255, 255, 0, 255)),
            (8, 0, (0, 0, 127, 255)),
            (9, 0, (0, 0, 255, 255)),
            (10, 0, (127, 0, 127, 255)),
            (11, 0, (255, 0, 255, 255)),
            (12, 0, (0, 127, 127, 255)),
            (13, 0, (0, 255, 255, 255)),
            (14, 0, (127, 127, 127, 255)),
            (15, 0, (255, 255, 255, 255)),
            (0, 2, (84, 84, 84, 255)),
            (1, 2, (0, 30, 116, 255)),
            (2, 2, (8, 16, 144, 255)),
            (3, 2, (48, 0, 136, 255)),
            (4, 2, (68, 0, 100, 255)),
            (5, 2, (92, 0, 48, 255)),
            (6, 2, (84, 4, 0, 255)),
            (7, 2, (60, 24, 0, 255)),
            (8, 2, (32, 42, 0, 255)),
            (9, 2, (8, 58, 0, 255)),
            (10, 2, (0, 64, 0, 255)),
            (11, 2, (0, 60, 0, 255)),
            (12, 2, (0, 50, 60, 255)),
            (0, 3, (152, 150, 152, 255)),
            (1, 3, (8, 76, 196, 255)),
            (2, 3, (48, 50, 236, 255)),
            (3, 3, (92, 30, 228, 255)),
            (4, 3, (136, 20, 176, 255)),
            (5, 3, (160, 20, 100, 255)),
            (6, 3, (152, 34, 32, 255)),
            (7, 3, (120, 60, 0, 255)),
            (8, 3, (84, 90, 0, 255)),
            (9, 3, (40, 114, 0, 255)),
            (10, 3, (8, 124, 0, 255)),
            (11, 3, (0, 118, 40, 255)),
            (12, 3, (0, 102, 120, 255)),
            (13, 3, (0, 0, 0, 255)),
            (0, 4, (236, 238, 236, 255)),
            (1, 4, (76, 154, 236, 255)),
            (2, 4, (120, 124, 236, 255)),
            (3, 4, (176, 98, 236, 255)),
            (4, 4, (228, 84, 236, 255)),
            (5, 4, (236, 88, 180, 255)),
            (6, 4, (236, 106, 100, 255)),
            (7, 4, (212, 136, 32, 255)),
            (8, 4, (160, 170, 0, 255)),
            (9, 4, (116, 196, 0, 255)),
            (10, 4, (76, 208, 32, 255)),
            (11, 4, (56, 204, 108, 255)),
            (12, 4, (56, 180, 204, 255)),
            (13, 4, (60, 60, 60, 255)),
            (1, 5, (168, 204, 236, 255)),
            (2, 5, (188, 188, 236, 255)),
            (3, 5, (212, 178, 236, 255)),
            (4, 5, (236, 174, 236, 255)),
            (5, 5, (236, 174, 212, 255)),
            (6, 5, (236, 180, 176, 255)),
            (7, 5, (228, 196, 144, 255)),
            (8, 5, (204, 210, 120, 255)),
            (9, 5, (180, 222, 120, 255)),
            (10, 5, (168, 226, 144, 255)),
            (11, 5, (152, 226, 180, 255)),
            (12, 5, (160, 214, 228, 255)),
            (13, 5, (160, 162, 160, 255)),
            (15, 2, (208, 224, 64, 255)),
            (15, 3, (160, 168, 48, 255)),
            (15, 4, (96, 112, 40, 255)),
            (15, 5, (56, 72, 40, 255))
    ];
    assert(t@.len() == rgba_swatches().len());
    assert forall|k: int|
        0 <= k < t@.len() implies (#[trigger] t@[k]).0 as int == rgba_swatches()[k].0 && t@[k].1 as int == rgba_swatches()[k].1
            && t@[k].2 == rgba_swatches()[k].2 && 0 <= t@[k].0 < 16 && 0 <= t@[k].1 < 6 by {
    }
    t
}

/// The panel of color swatches offered while a palette entry is edited.
pub struct RgbaPanel {
    swatches: Vec<SubrectElement<RgbaSwatch>>,
}

impl RgbaPanel {
    pub closed spec fn rects(&self) -> Seq<Rect> {
        self.swatches@.map_values(|s: SubrectElement<RgbaSwatch>| s.subrect())
    }

    pub closed spec fn colors(&self) -> Seq<Rgba> {
        self.swatches@.map_values(|s: SubrectElement<RgbaSwatch>| s.element().rgba())
    }

    /// The panel with the swatches of `rgba_swatches`, each at its column and
    /// row.
    pub fn new() -> (p: RgbaPanel)
        ensures
            p.rects().len() == rgba_swatches().len(),
            p.colors().len() == rgba_swatches().len(),
            forall|k: int|
                0 <= k < rgba_swatches().len() ==> {
                    let (col, row, rgba) = #[trigger] rgba_swatches()[k];
                    &&& p.colors()[k] == rgba
                    &&& p.rects()[k]@ == (
                        RGBA_PANEL_MARGIN + SWATCH_SIZE * col,
                        RGBA_PANEL_MARGIN + SWATCH_SIZE * row,
                        SWATCH_SIZE as int,
                        SWATCH_SIZE as int,
                    )
                },
    {
        let table = rgba_swatch_table();
        let mut swatches: Vec<SubrectElement<RgbaSwatch>> = Vec::new();
        for i in 0..table.len()
            invariant
                table@.len() == rgba_swatches().len(),
                forall|k: int|
                    0 <= k < table@.len() ==> (#[trigger] table@[k]).0 as int == rgba_swatches()[k].0 && table@[k].1 as int
                        == rgba_swatches()[k].1 && table@[k].2 == rgba_swatches()[k].2 && 0 <= table@[k].0 < 16 && 0 <= table@[k].1 < 6,
                swatches@.len() == i,
                forall|k: int|
                    0 <= k < i ==> {
                        let (col, row, rgba) = #[trigger] rgba_swatches()[k];
                        &&& swatches@[k].element().rgba() == rgba
                        &&& swatches@[k].subrect()@ == (
                            RGBA_PANEL_MARGIN + SWATCH_SIZE * col,
                            RGBA_PANEL_MARGIN + SWATCH_SIZE * row,
                            SWATCH_SIZE as int,
                            SWATCH_SIZE as int,
                        )
                    },
        {
            let (col, row, rgba) = table[i];
            let left = RGBA_PANEL_MARGIN + SWATCH_SIZE * col;
            let top = RGBA_PANEL_MARGIN + SWATCH_SIZE * row;
            let rect = Rect::new(left, top, SWATCH_SIZE as u32, SWATCH_SIZE as u32);
            swatches.push(SubrectElement::new(RgbaSwatch::new(rgba), rect));
        }
        let p = RgbaPanel { swatches };
        assert forall|k: int|
            0 <= k < rgba_swatches().len() implies {
                let (col, row, rgba) = #[trigger] rgba_swatches()[k];
                &&& p.colors()[k] == rgba
                &&& p.rects()[k]@ == (
                    RGBA_PANEL_MARGIN + SWATCH_SIZE * col,
                    RGBA_PANEL_MARGIN + SWATCH_SIZE * row,
                    SWATCH_SIZE as int,
                    SWATCH_SIZE as int,
                )
            } by {
            assert(p.colors()[k] == p.swatches@[k].element().rgba());
            assert(p.rects()[k] == p.swatches@[k].subrect());
        }
        p
    }

    /// The rectangle and the color of each swatch, for drawing.
    pub fn layout(&self) -> (l: Vec<(Rect, Rgba)>)
        ensures
            l@.len() == self.rects().len(),
            forall|k: int| 0 <= k < l@.len() ==> (#[trigger] l@[k]).0 == self.rects()[k] && l@[k].1 == self.colors()[k],
    {
        let mut out: Vec<(Rect, Rgba)> = Vec::new();
        for i in 0..self.swatches.len()
            invariant
                out@.len() == i,
                forall|k: int| 0 <= k < i ==> (#[trigger] out@[k]).0 == self.rects()[k] && out@[k].1 == self.colors()[k],
        {
            let s = &self.swatches[i];
            assert(self.rects()[i as int] == s.subrect());
            assert(self.colors()[i as int] == s.element().rgba());
            out.push((s.rect(), s.inner().rgba));
        }
        out
    }

    /// A press on a swatch answers with its color.
    pub fn on_event(&mut self, event: &Event, _state: &mut ()) -> (a: Action<Rgba>)
        ensures
            *final(self) == *old(self),
            a == (match event@ {
                EventView::MouseDown(p) => match first_hit(old(self).rects(), p) {
                    Some(i) => Action { redraw: true, value: Value::Return(old(self).colors()[i]) },
                    None => ignored::<Rgba>(),
                },
                _ => ignored::<Rgba>(),
            }),
    {
        if let Event::MouseDown(_) = event {
            let ghost p = event@->MouseDown_0;
            let mut i: usize = 0;
            while i < self.swatches.len()
                invariant
                    0 <= i <= self.swatches@.len(),
                    event@ == EventView::MouseDown(p),
                    self.rects().len() == self.swatches@.len(),
                    forall|j: int| 0 <= j < i ==> !(#[trigger] self.rects()[j]).covers(p),
                decreases self.swatches@.len() - i,
            {
                let s = &self.swatches[i];
                assert(self.rects()[i as int] == s.subrect());
                assert(self.colors()[i as int] == s.element().rgba());
                if let Some(_) = s.route(event) {
                    proof {
                        lemma_first_hit(self.rects(), p, i as int);
                    }
                    return Action::redraw().and_return(s.inner().rgba);
                }
                i = i + 1;
            }
            proof {
                lemma_first_hit(self.rects(), p, i as int);
            }
        }
        Action::ignore()
    }
}

//---------------------------------------------------------------------------//

/// A file offered by tab completion: its name, shown, and its path, given
/// back when it is pressed.
pub struct FileMatch {
    file_name: String,
    file_path: String,
}

impl FileMatch {
    pub closed spec fn name(&self) -> Seq<char> {
        self.file_name@
    }

    pub closed spec fn path(&self) -> Seq<char> {
        self.file_path@
    }

    pub fn new(file_name: String, file_path: String) -> (m: FileMatch)
        ensures
            m.name() == file_name@,
            m.path() == file_path@,
    {
        FileMatch { file_name, file_path }
    }

    pub fn file_name(&self) -> (s: &String)
        ensures
            s@ == self.name(),
    {
        &self.file_name
    }

    /// A press answers with the file's path.
    pub fn on_event(&mut self, event: &Event, _state: &mut ()) -> (a: Action<String>)
        ensures
            *final(self) == *old(self),
            a.redraw == event@ is MouseDown,
            event@ is MouseDown ==> (a.value matches Value::Return(p) && p@ == old(self).path()),
            !(event@ is MouseDown) ==> a.value is Continue,
    {
        match event {
            Event::MouseDown(_) => Action::redraw().and_return(self.file_path.clone()),
            _ => Action::ignore(),
        }
    }
}

/// The height of a line of the matches panel, its margin, and its width.
pub const MATCH_HEIGHT: u32 = 14;

pub const MATCHES_MARGIN: u32 = 4;

pub const MATCHES_WIDTH: u32 = 360;

/// The most matches the panel lists.
pub const MAX_MATCHES: usize = 100000;

/// The files offered by tab completion, one per line.
pub struct MatchesPanel {
    left: i32,
    top: i32,
    matches: Vec<SubrectElement<FileMatch>>,
}

impl MatchesPanel {
    pub closed spec fn corner(&self) -> (int, int) {
        (self.left as int, self.top as int)
    }

    pub closed spec fn rects(&self) -> Seq<Rect> {
        self.matches@.map_values(|m: SubrectElement<FileMatch>| m.subrect())
    }

    pub closed spec fn paths(&self) -> Seq<Seq<char>> {
        self.matches@.map_values(|m: SubrectElement<FileMatch>| m.element().path())
    }

    pub closed spec fn names(&self) -> Seq<Seq<char>> {
        self.matches@.map_values(|m: SubrectElement<FileMatch>| m.element().name())
    }

    /// The corner can be negated.
    pub open spec fn wf(&self) -> bool {
        self.corner().0 > i32::MIN && self.corner().1 > i32::MIN
    }

    pub fn new(left: i32, top: i32) -> (p: MatchesPanel)
        requires
            left > i32::MIN,
            top > i32::MIN,
        ensures
            p.wf(),
            p.corner() == (left as int, top as int),
            p.rects().len() == 0,
            p.paths().len() == 0,
    {
        MatchesPanel { left, top, matches: Vec::new() }
    }

    pub fn is_empty(&self) -> (b: bool)
        ensures
            b == (self.rects().len() == 0),
    {
        self.matches.len() == 0
    }

    pub fn len(&self) -> (n: usize)
        ensures
            n == self.rects().len(),
    {
        self.matches.len()
    }

    pub fn corner_of(&self) -> (c: (i32, i32))
        ensures
            (c.0 as int, c.1 as int) == self.corner(),
    {
        (self.left, self.top)
    }

    /// The name of the match at `index` and its rectangle, for drawing.
    pub fn match_at(&self, index: usize) -> (m: (&String, Rect))
        requires
            index < self.rects().len(),
        ensures
            m.0@ == self.names()[index as int],
            m.1 == self.rects()[index as int],
    {
        let sub = &self.matches[index];
        assert(self.names()[index as int] == sub.element().name());
        (sub.inner().file_name(), sub.rect())
    }

    /// Lists `matches`, names with their paths, one per line from the top.
    pub fn set_matches(&mut self, matches: Vec<(String, String)>)
        requires
            MATCHES_MARGIN + MATCH_HEIGHT * matches@.len() <= i32::MAX,
        ensures
            final(self).corner() == old(self).corner(),
            final(self).rects().len() == matches@.len(),
            final(self).paths().len() == matches@.len(),
            final(self).names().len() == matches@.len(),
            forall|k: int|
                0 <= k < matches@.len() ==> {
                    &&& final(self).paths()[k] == (#[trigger] matches@[k]).1@
                    &&& final(self).names()[k] == matches@[k].0@
                    &&& final(self).rects()[k]@ == (
                        MATCHES_MARGIN as int,
                        clamp_position(MATCHES_MARGIN + MATCH_HEIGHT * k),
                        (MATCHES_WIDTH - 2 * MATCHES_MARGIN) as int,
                        MATCH_HEIGHT as int,
                    )
                },
    {
        let mut elements: Vec<SubrectElement<FileMatch>> = Vec::new();
        for row in 0..matches.len()
            invariant
                MATCHES_MARGIN + MATCH_HEIGHT * matches@.len() <= i32::MAX,
                elements@.len() == row,
                forall|k: int|
                    0 <= k < row ==> {
                        &&& (#[trigger] elements@[k]).element().path() == matches@[k].1@
                        &&& elements@[k].element().name() == matches@[k].0@
                        &&& elements@[k].subrect()@ == (
                            MATCHES_MARGIN as int,
                            clamp_position(MATCHES_MARGIN + MATCH_HEIGHT * k),
                            (MATCHES_WIDTH - 2 * MATCHES_MARGIN) as int,
                            MATCH_HEIGHT as int,
                        )
                    },
        {
            let name = matches[row].0.clone();
            let path = matches[row].1.clone();
            assert(MATCH_HEIGHT * row <= MATCH_HEIGHT * matches@.len()) by (nonlinear_arith)
                requires
                    row < matches@.len(),
            ;
            let top = (MATCHES_MARGIN as i32) + (MATCH_HEIGHT as i32) * (row as i32);
            let rect = Rect::new(MATCHES_MARGIN as i32, top, MATCHES_WIDTH - MATCHES_MARGIN * 2, MATCH_HEIGHT);
            elements.push(SubrectElement::new(FileMatch::new(name, path), rect));
            assert(elements@[row as int].subrect()@.1 == clamp_position(MATCHES_MARGIN + MATCH_HEIGHT * row));
        }
        self.matches = elements;
        assert forall|k: int|
            0 <= k < matches@.len() implies {
                &&& self.paths()[k] == (#[trigger] matches@[k]).1@
                &&& self.names()[k] == matches@[k].0@
                &&& self.rects()[k]@ == (
                    MATCHES_MARGIN as int,
                    clamp_position(MATCHES_MARGIN + MATCH_HEIGHT * k),
                    (MATCHES_WIDTH - 2 * MATCHES_MARGIN) as int,
                    MATCH_HEIGHT as int,
                )
            } by {
            assert(self.paths()[k] == self.matches@[k].element().path());
            assert(self.names()[k] == self.matches@[k].element().name());
            assert(self.rects()[k] == self.matches@[k].subrect());
        }
    }

    pub fn clear_matches(&mut self)
        ensures
            final(self).corner() == old(self).corner(),
            final(self).rects().len() == 0,
            final(self).paths().len() == 0,
            final(self).names().len() == 0,
    {
        self.matches = Vec::new();
    }

    /// A press on a line, taken from the panel's corner, answers with that
    /// file's path.
    pub fn on_event(&mut self, event: &Event, _state: &mut ()) -> (a: Action<String>)
        requires
            old(self).wf(),
        ensures
            *final(self) == *old(self),
            match event@.translated(-old(self).corner().0, -old(self).corner().1) {
                EventView::MouseDown(p) => match first_hit(old(self).rects(), p) {
                    Some(i) => a.redraw && (a.value matches Value::Return(s) && s@ == old(self).paths()[i]),
                    None => !a.redraw && a.value is Continue,
                },
                _ => !a.redraw && a.value is Continue,
            },
    {
        let inner = event.translate(-self.left, -self.top);
        if let Event::MouseDown(_) = inner {
            let ghost p = inner@->MouseDown_0;
            let mut i: usize = 0;
            while i < self.matches.len()
                invariant
                    0 <= i <= self.matches@.len(),
                    inner@ == EventView::MouseDown(p),
                    inner@ == event@.translated(-self.corner().0, -self.corner().1),
                    self.rects().len() == self.matches@.len(),
                    forall|j: int| 0 <= j < i ==> !(#[trigger] self.rects()[j]).covers(p),
                decreases self.matches@.len() - i,
            {
                let s = &self.matches[i];
                assert(self.rects()[i as int] == s.subrect());
                assert(self.paths()[i as int] == s.element().path());
                if let Some(_) = s.route(&inner) {
                    proof {
                        lemma_first_hit(self.rects(), p, i as int);
                    }
                    return Action::redraw().and_return(s.inner().file_path.clone());
                }
                i = i + 1;
            }
            proof {
                lemma_first_hit(self.rects(), p, i as int);
            }
        }
        Action::ignore()
    }
}


//---------------------------------------------------------------------------//

/// How far right of the modal text box's corner the text box begins, leaving
/// room for the label.
pub const LABEL_WIDTH: i32 = 50;

/// A color as eight upper-case hexadecimal digits: red, green, blue, alpha.
pub open spec fn rgba_text(c: Rgba) -> Seq<char> {
    hex_byte(c.0) + hex_byte(c.1) + hex_byte(c.2) + hex_byte(c.3)
}

/// The mathematical content of the modal text box: its mode, its text box,
/// the files offered by tab completion (the rectangle and the path of each),
/// and the tab completion it waits for, if any.
pub ghost struct ModalView {
    pub mode: Mode,
    pub text: TextBoxView,
    pub matches: Seq<(Rect, Seq<char>)>,
    pub pending: Option<TabCompletion>,
}

/// An answer without its value, as `Action::but_no_value` gives it.
pub open spec fn no_value<A, B>(a: Action<A>) -> Action<B> {
    Action { redraw: a.redraw, value: if a.value is Continue { Value::Continue } else { Value::Stop } }
}

/// The answer of the modal text box with its text taken as characters.
pub open spec fn answer_view(a: Action<(Mode, String)>) -> Action<(Mode, Seq<char>)> {
    Action {
        redraw: a.redraw,
        value: match a.value {
            Value::Continue => Value::Continue,
            Value::Stop => Value::Stop,
            Value::Return((m, s)) => Value::Return((m, s@)),
        },
    }
}

/// The modal text box back in edit mode, with no text and no files offered.
pub open spec fn cleared_view(m: ModalView) -> ModalView {
    ModalView { mode: Mode::Edit, text: TextBoxView { text: Seq::empty(), cursor: 0, blink: 0 }, matches: Seq::empty(), ..m }
}

/// The offered file that `e`, taken from `corner`, presses, if any.
pub open spec fn match_hit(matches: Seq<(Rect, Seq<char>)>, corner: (int, int), e: EventView) -> Option<int> {
    match e.translated(-corner.0, -corner.1) {
        EventView::MouseDown(p) => first_hit(matches.map_values(|m: (Rect, Seq<char>)| m.0), p),
        _ => None,
    }
}

/// The modal text box after `e`, and its answer. In edit mode it takes no
/// event. Otherwise escape leaves the mode; return answers with the mode and
/// the text; tab asks for completion when the mode has one. An event that
/// goes on reaches the text box, then the offered files (a press on one puts
/// its path in the text box), then, when a color is being set, the color
/// swatches (a press on one answers with the mode and the color's digits).
/// The event stops at the modal text box in any case.
pub open spec fn modal_event(
    tb: Rect,
    panel: Rect,
    swatch_rects: Seq<Rect>,
    swatch_colors: Seq<Rgba>,
    corner: (int, int),
    m: ModalView,
    e: EventView,
) -> (ModalView, Action<(Mode, Seq<char>)>) {
    if m.mode == Mode::Edit {
        (m, ignored::<(Mode, Seq<char>)>())
    } else {
        let (m1, a1) = match e {
            EventView::KeyDown(Keycode::Escape, _) => (cleared_view(m), redrawn_and_stopped::<(Mode, Seq<char>)>()),
            EventView::KeyDown(Keycode::Return, _) => (m, Action { redraw: true, value: Value::Return((m.mode, m.text.text)) }),
            EventView::KeyDown(Keycode::Tab, _) => match mode_completion(m.mode) {
                Some(tc) => (ModalView { pending: Some(tc), ..m }, Action { redraw: false, value: Value::Stop }),
                None => (m, ignored::<(Mode, Seq<char>)>()),
            },
            _ => (m, ignored::<(Mode, Seq<char>)>()),
        };
        let (m2, a2) = if a1.stops() {
            (m1, a1)
        } else {
            let (tv, sub) = match routed(tb, e) {
                Some(f) => textbox_event(m1.text, f),
                None => (m1.text, ignored::<()>()),
            };
            (ModalView { text: tv, ..m1 }, merged_action(a1, no_value::<(), (Mode, Seq<char>)>(sub)))
        };
        let (m3, a3) = if a2.stops() || m2.matches.len() == 0 {
            (m2, a2)
        } else {
            match match_hit(m2.matches, corner, e) {
                Some(i) => (
                    ModalView {
                        text: TextBoxView { text: m2.matches[i].1, cursor: m2.matches[i].1.len(), blink: 0 },
                        matches: Seq::empty(),
                        ..m2
                    },
                    merged_action(a2, redrawn_and_stopped::<(Mode, Seq<char>)>()),
                ),
                None => (m2, a2),
            }
        };
        let a4 = if a3.stops() || !(m3.mode is SetColor) {
            a3
        } else {
            match routed(panel, e) {
                Some(EventView::MouseDown(p)) => match first_hit(swatch_rects, p) {
                    Some(i) => merged_action(
                        a3,
                        Action { redraw: true, value: Value::Return((m3.mode, rgba_text(swatch_colors[i]))) },
                    ),
                    None => a3,
                },
                _ => a3,
            }
        };
        if a4.stops() {
            (m3, a4)
        } else {
            (m3, Action { value: Value::Stop, ..a4 })
        }
    }
}

/// The text box with which the editor asks for text, with its label, the
/// files that tab completion offers, and the color swatches shown while a
/// palette entry is set.
pub struct ModalTextBox {
    left: i32,
    top: i32,
    mode: Mode,
    textbox: SubrectElement<TextBox>,
    rgba_panel: SubrectElement<RgbaPanel>,
    matches_panel: MatchesPanel,
    pending_completion: Option<TabCompletion>,
}

impl View for ModalTextBox {
    type V = ModalView;

    closed spec fn view(&self) -> ModalView {
        ModalView {
            mode: self.mode,
            text: self.textbox.element()@,
            matches: self.matches_panel.rects().zip_with(self.matches_panel.paths()),
            pending: self.pending_completion,
        }
    }
}

impl ModalTextBox {
    pub closed spec fn wf(&self) -> bool {
        &&& self.textbox.element().wf()
        &&& self.matches_panel.wf()
        &&& self.matches_panel.rects().len() == self.matches_panel.paths().len()
    }

    pub closed spec fn corner(&self) -> (int, int) {
        (self.left as int, self.top as int)
    }

    pub closed spec fn offered_files(&self) -> MatchesPanel {
        self.matches_panel
    }

    pub closed spec fn textbox_rect(&self) -> Rect {
        self.textbox.subrect()
    }

    pub closed spec fn panel_rect(&self) -> Rect {
        self.rgba_panel.subrect()
    }

    pub closed spec fn swatch_rects(&self) -> Seq<Rect> {
        self.rgba_panel.element().rects()
    }

    pub closed spec fn swatch_colors(&self) -> Seq<Rgba> {
        self.rgba_panel.element().colors()
    }

    pub closed spec fn matches_corner(&self) -> (int, int) {
        self.matches_panel.corner()
    }

    /// In edit mode, with no text, at `(left, top)`: the text box to the
    /// right of the label, the swatches and the offered files under it.
    pub fn new(left: i32, top: i32) -> (m: ModalTextBox)
        requires
            left <= i32::MAX - LABEL_WIDTH,
            top <= i32::MAX - 20,
            top > i32::MIN,
        ensures
            m.wf(),
            m@ == (ModalView {
                mode: Mode::Edit,
                text: TextBoxView { text: Seq::empty(), cursor: 0, blink: 0 },
                matches: Seq::empty(),
                pending: None,
            }),
            m.corner() == (left as int, top as int),
            m.textbox_rect()@ == (clamp_position(left + LABEL_WIDTH), clamp_position(top as int), 390int, 18int),
            m.panel_rect()@ == (
                clamp_position(left + LABEL_WIDTH),
                clamp_position(top + 20),
                RGBA_PANEL_WIDTH as int,
                RGBA_PANEL_HEIGHT as int,
            ),
            m.matches_corner() == (left + LABEL_WIDTH, top + 20),
            m.swatch_colors().len() == rgba_swatches().len(),
    {
        let m = ModalTextBox {
            left,
            top,
            mode: Mode::Edit,
            textbox: SubrectElement::new(TextBox::new(), Rect::new(left + LABEL_WIDTH, top, (440 - LABEL_WIDTH) as u32, 18)),
            rgba_panel: SubrectElement::new(
                RgbaPanel::new(),
                Rect::new(left + LABEL_WIDTH, top + 20, RGBA_PANEL_WIDTH, RGBA_PANEL_HEIGHT),
            ),
            matches_panel: MatchesPanel::new(left + LABEL_WIDTH, top + 20),
            pending_completion: None,
        };
        assert(m@.matches =~= Seq::<(Rect, Seq<char>)>::empty());
        m
    }

    pub fn mode(&self) -> (m: Mode)
        ensures
            m == self@.mode,
    {
        self.mode
    }

    /// The text being edited.
    pub fn text(&self) -> (s: String)
        ensures
            s@ == self@.text.text,
    {
        self.textbox.inner().text()
    }

    /// Enters `mode` with `text` in the text box, the cursor at its end, and
    /// no files offered.
    pub fn set_mode(&mut self, mode: Mode, text: String)
        requires
            old(self).wf(),
        ensures
            final(self).wf(),
            final(self)@ == (ModalView {
                mode,
                text: TextBoxView { text: text@, cursor: text@.len(), blink: 0 },
                matches: Seq::empty(),
                pending: old(self)@.pending,
            }),
            final(self).same_layout(*old(self)),
    {
        self.mode = mode;
        self.textbox.inner_mut().set_text(text);
        self.matches_panel.clear_matches();
        assert(self@.matches =~= Seq::<(Rect, Seq<char>)>::empty());
    }

    /// Back to edit mode, with no text and no files offered.
    pub fn clear_mode(&mut self)
        requires
            old(self).wf(),
        ensures
            final(self).wf(),
            final(self)@ == cleared_view(old(self)@),
            final(self).same_layout(*old(self)),
    {
        self.mode = Mode::Edit;
        self.textbox.inner_mut().set_text(String::new());
        self.matches_panel.clear_matches();
        assert(self@.matches =~= Seq::<(Rect, Seq<char>)>::empty());
        assert(self@.text.text =~= Seq::<char>::empty());
    }

    /// The placement of the parts, which nothing changes.
    pub open spec fn same_layout(&self, other: ModalTextBox) -> bool {
        &&& self.corner() == other.corner()
        &&& self.textbox_rect() == other.textbox_rect()
        &&& self.panel_rect() == other.panel_rect()
        &&& self.swatch_rects() == other.swatch_rects()
        &&& self.swatch_colors() == other.swatch_colors()
        &&& self.matches_corner() == other.matches_corner()
    }

    /// The tab completion asked for by the last event, if any; it is asked
    /// for only once.
    pub fn take_pending_completion(&mut self) -> (t: Option<TabCompletion>)
        ensures
            t == old(self)@.pending,
            final(self)@ == (ModalView { pending: None, ..old(self)@ }),
            final(self).wf() == old(self).wf(),
            final(self).same_layout(*old(self)),
    {
        let t = self.pending_completion;
        self.pending_completion = None;
        t
    }

    /// Takes the result of a tab completion: the completed path goes in the
    /// text box, and the matching files are offered when there are more
    /// than one. Says whether there was a result to show.
    pub fn complete(&mut self, result: Option<(String, Vec<(String, String)>)>) -> (b: bool)
        requires
            old(self).wf(),
            result matches Some((_, matches)) ==> MATCHES_MARGIN + MATCH_HEIGHT * matches@.len() <= i32::MAX,
        ensures
            final(self).wf(),
            final(self).same_layout(*old(self)),
            b == result is Some,
            match result {
                Some((path, matches)) => {
                    &&& final(self)@.text == (TextBoxView { text: path@, cursor: path@.len(), blink: 0 })
                    &&& final(self)@.mode == old(self)@.mode
                    &&& final(self)@.pending == old(self)@.pending
                    &&& final(self)@.matches.len() == (if matches@.len() > 1 { matches@.len() } else { 0 })
                    &&& forall|k: int|
                        0 <= k < final(self)@.matches.len() ==> (#[trigger] final(self)@.matches[k]).1 == matches@[k].1@
                    &&& forall|k: int|
                        0 <= k < final(self)@.matches.len() ==> (#[trigger] final(self)@.matches[k]).0@ == (
                            MATCHES_MARGIN as int,
                            clamp_position(MATCHES_MARGIN + MATCH_HEIGHT * k),
                            (MATCHES_WIDTH - 2 * MATCHES_MARGIN) as int,
                            MATCH_HEIGHT as int,
                        )
                    &&& final(self).offered_files().names().len() == final(self)@.matches.len()
                    &&& forall|k: int|
                        0 <= k < final(self)@.matches.len() ==> #[trigger] final(self).offered_files().names()[k] == matches@[k].0@
                },
                None => final(self)@ == old(self)@,
            },
    {
        match result {
            Some((path, matches)) => {
                self.textbox.inner_mut().set_text(path);
                if matches.len() > 1 {
                    let ghost ms = matches@;
                    self.matches_panel.set_matches(matches);
                    proof {
                        let rs = self.matches_panel.rects();
                        let ps = self.matches_panel.paths();
                        assert forall|k: int| 0 <= k < self@.matches.len() implies (#[trigger] self@.matches[k]) == (rs[k], ps[k])
                            && ps[k] == ms[k].1@ by {
                        }
                    }
                } else {
                    self.matches_panel.clear_matches();
                }
                true
            },
            None => false,
        }
    }

    /// The text box and its rectangle, for drawing.
    pub fn textbox(&self) -> (t: (&TextBox, Rect))
        ensures
            t.0@ == self@.text,
            t.1 == self.textbox_rect(),
    {
        (self.textbox.inner(), self.textbox.rect())
    }

    /// The swatches and their panel's rectangle, for drawing.
    pub fn rgba_panel(&self) -> (p: (&RgbaPanel, Rect))
        ensures
            p.1 == self.panel_rect(),
    {
        (self.rgba_panel.inner(), self.rgba_panel.rect())
    }

    /// The offered files, for drawing.
    pub fn matches_panel(&self) -> (p: &MatchesPanel)
        ensures
            *p == self.offered_files(),
    {
        &self.matches_panel
    }

    pub fn corner_of(&self) -> (c: (i32, i32))
        ensures
            (c.0 as int, c.1 as int) == self.corner(),
    {
        (self.left, self.top)
    }

    /// Answers `event`: see `modal_event`.
    pub fn on_event(&mut self, event: &Event) -> (a: Action<(Mode, String)>)
        requires
            old(self).wf(),
        ensures
            final(self).wf(),
            final(self).same_layout(*old(self)),
            (final(self)@, answer_view(a)) == modal_event(
                old(self).textbox_rect(),
                old(self).panel_rect(),
                old(self).swatch_rects(),
                old(self).swatch_colors(),
                old(self).matches_corner(),
                old(self)@,
                event@,
            ),
    {
        if self.mode == Mode::Edit {
            return Action::ignore();
        }
        let mut action: Action<(Mode, String)> = match event {
            Event::KeyDown(Keycode::Escape, _) => {
                self.clear_mode();
                Action::redraw().and_stop()
            },
            Event::KeyDown(Keycode::Return, _) => {
                let text = self.textbox.inner().text();
                Action::redraw().and_return((self.mode, text))
            },
            Event::KeyDown(Keycode::Tab, _) => match self.mode.tab_completion() {
                Some(tab_completion) => {
                    self.pending_completion = Some(tab_completion);
                    Action::ignore().and_stop()
                },
                None => Action::ignore(),
            },
            _ => Action::ignore(),
        };
        let ghost m0 = old(self)@;
        let ghost e = event@;
        let ghost stage1 = match e {
            EventView::KeyDown(Keycode::Escape, _) => (cleared_view(m0), redrawn_and_stopped::<(Mode, Seq<char>)>()),
            EventView::KeyDown(Keycode::Return, _) => (m0, Action { redraw: true, value: Value::Return((m0.mode, m0.text.text)) }),
            EventView::KeyDown(Keycode::Tab, _) => match mode_completion(m0.mode) {
                Some(tc) => (ModalView { pending: Some(tc), ..m0 }, Action { redraw: false, value: Value::Stop }),
                None => (m0, ignored::<(Mode, Seq<char>)>()),
            },
            _ => (m0, ignored::<(Mode, Seq<char>)>()),
        };
        assert(self@ == stage1.0);
        assert(answer_view(action) == stage1.1);
        if !action.should_stop() {
            let subaction: Action<()> = match self.textbox.route(event) {
                Some(e) => self.textbox.inner_mut().on_event(&e, &mut ()),
                None => Action::ignore(),
            };
            action.merge(subaction.but_no_value());
        }
        let ghost stage2 = if stage1.1.stops() {
            stage1
        } else {
            let (tv, sub) = match routed(old(self).textbox_rect(), e) {
                Some(f) => textbox_event(stage1.0.text, f),
                None => (stage1.0.text, ignored::<()>()),
            };
            (ModalView { text: tv, ..stage1.0 }, merged_action(stage1.1, no_value::<(), (Mode, Seq<char>)>(sub)))
        };
        assert(self@ == stage2.0);
        assert(answer_view(action) == stage2.1);
        proof {
            assert(stage2.0.matches.map_values(|m: (Rect, Seq<char>)| m.0) =~= self.matches_panel.rects());
        }
        if !action.should_stop() {
            if !self.matches_panel.is_empty() {
                let ghost paths = self.matches_panel.paths();
                let mut subaction = self.matches_panel.on_event(event, &mut ());
                if let Some(file_path) = subaction.take_value() {
                    self.textbox.inner_mut().set_text(file_path);
                    self.matches_panel.clear_matches();
                    proof {
                        assert(self@.matches =~= Seq::<(Rect, Seq<char>)>::empty());
                        let p = e.translated(-old(self).matches_corner().0, -old(self).matches_corner().1)->MouseDown_0;
                        lemma_first_hit_in(stage2.0.matches.map_values(|m: (Rect, Seq<char>)| m.0), p);
                        let i = match_hit(stage2.0.matches, old(self).matches_corner(), e)->0;
                        assert(stage2.0.matches[i].1 == paths[i]);
                    }
                    action.merge(Action::redraw().and_stop());
                } else {
                    action.merge(subaction.but_no_value());
                }
            }
        }
        let ghost stage3 = if stage2.1.stops() || stage2.0.matches.len() == 0 {
            stage2
        } else {
            match match_hit(stage2.0.matches, old(self).matches_corner(), e) {
                Some(i) => (
                    ModalView {
                        text: TextBoxView { text: stage2.0.matches[i].1, cursor: stage2.0.matches[i].1.len(), blink: 0 },
                        matches: Seq::empty(),
                        ..stage2.0
                    },
                    merged_action(stage2.1, redrawn_and_stopped::<(Mode, Seq<char>)>()),
                ),
                None => stage2,
            }
        };
        assert(self@ == stage3.0);
        assert(answer_view(action) == stage3.1);
        if !action.should_stop() {
            if let Mode::SetColor(_) = self.mode {
                let mut subaction: Action<Rgba> = match self.rgba_panel.route(event) {
                    Some(e) => self.rgba_panel.inner_mut().on_event(&e, &mut ()),
                    None => Action::ignore(),
                };
                if let Some((r, g, b, a)) = subaction.take_value() {
                    let mut digits: Vec<char> = Vec::new();
                    push_hex_byte(&mut digits, r);
                    push_hex_byte(&mut digits, g);
                    push_hex_byte(&mut digits, b);
                    push_hex_byte(&mut digits, a);
                    let text = string_of_chars(&digits);
                    action.merge(Action::redraw().and_return((self.mode, text)));
                } else {
                    action.merge(subaction.but_no_value());
                }
            }
        }
        if !action.should_stop() {
            action = action.and_stop();
        }
        action
    }
}

//---------------------------------------------------------------------------//

/// Whether tab completion offers an entry of a directory: its name begins
/// with `prefix`, and it is a directory or a file that `tc` allows.
pub open spec fn offered(tc: TabCompletion, prefix: Seq<char>, entry: (Seq<char>, bool)) -> bool {
    starts_with(entry.0, prefix) && (entry.1 || tc.allows(entry.0))
}

/// The entries of a directory, names with whether each is a directory, as
/// names and flags.
pub open spec fn entries_view(entries: Seq<(String, bool)>) -> Seq<(Seq<char>, bool)> {
    entries.map_values(|e: (String, bool)| (e.0@, e.1))
}

/// Whether the characters `cs` begin with `prefix`.
fn starts_with_chars(cs: &Vec<char>, prefix: &Vec<char>) -> (b: bool)
    ensures
        b == starts_with(cs@, prefix@),
{
    if cs.len() < prefix.len() {
        return false;
    }
    let mut i: usize = 0;
    while i < prefix.len()
        invariant
            prefix@.len() <= cs@.len(),
            0 <= i <= prefix@.len(),
            forall|j: int| 0 <= j < i ==> cs@[j] == prefix@[j],
        decreases prefix@.len() - i,
    {
        if cs[i] != prefix[i] {
            proof {
                assert(cs@.subrange(0, prefix@.len() as int)[i as int] != prefix@[i as int]);
            }
            return false;
        }
        i = i + 1;
    }
    assert(cs@.subrange(0, prefix@.len() as int) =~= prefix@);
    true
}

/// The names of the entries that tab completion offers, in their order.
pub fn completion_candidates(tc: TabCompletion, prefix: &str, entries: &Vec<(String, bool)>) -> (names: Vec<String>)
    ensures
        names@.map_values(|n: String| n@) == entries_view(entries@).filter(|e: (Seq<char>, bool)| offered(tc, prefix@, e)).map_values(
            |e: (Seq<char>, bool)| e.0,
        ),
{
    let ghost pick = |e: (Seq<char>, bool)| offered(tc, prefix@, e);
    let ghost all = entries_view(entries@);
    let prefix_chars = chars_of(prefix);
    let mut names: Vec<String> = Vec::new();
    for i in 0..entries.len()
        invariant
            prefix_chars@ == prefix@,
            all == entries_view(entries@),
            pick == (|e: (Seq<char>, bool)| offered(tc, prefix@, e)),
            names@.map_values(|n: String| n@) == all.subrange(0, i as int).filter(pick).map_values(|e: (Seq<char>, bool)| e.0),
    {
        let name_chars = chars_of(entries[i].0.as_str());
        let is_dir = entries[i].1;
        proof {
            reveal(Seq::filter);
            assert(all.subrange(0, i + 1).drop_last() =~= all.subrange(0, i as int));
            assert(all[i as int] == (entries@[i as int].0@, is_dir));
            assert(all.subrange(0, i + 1).last() == all[i as int]);
        }
        if starts_with_chars(&name_chars, &prefix_chars) && (is_dir || tc.allow(entries[i].0.as_str())) {
            let ghost before = names@;
            let cloned = entries[i].0.clone();
            names.push(cloned);
            proof {
                reveal(Seq::filter);
                assert(pick(all[i as int]));
                let prevf = all.subrange(0, i as int).filter(pick);
                let newf = all.subrange(0, i + 1).filter(pick);
                assert(newf == prevf.push(all[i as int]));
                assert(newf.map_values(|e: (Seq<char>, bool)| e.0) =~= prevf.map_values(|e: (Seq<char>, bool)| e.0).push(all[i as int].0));
                assert(names@ == before.push(cloned));
                assert(names@.map_values(|n: String| n@) =~= before.map_values(|n: String| n@).push(cloned@));
                assert(names@.map_values(|n: String| n@) =~= all.subrange(0, i + 1).filter(pick).map_values(|e: (Seq<char>, bool)| e.0));
            }
        } else {
            proof {
                reveal(Seq::filter);
                assert(names@.map_values(|n: String| n@) =~= all.subrange(0, i + 1).filter(pick).map_values(|e: (Seq<char>, bool)| e.0));
            }
        }
    }
    proof {
        assert(all.subrange(0, entries@.len() as int) =~= all);
    }
    names
}

/// Whether every one of `names` begins with `p`.
pub open spec fn common_to(p: Seq<char>, names: Seq<Seq<char>>) -> bool {
    forall|i: int| 0 <= i < names.len() ==> starts_with(#[trigger] names[i], p)
}

/// The longest beginning that all of `names` share, found by extending a
/// beginning of the first name one character at a time while all names
/// share it.
pub fn common_prefix(names: &Vec<String>) -> (p: String)
    requires
        names@.len() > 0,
    ensures
        common_to(p@, names@.map_values(|n: String| n@)),
        starts_with(names@[0]@, p@),
        p@.len() == names@[0]@.len() || !common_to(names@[0]@.subrange(0, p@.len() as int + 1), names@.map_values(|n: String| n@)),
{
    let ghost all = names@.map_values(|n: String| n@);
    let first = chars_of(names[0].as_str());
    let mut lists: Vec<Vec<char>> = Vec::new();
    for i in 0..names.len()
        invariant
            lists@.len() == i,
            forall|k: int| 0 <= k < i ==> (#[trigger] lists@[k])@ == names@[k]@,
    {
        lists.push(chars_of(names[i].as_str()));
    }
    let mut k: usize = 0;
    let mut done = false;
    proof {
        assert forall|i: int| 0 <= i < all.len() implies starts_with(#[trigger] all[i], first@.subrange(0, 0)) by {
            assert(all[i].subrange(0, 0) =~= first@.subrange(0, 0));
        }
    }
    while k < first.len() && !done
        invariant
            all == names@.map_values(|n: String| n@),
            first@ == all[0],
            lists@.len() == all.len(),
            all.len() > 0,
            forall|j: int| 0 <= j < all.len() ==> (#[trigger] lists@[j])@ == all[j],
            0 <= k <= first@.len(),
            common_to(first@.subrange(0, k as int), all),
            done ==> k < first@.len() && !common_to(first@.subrange(0, k + 1), all),
        decreases 2 * (first@.len() - k) + (if done { 0int } else { 1int }),
    {
        let c = first[k];
        let mut all_have = true;
        let mut j: usize = 0;
        while j < lists.len()
            invariant
                lists@.len() == all.len(),
                forall|m: int| 0 <= m < all.len() ==> (#[trigger] lists@[m])@ == all[m],
                0 <= k < first@.len(),
                first@ == all[0],
                c == first@[k as int],
                common_to(first@.subrange(0, k as int), all),
                0 <= j <= lists@.len(),
                all_have ==> forall|m: int| 0 <= m < j ==> starts_with(#[trigger] all[m], first@.subrange(0, k + 1)),
                !all_have ==> !common_to(first@.subrange(0, k + 1), all),
            decreases lists@.len() - j,
        {
            let name = &lists[j];
            assert(name@ == all[j as int]);
            assert(starts_with(all[j as int], first@.subrange(0, k as int)));
            if name.len() <= k || name[k] != c {
                all_have = false;
                proof {
                    if starts_with(all[j as int], first@.subrange(0, k + 1)) {
                        assert(all[j as int].subrange(0, k + 1)[k as int] == first@.subrange(0, k + 1)[k as int]);
                    }
                }
            } else {
                proof {
                    assert(all[j as int].subrange(0, k as int) == first@.subrange(0, k as int));
                    let a = all[j as int].subrange(0, k + 1);
                    let b = first@.subrange(0, k + 1);
                    assert(a =~= b) by {
                        assert forall|m: int| 0 <= m < k + 1 implies #[trigger] a[m] == b[m] by {
                            if m < k {
                                assert(all[j as int].subrange(0, k as int)[m] == first@.subrange(0, k as int)[m]);
                            }
                        }
                    }
                }
            }
            j = j + 1;
        }
        if all_have {
            k = k + 1;
        } else {
            done = true;
        }
    }
    let mut prefix: Vec<char> = Vec::new();
    for i in 0..k
        invariant
            k <= first@.len(),
            prefix@ == first@.subrange(0, i as int),
    {
        prefix.push(first[i]);
        assert(prefix@ =~= first@.subrange(0, i + 1));
    }
    proof {
        assert(starts_with(all[0], first@.subrange(0, k as int)));
        if k == first@.len() {
            assert(first@.subrange(0, k as int) =~= first@);
        }
    }
    string_of_chars(&prefix)
}

/// `a` comes before `b`, or is `b`, in the order in which `String`s compare:
/// character by character, and a beginning before what it begins.
pub open spec fn lex_le(a: Seq<char>, b: Seq<char>) -> bool
    decreases a.len(),
{
    if a.len() == 0 {
        true
    } else if b.len() == 0 {
        false
    } else if a[0] != b[0] {
        a[0] < b[0]
    } else {
        lex_le(a.drop_first(), b.drop_first())
    }
}

/// Of two texts, one comes before the other.
proof fn lemma_lex_total(a: Seq<char>, b: Seq<char>)
    ensures
        lex_le(a, b) || lex_le(b, a),
    decreases a.len(),
{
    if a.len() > 0 && b.len() > 0 && a[0] == b[0] {
        lemma_lex_total(a.drop_first(), b.drop_first());
    }
}

/// The order is transitive.
proof fn lemma_lex_trans(a: Seq<char>, b: Seq<char>, c: Seq<char>)
    requires
        lex_le(a, b),
        lex_le(b, c),
    ensures
        lex_le(a, c),
    decreases a.len(),
{
    if a.len() > 0 && b.len() > 0 && c.len() > 0 && a[0] == b[0] && b[0] == c[0] {
        lemma_lex_trans(a.drop_first(), b.drop_first(), c.drop_first());
    }
}

/// Whether the characters `a` come before `b`, or are `b`.
fn lex_le_exec(a: &Vec<char>, b: &Vec<char>) -> (r: bool)
    ensures
        r == lex_le(a@, b@),
{
    let mut i: usize = 0;
    assert(a@.subrange(0, a@.len() as int) =~= a@);
    assert(b@.subrange(0, b@.len() as int) =~= b@);
    loop
        invariant
            i <= a@.len(),
            i <= b@.len(),
            lex_le(a@, b@) == lex_le(a@.subrange(i as int, a@.len() as int), b@.subrange(i as int, b@.len() as int)),
        decreases a@.len() - i,
    {
        let ghost sa = a@.subrange(i as int, a@.len() as int);
        let ghost sb = b@.subrange(i as int, b@.len() as int);
        if i == a.len() {
            return true;
        }
        if i == b.len() {
            return false;
        }
        assert(sa[0] == a@[i as int] && sb[0] == b@[i as int]);
        if a[i] != b[i] {
            return a[i] < b[i];
        }
        assert(sa.drop_first() =~= a@.subrange(i + 1, a@.len() as int));
        assert(sb.drop_first() =~= b@.subrange(i + 1, b@.len() as int));
        i = i + 1;
    }
}

/// The names in the order in which `String`s compare, as `sort` orders
/// them.
pub fn sort_names(names: Vec<String>) -> (r: Vec<String>)
    ensures
        r@.map_values(|n: String| n@).to_multiset() == names@.map_values(|n: String| n@).to_multiset(),
        forall|i: int, j: int| 0 <= i < j < r@.len() ==> lex_le(#[trigger] r@[i]@, #[trigger] r@[j]@),
{
    broadcast use vstd::multiset::group_multiset_axioms, vstd::seq_lib::group_to_multiset_ensures;
    let ghost orig = names@.map_values(|n: String| n@);
    let mut input = names;
    let mut out: Vec<String> = Vec::new();
    assert(out@.map_values(|n: String| n@).to_multiset() =~= Multiset::<Seq<char>>::empty()) by {
        assert(out@.map_values(|n: String| n@).to_multiset().len() == 0);
    }
    assert(input@.map_values(|n: String| n@) == orig);
    while input.len() > 0
        invariant
            out@.map_values(|n: String| n@).to_multiset().add(input@.map_values(|n: String| n@).to_multiset()) == orig.to_multiset(),
            forall|i: int, j: int| 0 <= i < j < out@.len() ==> lex_le(#[trigger] out@[i]@, #[trigger] out@[j]@),
        decreases input@.len(),
    {
        let ghost before_in = input@;
        let ghost before_out = out@;
        let name = input.pop().unwrap();
        let key = chars_of(name.as_str());
        let mut p: usize = 0;
        let mut going = true;
        while going && p < out.len()
            invariant
                out@ == before_out,
                p <= out@.len(),
                key@ == name@,
                forall|k: int| 0 <= k < p ==> lex_le(#[trigger] out@[k]@, name@),
                !going ==> p < out@.len() && !lex_le(out@[p as int]@, name@),
            decreases out@.len() - p + (if going { 1int } else { 0int }),
        {
            let other = chars_of(out[p].as_str());
            if lex_le_exec(&other, &key) {
                p = p + 1;
            } else {
                going = false;
            }
        }
        out.insert(p, name);
        proof {
            let o = before_out;
            if p < o.len() {
                lemma_lex_total(o[p as int]@, name@);
            }
            assert forall|i: int, j: int| 0 <= i < j < out@.len() implies lex_le(#[trigger] out@[i]@, #[trigger] out@[j]@) by {
                if j < p {
                    assert(out@[i] == o[i] && out@[j] == o[j]);
                } else if j == p {
                    assert(out@[i] == o[i] && out@[j] == name);
                } else if i < p {
                    assert(out@[i] == o[i] && out@[j] == o[j - 1]);
                } else if i == p {
                    assert(out@[i] == name && out@[j] == o[j - 1]);
                    if j - 1 > p {
                        lemma_lex_trans(name@, o[p as int]@, o[j - 1]@);
                    }
                } else {
                    assert(out@[i] == o[i - 1] && out@[j] == o[j - 1]);
                }
            }
            let om = o.map_values(|n: String| n@);
            assert(out@.map_values(|n: String| n@) =~= om.insert(p as int, name@));
            vstd::seq_lib::to_multiset_insert(om, p as int, name@);
            let im = input@.map_values(|n: String| n@);
            assert(before_in.map_values(|n: String| n@) =~= im.push(name@));
            vstd::seq_lib::to_multiset_build(im, name@);
            assert(out@.map_values(|n: String| n@).to_multiset().add(im.to_multiset()) =~= om.to_multiset().add(
                before_in.map_values(|n: String| n@).to_multiset(),
            ));
        }
    }
    assert(input@.map_values(|n: String| n@) =~= Seq::<Seq<char>>::empty());
    assert(input@.map_values(|n: String| n@).to_multiset() =~= Multiset::<Seq<char>>::empty()) by {
        assert(input@.map_values(|n: String| n@).to_multiset().len() == 0);
    }
    assert(out@.map_values(|n: String| n@).to_multiset() =~= orig.to_multiset());
    out
}

/// The arrow keys move the cursor and keep the text: left and right by one
/// character where there is one, up to the start and down to the end; left
/// right after right, and right right after left, give the cursor back.
pub proof fn lemma_arrows_move_cursor(v: TextBoxView, m: KeyMod, m2: KeyMod)
    requires
        v.cursor <= v.text.len(),
    ensures
        ({
            let right = textbox_event(v, EventView::KeyDown(Keycode::Right, m)).0;
            let left = textbox_event(v, EventView::KeyDown(Keycode::Left, m)).0;
            let up = textbox_event(v, EventView::KeyDown(Keycode::Up, m)).0;
            let down = textbox_event(v, EventView::KeyDown(Keycode::Down, m)).0;
            &&& right.text == v.text && left.text == v.text && up.text == v.text && down.text == v.text
            &&& right.cursor == (if v.cursor < v.text.len() { v.cursor + 1 } else { v.cursor })
            &&& left.cursor == (if v.cursor > 0 { v.cursor - 1 } else { v.cursor as int })
            &&& up.cursor == 0
            &&& down.cursor == v.text.len()
            &&& v.cursor < v.text.len() ==> textbox_event(right, EventView::KeyDown(Keycode::Left, m2)).0.cursor == v.cursor
            &&& v.cursor > 0 ==> textbox_event(left, EventView::KeyDown(Keycode::Right, m2)).0.cursor == v.cursor
        }),
{
}


/// Typed text goes in at the cursor, which moves past it; backspace without
/// alt deletes just the character before the cursor; backspace with alt
/// deletes the end of the path before the cursor back to the slash before
/// its last name (or to the start), keeping that slash. The text after the
/// cursor stays in every case.
pub proof fn lemma_typing_and_backspace(v: TextBoxView, input: Seq<char>, m: KeyMod)
    requires
        v.cursor <= v.text.len(),
    ensures
        ({
            let head = v.text.subrange(0, v.cursor as int);
            let tail = v.text.subrange(v.cursor as int, v.text.len() as int);
            let typed = textbox_event(v, EventView::TextInput(input)).0;
            let erased = textbox_event(v, EventView::KeyDown(Keycode::Backspace, m)).0;
            &&& typed.text == head + input + tail
            &&& typed.cursor == v.cursor + input.len()
            &&& v.cursor == 0 ==> erased == v
            &&& v.cursor > 0 && m.bits != ALT_BIT ==> erased.text == v.text.remove(v.cursor - 1) && erased.cursor == v.cursor - 1
            &&& v.cursor > 0 && m.bits == ALT_BIT ==> {
                &&& erased.cursor < v.cursor
                &&& erased.text == head.subrange(0, erased.cursor as int) + tail
                &&& erased.cursor == 0 || head[erased.cursor - 1] == '/'
            }
        }),
{
    let head = v.text.subrange(0, v.cursor as int);
    let tail = v.text.subrange(v.cursor as int, v.text.len() as int);
    if v.cursor > 0 {
        if m.bits == ALT_BIT {
            let a = strip_trailing(head, true);
            let k = strip_trailing(a, false);
            lemma_strip_trailing_prefix(head, true);
            lemma_strip_trailing_prefix(a, false);
            lemma_strip_trailing_names_end(a);
            if a.len() == head.len() {
                if head.last() == '/' {
                    lemma_strip_trailing_prefix(head.drop_last(), true);
                }
                assert(k.len() < a.len());
            }
            assert(k =~= head.subrange(0, k.len() as int));
        } else {
            assert(head.drop_last() + tail =~= v.text.remove(v.cursor - 1));
        }
    }
}

/// Stripping characters from the end leaves a prefix.
proof fn lemma_strip_trailing_prefix(s: Seq<char>, slash: bool)
    ensures
        strip_trailing(s, slash).len() <= s.len(),
        strip_trailing(s, slash) =~= s.subrange(0, strip_trailing(s, slash).len() as int),
    decreases s.len(),
{
    if s.len() > 0 && ((s.last() == '/') == slash) {
        lemma_strip_trailing_prefix(s.drop_last(), slash);
    }
}

/// Stripping the name at the end leaves nothing, or a slash at the end; it
/// strips at least the last character when that is no slash.
proof fn lemma_strip_trailing_names_end(s: Seq<char>)
    ensures
        strip_trailing(s, false).len() == 0 || strip_trailing(s, false).last() == '/',
        s.len() > 0 && s.last() != '/' ==> strip_trailing(s, false).len() < s.len(),
    decreases s.len(),
{
    if s.len() > 0 && s.last() != '/' {
        lemma_strip_trailing_names_end(s.drop_last());
        lemma_strip_trailing_prefix(s.drop_last(), false);
    }
}

} // verus!
