//! The editor's window: the keyboard shortcuts, what each mode of the text
//! box does with the text it is given, and the order in which the elements
//! see an event.

use crate::element::{Action, Value};
use crate::event::{Event, EventView, KeyMod, Keycode, COMMAND_BIT, SHIFT_BIT};
use crate::geometry::clamp_size;
use crate::image::{Color, Rgba};
use crate::paint::{canvas_event, canvas_event_ok, CanvasView, ImageCanvas};
use crate::state::{EditorState, StateView};
use crate::util::{
    hex_byte, is_digit, lemma_decimal_lacks, lemma_parse_decimal, lemma_parse_signed_decimal, lemma_signed_decimal_lacks,
    lemma_split_on_join, lemma_split_on_whole, upper_hex_digit, chars_of, decimal, format_decimal, format_signed_decimal, hex_digit_value, hex_digit_value_exec, parse_i16, parse_i32,
    parse_signed, parse_u32, parse_unsigned, signed_decimal, split_chars, split_on, string_of_chars,
};
use crate::view::menu::{ignored, menu_shortcut, MenuAction};
use crate::view::mirrors::{mirrors_event, Mirrors};
use crate::view::palette::{palette_step_fits, palette_view_event, PaletteAction, PaletteView};
use crate::view::scrollbar::{fits_i32, scrollbar_event, ImagesScrollbar};
use crate::view::textbox::{answer_view, modal_event, rgba_text, Mode, ModalTextBox, ModalView};
use crate::view::tiles::TileView;
use crate::view::toolbox::{redrawn_and_stopped, toolbox_event, Toolbox};
use vstd::prelude::*;

verus! {

//---------------------------------------------------------------------------//
// Reading the text of a mode.

/// The two sides of `text` around its only `x`, as unsigned 32-bit numbers.
pub open spec fn resize_dims(text: Seq<char>) -> Option<(nat, nat)> {
    let pieces = split_on(text, 'x');
    if pieces.len() != 2 {
        None
    } else {
        match (parse_unsigned(pieces[0], u32::MAX as nat), parse_unsigned(pieces[1], u32::MAX as nat)) {
            (Some(w), Some(h)) => Some((w, h)),
            _ => None,
        }
    }
}

/// The pieces, each read as an `i16`, if every one can be.
pub open spec fn parse_all_i16(pieces: Seq<Seq<char>>) -> Option<Seq<i16>>
    decreases pieces.len(),
{
    if pieces.len() == 0 {
        Some(Seq::empty())
    } else {
        match (parse_all_i16(pieces.drop_last()), parse_signed(pieces.last(), i16::MIN as int, i16::MAX as int)) {
            (Some(vs), Some(v)) => Some(vs.push(v as i16)),
            _ => None,
        }
    }
}

/// The metadata that `text` writes: nothing for an empty text, otherwise
/// `i16` values separated by commas.
pub open spec fn metadata_values(text: Seq<char>) -> Option<Seq<i16>> {
    if text.len() == 0 {
        Some(Seq::empty())
    } else {
        parse_all_i16(split_on(text, ','))
    }
}

/// The baseline and the left and right edges that `text` writes: three
/// `i32` values separated by slashes.
pub open spec fn metrics_values(text: Seq<char>) -> Option<(int, int, int)> {
    let pieces = split_on(text, '/');
    if pieces.len() != 3 {
        None
    } else {
        let range = |p: Seq<char>| parse_signed(p, i32::MIN as int, i32::MAX as int);
        match (range(pieces[0]), range(pieces[1]), range(pieces[2])) {
            (Some(b), Some(l), Some(r)) => Some((b, l, r)),
            _ => None,
        }
    }
}

/// The byte that two hexadecimal digits write.
pub open spec fn hex_pair(a: char, b: char) -> Option<u8> {
    match (hex_digit_value(a), hex_digit_value(b)) {
        (Some(x), Some(y)) => Some((16 * x + y) as u8),
        _ => None,
    }
}

/// The color that eight hexadecimal digits write: red, green, blue, alpha.
pub open spec fn rgba_value(text: Seq<char>) -> Option<Rgba> {
    if text.len() != 8 {
        None
    } else {
        match (hex_pair(text[0], text[1]), hex_pair(text[2], text[3]), hex_pair(text[4], text[5]), hex_pair(text[6], text[7])) {
            (Some(r), Some(g), Some(b), Some(a)) => Some((r, g, b, a)),
            _ => None,
        }
    }
}

/// Reads a piece as text, then as a number with `parse`.
fn piece_text(piece: &Vec<char>) -> (s: String)
    ensures
        s@ == piece@,
{
    string_of_chars(piece)
}

/// Reads `WIDTHxHEIGHT`.
pub fn parse_resize(text: &str) -> (r: Option<(u32, u32)>)
    ensures
        match resize_dims(text@) {
            Some((w, h)) => r matches Some((a, b)) && a == w && b == h,
            None => r is None,
        },
{
    let pieces = split_chars(&chars_of(text), 'x');
    let ghost ps = pieces@.map_values(|p: Vec<char>| p@);
    if pieces.len() != 2 {
        return None;
    }
    assert(ps[0] == pieces@[0]@ && ps[1] == pieces@[1]@);
    let width = match parse_u32(piece_text(&pieces[0]).as_str()) {
        Some(width) => width,
        None => return None,
    };
    let height = match parse_u32(piece_text(&pieces[1]).as_str()) {
        Some(height) => height,
        None => return None,
    };
    Some((width, height))
}

/// Reads metadata: `i16` values separated by commas.
pub fn parse_metadata(text: &str) -> (r: Option<Vec<i16>>)
    ensures
        match metadata_values(text@) {
            Some(vs) => r matches Some(v) && v@ == vs,
            None => r is None,
        },
{
    let chars = chars_of(text);
    if chars.len() == 0 {
        return Some(Vec::new());
    }
    let pieces = split_chars(&chars, ',');
    let ghost ps = pieces@.map_values(|p: Vec<char>| p@);
    let mut values: Vec<i16> = Vec::new();
    for i in 0..pieces.len()
        invariant
            ps == pieces@.map_values(|p: Vec<char>| p@),
            ps == split_on(text@, ','),
            text@.len() > 0,
            parse_all_i16(ps.subrange(0, i as int)) == Some(values@),
    {
        proof {
            assert(ps.subrange(0, i + 1).drop_last() =~= ps.subrange(0, i as int));
            assert(ps.subrange(0, i + 1).last() == pieces@[i as int]@);
        }
        let piece = piece_text(&pieces[i]);
        match parse_i16(piece.as_str()) {
            Some(v) => values.push(v),
            None => {
                proof {
                    assert(piece@ == ps.subrange(0, i + 1).last());
                    assert(parse_signed(ps.subrange(0, i + 1).last(), i16::MIN as int, i16::MAX as int) is None);
                    assert(parse_all_i16(ps.subrange(0, i + 1)) is None);
                    lemma_parse_all_fails_later(ps, i as int + 1);
                }
                return None;
            },
        }
    }
    assert(ps.subrange(0, pieces@.len() as int) =~= ps);
    Some(values)
}

/// Once a prefix of the pieces fails to read, so does every longer one.
proof fn lemma_parse_all_fails_later(ps: Seq<Seq<char>>, k: int)
    requires
        0 <= k <= ps.len(),
        parse_all_i16(ps.subrange(0, k)) is None,
    ensures
        parse_all_i16(ps) is None,
    decreases ps.len() - k,
{
    if k < ps.len() {
        assert(ps.subrange(0, k + 1).drop_last() =~= ps.subrange(0, k));
        lemma_parse_all_fails_later(ps, k + 1);
    } else {
        assert(ps.subrange(0, k) =~= ps);
    }
}

/// Reads metrics: three `i32` values separated by slashes.
pub fn parse_metrics(text: &str) -> (r: Option<(i32, i32, i32)>)
    ensures
        match metrics_values(text@) {
            Some((b, l, rr)) => r matches Some((x, y, z)) && x == b && y == l && z == rr,
            None => r is None,
        },
{
    let pieces = split_chars(&chars_of(text), '/');
    let ghost ps = pieces@.map_values(|p: Vec<char>| p@);
    if pieces.len() != 3 {
        return None;
    }
    assert(ps[0] == pieces@[0]@ && ps[1] == pieces@[1]@ && ps[2] == pieces@[2]@);
    let baseline = match parse_i32(piece_text(&pieces[0]).as_str()) {
        Some(v) => v,
        None => return None,
    };
    let left_edge = match parse_i32(piece_text(&pieces[1]).as_str()) {
        Some(v) => v,
        None => return None,
    };
    let right_edge = match parse_i32(piece_text(&pieces[2]).as_str()) {
        Some(v) => v,
        None => return None,
    };
    Some((baseline, left_edge, right_edge))
}

fn hex_pair_exec(a: char, b: char) -> (r: Option<u8>)
    ensures
        match hex_pair(a, b) {
            Some(v) => r == Some(v),
            None => r is None,
        },
{
    match (hex_digit_value_exec(a), hex_digit_value_exec(b)) {
        (Some(x), Some(y)) => Some(16 * x + y),
        _ => None,
    }
}

/// Reads a color: eight hexadecimal digits for red, green, blue and alpha.
pub fn parse_rgba(text: &str) -> (r: Option<Rgba>)
    ensures
        match rgba_value(text@) {
            Some(c) => r == Some(c),
            None => r is None,
        },
{
    let cs = chars_of(text);
    if cs.len() != 8 {
        return None;
    }
    match (
        hex_pair_exec(cs[0], cs[1]),
        hex_pair_exec(cs[2], cs[3]),
        hex_pair_exec(cs[4], cs[5]),
        hex_pair_exec(cs[6], cs[7]),
    ) {
        (Some(r), Some(g), Some(b), Some(a)) => Some((r, g, b, a)),
        _ => None,
    }
}

//---------------------------------------------------------------------------//
// Performing a mode.

/// What is left to do after the text of a mode was given: nothing but to
/// say whether it worked, or to read or write a file at the given path.
pub enum ModeOutcome {
    Finished(bool),
    LoadFile(String),
    SaveAs(String),
    Export(String),
}

pub ghost enum OutcomeView {
    Finished(bool),
    LoadFile(Seq<char>),
    SaveAs(Seq<char>),
    Export(Seq<char>),
}

impl View for ModeOutcome {
    type V = OutcomeView;

    open spec fn view(&self) -> OutcomeView {
        match self {
            ModeOutcome::Finished(b) => OutcomeView::Finished(*b),
            ModeOutcome::LoadFile(p) => OutcomeView::LoadFile(p@),
            ModeOutcome::SaveAs(p) => OutcomeView::SaveAs(p@),
            ModeOutcome::Export(p) => OutcomeView::Export(p@),
        }
    }
}

/// The state after the text `text` was given in `mode`, and what is left to
/// do. Going to an image, adding a glyph of the one character typed,
/// resizing to `WxH`, setting a palette color from eight hexadecimal digits,
/// metadata from `i16` values separated by commas, metrics from three `i32`
/// values separated by slashes, or the tag, each in a mutation, say whether
/// they worked; the test sentence is set as typed. Loading, saving and
/// exporting are left to do with the path.
pub open spec fn mode_performed(s: StateView, mode: Mode, text: Seq<char>) -> (StateView, OutcomeView) {
    match mode {
        Mode::Edit => (s, OutcomeView::Finished(false)),
        Mode::Goto => {
            let (t, b) = s.gone_to(text);
            (t, OutcomeView::Finished(b))
        },
        Mode::LoadFile => (s, OutcomeView::LoadFile(text)),
        Mode::NewGlyph => if text.len() == 1 {
            let (t, b) = s.mutation_begun().image_added(text[0]);
            (t, OutcomeView::Finished(b))
        } else {
            (s, OutcomeView::Finished(false))
        },
        Mode::Resize => match resize_dims(text) {
            Some((w, h)) => (s.mutation_begun().resized(w, h), OutcomeView::Finished(true)),
            None => (s, OutcomeView::Finished(false)),
        },
        Mode::SaveAs => (s, OutcomeView::SaveAs(text)),
        Mode::Export => (s, OutcomeView::Export(text)),
        Mode::SetColor(color) => match rgba_value(text) {
            Some(rgba) => {
                let (t, b) = s.mutation_begun().palette_color_set(color, rgba);
                (t, OutcomeView::Finished(b))
            },
            None => (s, OutcomeView::Finished(false)),
        },
        Mode::SetGrid => (s, OutcomeView::Finished(false)),
        Mode::SetMetadata => match metadata_values(text) {
            Some(vs) => (s.mutation_begun().metadata_set(vs), OutcomeView::Finished(true)),
            None => (s, OutcomeView::Finished(false)),
        },
        Mode::SetMetrics => match metrics_values(text) {
            Some((b, l, r)) => (s.mutation_begun().metrics_set(b, l, r), OutcomeView::Finished(true)),
            None => (s, OutcomeView::Finished(false)),
        },
        Mode::SetTag => (s.mutation_begun().tag_set(text), OutcomeView::Finished(true)),
        Mode::TestSentence => (StateView { test_sentence: text, ..s }, OutcomeView::Finished(true)),
    }
}

/// A glyph can be added for the image being edited: its width, one more,
/// fits `i32`.
pub open spec fn glyph_fits(s: StateView) -> bool {
    s.current.data is Ahf ==> s.unselected().image().width < i32::MAX
}

/// Does what the text `text` given in `mode` asks: see `mode_performed`.
pub fn mode_perform(state: &mut EditorState, mode: Mode, text: String) -> (r: ModeOutcome)
    requires
        old(state).wf(),
        mode == Mode::NewGlyph ==> glyph_fits(old(state)@),
    ensures
        final(state).wf(),
        (final(state)@, r@) == mode_performed(old(state)@, mode, text@),
{
    match mode {
        Mode::Edit => ModeOutcome::Finished(false),
        Mode::Goto => ModeOutcome::Finished(state.go_to(text.as_str())),
        Mode::LoadFile => ModeOutcome::LoadFile(text),
        Mode::NewGlyph => {
            let chars = chars_of(text.as_str());
            if chars.len() == 1 {
                ModeOutcome::Finished(state.mutation().add_new_image(chars[0]))
            } else {
                ModeOutcome::Finished(false)
            }
        },
        Mode::Resize => match parse_resize(text.as_str()) {
            Some((new_width, new_height)) => {
                state.mutation().resize_images(new_width, new_height);
                ModeOutcome::Finished(true)
            },
            None => ModeOutcome::Finished(false),
        },
        Mode::SaveAs => ModeOutcome::SaveAs(text),
        Mode::Export => ModeOutcome::Export(text),
        Mode::SetColor(color) => match parse_rgba(text.as_str()) {
            Some(rgba) => ModeOutcome::Finished(state.mutation().set_palette_color(color, rgba)),
            None => ModeOutcome::Finished(false),
        },
        Mode::SetGrid => ModeOutcome::Finished(false),
        Mode::SetMetadata => match parse_metadata(text.as_str()) {
            Some(metadata) => {
                state.mutation().set_metadata(metadata);
                ModeOutcome::Finished(true)
            },
            None => ModeOutcome::Finished(false),
        },
        Mode::SetMetrics => match parse_metrics(text.as_str()) {
            Some((baseline, left_edge, right_edge)) => {
                state.mutation().set_metrics(baseline, left_edge, right_edge);
                ModeOutcome::Finished(true)
            },
            None => ModeOutcome::Finished(false),
        },
        Mode::SetTag => {
            state.mutation().set_tag(text);
            ModeOutcome::Finished(true)
        },
        Mode::TestSentence => {
            state.set_test_sentence(text);
            ModeOutcome::Finished(true)
        },
    }
}

//---------------------------------------------------------------------------//
// The texts with which modes begin.

/// The values written in decimal and separated by commas.
pub open spec fn joined_decimals(vs: Seq<i16>) -> Seq<char>
    decreases vs.len(),
{
    if vs.len() == 0 {
        Seq::empty()
    } else if vs.len() == 1 {
        signed_decimal(vs[0] as int)
    } else {
        joined_decimals(vs.drop_last()) + seq![','] + signed_decimal(vs.last() as int)
    }
}

/// `WIDTHxHEIGHT`, in decimal.
pub open spec fn size_text(w: nat, h: nat) -> Seq<char> {
    decimal(w) + seq!['x'] + decimal(h)
}

/// `BASELINE/LEFT/RIGHT`, in decimal.
pub open spec fn metrics_text(b: int, l: int, r: int) -> Seq<char> {
    signed_decimal(b) + seq!['/'] + signed_decimal(l) + seq!['/'] + signed_decimal(r)
}

fn chars_of_string(s: &String) -> (cs: Vec<char>)
    ensures
        cs@ == s@,
{
    chars_of(s.as_str())
}

/// `vs` in decimal, separated by commas.
fn join_decimals(vs: &Vec<i16>) -> (s: String)
    ensures
        s@ == joined_decimals(vs@),
{
    let mut out: Vec<char> = Vec::new();
    for i in 0..vs.len()
        invariant
            out@ == joined_decimals(vs@.subrange(0, i as int)),
    {
        let ghost before = out@;
        if i > 0 {
            out.push(',');
        }
        let mut digits = chars_of_string(&format_signed_decimal(vs[i] as i64));
        out.append(&mut digits);
        proof {
            let pre = vs@.subrange(0, i + 1);
            assert(pre.drop_last() =~= vs@.subrange(0, i as int));
            if i == 0 {
                assert(out@ =~= joined_decimals(pre));
            } else {
                assert(out@ =~= joined_decimals(pre));
            }
        }
    }
    assert(vs@.subrange(0, vs@.len() as int) =~= vs@);
    string_of_chars(&out)
}

/// The modal text box entering `mode` with `text`, when it is in edit mode;
/// the selection is put down first.
pub open spec fn mode_begun(m: ModalView, s: StateView, mode: Mode, text: Seq<char>) -> (ModalView, StateView, bool) {
    if m.mode == Mode::Edit {
        (
            ModalView { mode, text: crate::view::textbox::TextBoxView { text, cursor: text.len(), blink: 0 }, matches: Seq::empty(), ..m },
            s.unselected_if_necessary(),
            true,
        )
    } else {
        (m, s, false)
    }
}

/// `begin_new_image`: a font asks for the character of the new glyph; a
/// collection gets a new image at once, in a mutation.
pub open spec fn new_image_begun(m: ModalView, s: StateView) -> (ModalView, StateView, bool) {
    if s.current.data is Ahf {
        mode_begun(m, s, Mode::NewGlyph, Seq::empty())
    } else {
        let (t, added) = s.mutation_begun().image_added('_');
        (m, t, added)
    }
}

/// `begin_set_metrics`: a font asks for its baseline and the edges of the
/// glyph being edited, written as they are.
pub open spec fn metrics_begun(m: ModalView, s: StateView) -> (ModalView, StateView, bool) {
    match s.current.data {
        crate::state::DataView::Ahf { current_char, font } => {
            let g = match current_char {
                Some(c) => font.glyph(c),
                None => font.default_glyph,
            };
            mode_begun(
                m,
                s,
                Mode::SetMetrics,
                metrics_text((font.baseline as i32) as int, (g.left_edge as i32) as int, (g.right_edge as i32) as int),
            )
        },
        crate::state::DataView::Ahi { .. } => (m, s, false),
    }
}

/// `begin_set_test_sentence`: a font in edit mode asks for the test
/// sentence, starting from the current one; the selection stays.
pub open spec fn test_sentence_begun(m: ModalView, s: StateView) -> (ModalView, StateView, bool) {
    if m.mode == Mode::Edit && s.current.data is Ahf {
        (
            ModalView {
                mode: Mode::TestSentence,
                text: crate::view::textbox::TextBoxView { text: s.test_sentence, cursor: s.test_sentence.len(), blink: 0 },
                matches: Seq::empty(),
                ..m
            },
            s,
            true,
        )
    } else {
        (m, s, false)
    }
}

/// `begin_set_color`: asks for the RGBA digits of a color of the palette in
/// use, starting from its current entry.
pub open spec fn color_begun(m: ModalView, s: StateView, color: Color) -> (ModalView, StateView, bool) {
    mode_begun(m, s, Mode::SetColor(color), rgba_text(s.current.data.palette()[crate::image::color_code(color) as int]))
}

/// A keyboard shortcut of the editor.
#[derive(Clone, Copy, Debug, PartialEq, Eq, Structural)]
pub enum Shortcut {
    DeleteImage,
    SelectAll,
    SetMetrics,
    CopySelection,
    Goto,
    FlipHorz,
    RotateLeft,
    SetMetadata,
    NewImage,
    LoadFile,
    Resize,
    RotateRight,
    Save,
    SaveAs,
    SetTag,
    SetTestSentence,
    PasteSelection,
    FlipVert,
    CutSelection,
    Undo,
    Redo,
    Scale2x,
}

/// The selection, or the image when nothing is selected, can be scaled up
/// twice within `i32`.
pub open spec fn scale_fits(s: StateView) -> bool {
    match s.current.selection {
        Some((img, _)) => img.width * 2 <= i32::MAX && img.height * 2 <= i32::MAX,
        None => s.image().width * 2 <= i32::MAX && s.image().height * 2 <= i32::MAX,
    }
}

/// The bits of the command and shift keys held together.
pub const COMMAND_SHIFT: u8 = 0x5;

/// The shortcut of a key pressed with the modifiers `m`, if it is one: with
/// command alone, or with command and shift.
pub open spec fn shortcut_for(key: Keycode, m: KeyMod) -> Option<Shortcut> {
    let c = m.bits == COMMAND_BIT;
    let cs = m.bits == COMMAND_SHIFT;
    match key {
        Keycode::Backspace => if c { Some(Shortcut::DeleteImage) } else { None },
        Keycode::A => if c { Some(Shortcut::SelectAll) } else { None },
        Keycode::B => if cs { Some(Shortcut::SetMetrics) } else { None },
        Keycode::C => if c { Some(Shortcut::CopySelection) } else { None },
        Keycode::G => if c { Some(Shortcut::Goto) } else { None },
        Keycode::H => if cs { Some(Shortcut::FlipHorz) } else { None },
        Keycode::L => if cs { Some(Shortcut::RotateLeft) } else { None },
        Keycode::M => if cs { Some(Shortcut::SetMetadata) } else { None },
        Keycode::N => if c { Some(Shortcut::NewImage) } else { None },
        Keycode::O => if c { Some(Shortcut::LoadFile) } else { None },
        Keycode::R => if c {
            Some(Shortcut::Resize)
        } else if cs {
            Some(Shortcut::RotateRight)
        } else {
            None
        },
        Keycode::S => if c {
            Some(Shortcut::Save)
        } else if cs {
            Some(Shortcut::SaveAs)
        } else {
            None
        },
        Keycode::T => if c {
            Some(Shortcut::SetTag)
        } else if cs {
            Some(Shortcut::SetTestSentence)
        } else {
            None
        },
        Keycode::V => if c {
            Some(Shortcut::PasteSelection)
        } else if cs {
            Some(Shortcut::FlipVert)
        } else {
            None
        },
        Keycode::X => if c { Some(Shortcut::CutSelection) } else { None },
        Keycode::Z => if c {
            Some(Shortcut::Undo)
        } else if cs {
            Some(Shortcut::Redo)
        } else {
            None
        },
        Keycode::Num2 => if cs { Some(Shortcut::Scale2x) } else { None },
        _ => None,
    }
}

/// The shortcut of a key, if it is one: see `shortcut_for`.
pub fn shortcut(key: Keycode, kmod: KeyMod) -> (r: Option<Shortcut>)
    ensures
        r == shortcut_for(key, kmod),
{
    let c = kmod.bits == COMMAND_BIT;
    let cs = kmod.bits == COMMAND_SHIFT;
    match key {
        Keycode::Backspace => if c { Some(Shortcut::DeleteImage) } else { None },
        Keycode::A => if c { Some(Shortcut::SelectAll) } else { None },
        Keycode::B => if cs { Some(Shortcut::SetMetrics) } else { None },
        Keycode::C => if c { Some(Shortcut::CopySelection) } else { None },
        Keycode::G => if c { Some(Shortcut::Goto) } else { None },
        Keycode::H => if cs { Some(Shortcut::FlipHorz) } else { None },
        Keycode::L => if cs { Some(Shortcut::RotateLeft) } else { None },
        Keycode::M => if cs { Some(Shortcut::SetMetadata) } else { None },
        Keycode::N => if c { Some(Shortcut::NewImage) } else { None },
        Keycode::O => if c { Some(Shortcut::LoadFile) } else { None },
        Keycode::R => if c {
            Some(Shortcut::Resize)
        } else if cs {
            Some(Shortcut::RotateRight)
        } else {
            None
        },
        Keycode::S => if c {
            Some(Shortcut::Save)
        } else if cs {
            Some(Shortcut::SaveAs)
        } else {
            None
        },
        Keycode::T => if c {
            Some(Shortcut::SetTag)
        } else if cs {
            Some(Shortcut::SetTestSentence)
        } else {
            None
        },
        Keycode::V => if c {
            Some(Shortcut::PasteSelection)
        } else if cs {
            Some(Shortcut::FlipVert)
        } else {
            None
        },
        Keycode::X => if c { Some(Shortcut::CutSelection) } else { None },
        Keycode::Z => if c {
            Some(Shortcut::Undo)
        } else if cs {
            Some(Shortcut::Redo)
        } else {
            None
        },
        Keycode::Num2 => if cs { Some(Shortcut::Scale2x) } else { None },
        _ => None,
    }
}

/// An answer that redraws when `redraw` holds and stops the event.
pub open spec fn stopped(redraw: bool) -> Action<()> {
    Action { redraw, value: Value::Stop }
}

/// The modal text box, the state and the answer after the shortcut `sc`:
/// each editing shortcut acts in a mutation and redraws (a copy does not
/// redraw); the others begin a mode and redraw when they do; undo and redo
/// redraw when there was something to undo or redo; saving is left to do.
pub open spec fn shortcut_done(m: ModalView, s: StateView, sc: Shortcut) -> (ModalView, StateView, Action<()>) {
    let b = s.mutation_begun();
    let begun = |r: (ModalView, StateView, bool)| (r.0, r.1, stopped(r.2));
    match sc {
        Shortcut::DeleteImage => {
            let (t, deleted) = b.image_deleted();
            (m, t, stopped(deleted))
        },
        Shortcut::SelectAll => (
            m,
            b.rect_selected((0, 0, clamp_size(b.image().width as int), clamp_size(b.image().height as int))),
            stopped(true),
        ),
        Shortcut::SetMetrics => begun(metrics_begun(m, s)),
        Shortcut::CopySelection => (m, b.selection_copied(), stopped(false)),
        Shortcut::Goto => begun(mode_begun(m, s, Mode::Goto, Seq::empty())),
        Shortcut::FlipHorz => (m, b.selection_flipped_horz(), stopped(true)),
        Shortcut::RotateLeft => (m, b.selection_rotated_ccw(), stopped(true)),
        Shortcut::SetMetadata => begun(mode_begun(m, s, Mode::SetMetadata, joined_decimals(s.image().metadata))),
        Shortcut::NewImage => begun(new_image_begun(m, s)),
        Shortcut::LoadFile => begun(mode_begun(m, s, Mode::LoadFile, s.filepath)),
        Shortcut::Resize => begun(mode_begun(m, s, Mode::Resize, size_text(s.image().width, s.image().height))),
        Shortcut::RotateRight => (m, b.selection_rotated_cw(), stopped(true)),
        Shortcut::Save => (m, s, stopped(true)),
        Shortcut::SaveAs => begun(mode_begun(m, s, Mode::SaveAs, s.filepath)),
        Shortcut::SetTag => begun(mode_begun(m, s, Mode::SetTag, s.image().tag)),
        Shortcut::SetTestSentence => begun(test_sentence_begun(m, s)),
        Shortcut::PasteSelection => (m, b.selection_pasted(), stopped(true)),
        Shortcut::FlipVert => (m, b.selection_flipped_vert(), stopped(true)),
        Shortcut::CutSelection => (m, b.selection_cut(), stopped(true)),
        Shortcut::Undo => (m, s.undone(), stopped(s.undo_stack.len() > 0)),
        Shortcut::Redo => (m, s.redone(), stopped(s.redo_stack.len() > 0)),
        Shortcut::Scale2x => if scale_fits(s) {
            (m, b.selection_scaled_2x(), stopped(true))
        } else {
            (m, s, stopped(false))
        },
    }
}

/// What the editor leaves to do outside the library after an event: save
/// the document, or load, save as or export at a path, then tell the
/// editor whether it worked (see `EditorView::request_done`).
pub enum EditorRequest {
    Save,
    LoadFile(String),
    SaveAs(String),
    Export(String),
}

pub ghost enum RequestView {
    Save,
    LoadFile(Seq<char>),
    SaveAs(Seq<char>),
    Export(Seq<char>),
}

impl View for EditorRequest {
    type V = RequestView;

    open spec fn view(&self) -> RequestView {
        match self {
            EditorRequest::Save => RequestView::Save,
            EditorRequest::LoadFile(p) => RequestView::LoadFile(p@),
            EditorRequest::SaveAs(p) => RequestView::SaveAs(p@),
            EditorRequest::Export(p) => RequestView::Export(p@),
        }
    }
}

pub open spec fn request_view(r: Option<EditorRequest>) -> Option<RequestView> {
    match r {
        Some(q) => Some(q@),
        None => None,
    }
}

/// The palette and the scrollbar can step through the palettes and the
/// images without leaving `i32`.
pub open spec fn palette_fits(s: StateView) -> bool {
    palette_step_fits(s, -1) && palette_step_fits(s, 1)
}

pub open spec fn scrollbar_fits(s: StateView) -> bool {
    fits_i32(s, -2) && fits_i32(s, 3)
}

/// The parts of the window that an event can change besides the modal text
/// box: the color pickers' counters and the two canvases.
pub ghost struct Parts {
    pub counters: Seq<int>,
    pub canvas: CanvasView,
    pub preview: CanvasView,
}

/// The parts, the modal text box, the state and the answer after the
/// elements of the window `v` see `e` in turn, until one stops it: the
/// palette (a request to edit a color begins the color mode), the toolbox,
/// the mirror pickers, the scrollbar, the canvas and the small canvas (the
/// tiles take no event). An element that could not take the event without
/// leaving `i32` or dividing by zero lets it go by.
pub open spec fn aggregate_event(v: EditorView, m: ModalView, s: StateView, e: EventView) -> (Parts, ModalView, StateView, Action<()>) {
    let pal = v.palette();
    let (cs, s1, pa) = if palette_fits(s) {
        palette_view_event(pal.rect(), pal.colors(), pal.left_rect(), pal.add_rect(), pal.delete_rect(), pal.right_rect(), s, e)
    } else {
        (pal.colors().counters(), s, ignored::<PaletteAction>())
    };
    let (m1, s1b) = match pa.value {
        Value::Return(PaletteAction::EditColor(c)) => {
            let (m2, t, _) = color_begun(m, s1, c);
            (m2, t)
        },
        _ => (m, s1),
    };
    let a1 = crate::view::textbox::no_value::<PaletteAction, ()>(pa);
    let c0 = v.canvas()@;
    let p0 = v.preview()@;
    if a1.stops() {
        (Parts { counters: cs, canvas: c0, preview: p0 }, m1, s1b, a1)
    } else {
        let tb = v.toolbox();
        let (s2, ta) = toolbox_event(tb.rect(), tb.picker_rects(), tb.picker_keys(), tb.picker_tools(), s1b, e);
        let a2 = crate::view::menu::merged_action(a1, ta);
        if a2.stops() {
            (Parts { counters: cs, canvas: c0, preview: p0 }, m1, s2, a2)
        } else {
            let mi = v.mirrors();
            let (s3, ma) = mirrors_event(mi.rect(), mi.picker_rects(), mi.picker_mirrors(), s2, e);
            let a3 = crate::view::menu::merged_action(a2, ma);
            if a3.stops() {
                (Parts { counters: cs, canvas: c0, preview: p0 }, m1, s3, a3)
            } else {
                let sb = v.scrollbar();
                let (s4, sa) = if scrollbar_fits(s3) {
                    scrollbar_event(sb.rect(), sb.up_rect(), sb.picker_rects(), sb.picker_deltas(), sb.down_rect(), s3, e)
                } else {
                    (s3, ignored::<()>())
                };
                let a4 = crate::view::menu::merged_action(a3, sa);
                if a4.stops() {
                    (Parts { counters: cs, canvas: c0, preview: p0 }, m1, s4, a4)
                } else {
                    let (c1, s5, ca) = if canvas_event_ok(c0, s4, e) {
                        canvas_event(c0, s4, e)
                    } else {
                        (c0, s4, ignored::<()>())
                    };
                    let a5 = crate::view::menu::merged_action(a4, ca);
                    if a5.stops() {
                        (Parts { counters: cs, canvas: c1, preview: p0 }, m1, s5, a5)
                    } else {
                        let (p1, s6, pa2) = if canvas_event_ok(p0, s5, e) {
                            canvas_event(p0, s5, e)
                        } else {
                            (p0, s5, ignored::<()>())
                        };
                        let a6 = crate::view::menu::merged_action(a5, pa2);
                        (Parts { counters: cs, canvas: c1, preview: p1 }, m1, s6, a6)
                    }
                }
            }
        }
    }
}

/// The modal text box `tb` sees `e`; the text it gives back is performed in
/// its mode (see `mode_performed`), and the mode ends with a redraw when that
/// worked; loading, saving and exporting are left to do. A new glyph whose
/// width would leave `i32` is not added.
pub open spec fn textbox_stage_event(tb: ModalTextBox, s: StateView, e: EventView) -> (ModalView, StateView, Action<()>, Option<RequestView>) {
    let (m1, ta) = modal_event(tb.textbox_rect(), tb.panel_rect(), tb.swatch_rects(), tb.swatch_colors(), tb.matches_corner(), tb@, e);
    match ta.value {
        Value::Return((mode, text)) => if mode == Mode::NewGlyph && !glyph_fits(s) {
            (m1, s, stopped(ta.redraw), None)
        } else {
            let (t, out) = mode_performed(s, mode, text);
            match out {
                OutcomeView::Finished(true) => (crate::view::textbox::cleared_view(m1), t, stopped(true), None),
                OutcomeView::Finished(false) => (m1, t, stopped(ta.redraw), None),
                OutcomeView::LoadFile(p) => (m1, t, stopped(ta.redraw), Some(RequestView::LoadFile(p))),
                OutcomeView::SaveAs(p) => (m1, t, stopped(ta.redraw), Some(RequestView::SaveAs(p))),
                OutcomeView::Export(p) => (m1, t, stopped(ta.redraw), Some(RequestView::Export(p))),
            }
        },
        _ => (m1, s, crate::view::textbox::no_value::<(Mode, Seq<char>), ()>(ta), None),
    }
}

/// The parts, the modal text box, the state, the answer and what is left to
/// do after `e` reaches the window `v`. A shortcut acts (see
/// `shortcut_done`). Otherwise the modal text box sees the event first; the
/// text it gives back is performed in its mode (see `mode_performed`), and
/// the mode ends with a redraw when that worked; loading, saving and
/// exporting are left to do. An event that goes on reaches the other
/// elements (see `aggregate_event`).
pub open spec fn editor_event(v: EditorView, s: StateView, e: EventView) -> (Parts, ModalView, StateView, Action<()>, Option<RequestView>) {
    let parts = Parts { counters: v.palette().colors().counters(), canvas: v.canvas()@, preview: v.preview()@ };
    let m0 = v.textbox()@;
    match e {
        EventView::KeyDown(key, kmod) if shortcut_for(key, kmod) is Some => {
            let sc = shortcut_for(key, kmod)->0;
            let (m, t, a) = shortcut_done(m0, s, sc);
            (parts, m, t, a, if sc == Shortcut::Save { Some(RequestView::Save) } else { None })
        },
        _ => {
            let (m2, s2, a2, req) = textbox_stage_event(v.textbox(), s, e);
            if a2.stops() {
                (parts, m2, s2, a2, req)
            } else {
                let (p3, m3, s3, a3) = aggregate_event(v, m2, s2, e);
                (p3, m3, s3, crate::view::menu::merged_action(a2, a3), req)
            }
        },
    }
}

/// The width of the editor's window, and its height.
pub const EDITOR_WIDTH: u32 = 480;

pub const EDITOR_HEIGHT: u32 = 320;

/// The editor's window: the modal text box and, in the order in which they
/// see an event, the palette, the toolbox, the mirror pickers, the images
/// scrollbar, the canvas, the small canvas beside it, and the tiles.
pub struct EditorView {
    textbox: ModalTextBox,
    palette: PaletteView,
    toolbox: Toolbox,
    mirrors: Mirrors,
    scrollbar: ImagesScrollbar,
    canvas: ImageCanvas,
    preview: ImageCanvas,
    tiles: TileView,
}

impl EditorView {
    pub closed spec fn textbox(&self) -> ModalTextBox {
        self.textbox
    }

    pub closed spec fn palette(&self) -> PaletteView {
        self.palette
    }

    pub closed spec fn toolbox(&self) -> Toolbox {
        self.toolbox
    }

    pub closed spec fn mirrors(&self) -> Mirrors {
        self.mirrors
    }

    pub closed spec fn scrollbar(&self) -> ImagesScrollbar {
        self.scrollbar
    }

    pub closed spec fn canvas(&self) -> ImageCanvas {
        self.canvas
    }

    pub closed spec fn tiles(&self) -> TileView {
        self.tiles
    }

    pub closed spec fn preview(&self) -> ImageCanvas {
        self.preview
    }

    pub open spec fn wf(&self) -> bool {
        &&& self.textbox().wf()
        &&& self.palette().wf()
        &&& self.scrollbar().wf()
    }

    /// The window with its parts in their places: the modal text box at
    /// the top, the palette, toolbox and mirror pickers on the left, the
    /// images scrollbar on the right, the canvas, and beside it a smaller
    /// canvas above the tiles.
    pub fn new() -> (v: EditorView)
        ensures
            v.wf(),
            v.textbox()@ == (ModalView {
                mode: Mode::Edit,
                text: crate::view::textbox::TextBoxView { text: Seq::empty(), cursor: 0, blink: 0 },
                matches: Seq::empty(),
                pending: None,
            }),
            v.textbox().corner() == (20int, 10int),
            v.palette().rect()@ == (3int, 188int, 72int, 108int),
            v.toolbox().rect()@ == (
                3int,
                34int,
                crate::view::toolbox::TOOLBOX_WIDTH as int,
                crate::view::toolbox::TOOLBOX_HEIGHT as int,
            ),
            v.mirrors().rect()@ == (
                3int,
                134int,
                crate::view::mirrors::MIRRORS_WIDTH as int,
                crate::view::mirrors::MIRRORS_HEIGHT as int,
            ),
            v.scrollbar().rect()@ == (440int, 34int, 38int, 266int),
            v.canvas()@ == (CanvasView { top_left: (80int, 36int), max_size: 256, drag: None, counter: 0 }),
            v.preview()@ == (CanvasView { top_left: (348int, 36int), max_size: 64, drag: None, counter: 0 }),
            v.tiles().rect()@ == (341int, 126int, 96int, 96int),
    {
        EditorView {
            textbox: ModalTextBox::new(20, 10),
            palette: PaletteView::new(3, 188),
            toolbox: Toolbox::new(3, 34),
            mirrors: Mirrors::new(3, 134),
            scrollbar: ImagesScrollbar::new(440, 34),
            canvas: ImageCanvas::new(80, 36, 256),
            preview: ImageCanvas::new(348, 36, 64),
            tiles: TileView::new(341, 126, 96, 96),
        }
    }

    /// The parts, for drawing.
    pub fn modal_textbox(&self) -> (t: &ModalTextBox)
        ensures
            *t == self.textbox(),
    {
        &self.textbox
    }

    pub fn palette_view(&self) -> (p: &PaletteView)
        ensures
            *p == self.palette(),
    {
        &self.palette
    }

    pub fn toolbox_view(&self) -> (t: &Toolbox)
        ensures
            *t == self.toolbox(),
    {
        &self.toolbox
    }

    pub fn mirrors_view(&self) -> (m: &Mirrors)
        ensures
            *m == self.mirrors(),
    {
        &self.mirrors
    }

    pub fn scrollbar_view(&self) -> (s: &ImagesScrollbar)
        ensures
            *s == self.scrollbar(),
    {
        &self.scrollbar
    }

    pub fn canvases(&self) -> (c: (&ImageCanvas, &ImageCanvas))
        ensures
            *c.0 == self.canvas(),
            *c.1 == self.preview(),
    {
        (&self.canvas, &self.preview)
    }

    pub fn tile_view(&self) -> (t: &TileView)
        ensures
            *t == self.tiles(),
    {
        &self.tiles
    }

    /// The parts other than the modal text box stay as they are.
    pub open spec fn same_but_textbox(&self, other: EditorView) -> bool {
        &&& self.palette() == other.palette()
        &&& self.toolbox() == other.toolbox()
        &&& self.mirrors() == other.mirrors()
        &&& self.scrollbar() == other.scrollbar()
        &&& self.canvas() == other.canvas()
        &&& self.preview() == other.preview()
    }

    /// Enters `mode` with `text`, when in edit mode, after putting down the
    /// selection; says whether it did.
    fn begin(&mut self, state: &mut EditorState, mode: Mode, text: String) -> (b: bool)
        requires
            old(self).wf(),
            old(state).wf(),
        ensures
            final(self).wf(),
            final(state).wf(),
            final(self).same_but_textbox(*old(self)),
            final(self).textbox().same_layout(old(self).textbox()),
            (final(self).textbox()@, final(state)@, b) == mode_begun(old(self).textbox()@, old(state)@, mode, text@),
    {
        if self.textbox.mode() == Mode::Edit {
            state.unselect_if_necessary();
            self.textbox.set_mode(mode, text);
            true
        } else {
            false
        }
    }

    /// Asks for the character of a new glyph in a font; adds an image to a
    /// collection at once.
    fn begin_new_image(&mut self, state: &mut EditorState) -> (b: bool)
        requires
            old(self).wf(),
            old(state).wf(),
        ensures
            final(self).wf(),
            final(state).wf(),
            final(self).same_but_textbox(*old(self)),
            final(self).textbox().same_layout(old(self).textbox()),
            (final(self).textbox()@, final(state)@, b) == new_image_begun(old(self).textbox()@, old(state)@),
    {
        if state.font().is_some() {
            self.begin(state, Mode::NewGlyph, String::new())
        } else {
            state.mutation().add_new_image('_')
        }
    }

    fn begin_goto(&mut self, state: &mut EditorState) -> (b: bool)
        requires
            old(self).wf(),
            old(state).wf(),
        ensures
            final(self).wf(),
            final(state).wf(),
            final(self).same_but_textbox(*old(self)),
            final(self).textbox().same_layout(old(self).textbox()),
            (final(self).textbox()@, final(state)@, b) == mode_begun(old(self).textbox()@, old(state)@, Mode::Goto, Seq::empty()),
    {
        self.begin(state, Mode::Goto, String::new())
    }

    fn begin_load_file(&mut self, state: &mut EditorState) -> (b: bool)
        requires
            old(self).wf(),
            old(state).wf(),
        ensures
            final(self).wf(),
            final(state).wf(),
            final(self).same_but_textbox(*old(self)),
            final(self).textbox().same_layout(old(self).textbox()),
            (final(self).textbox()@, final(state)@, b) == mode_begun(
                old(self).textbox()@,
                old(state)@,
                Mode::LoadFile,
                old(state)@.filepath,
            ),
    {
        let path = state.filepath().clone();
        self.begin(state, Mode::LoadFile, path)
    }

    fn begin_resize(&mut self, state: &mut EditorState) -> (b: bool)
        requires
            old(self).wf(),
            old(state).wf(),
        ensures
            final(self).wf(),
            final(state).wf(),
            final(self).same_but_textbox(*old(self)),
            final(self).textbox().same_layout(old(self).textbox()),
            (final(self).textbox()@, final(state)@, b) == mode_begun(
                old(self).textbox()@,
                old(state)@,
                Mode::Resize,
                size_text(old(state)@.image().width, old(state)@.image().height),
            ),
    {
        let (width, height) = state.image_size();
        let mut text = chars_of_string(&format_decimal(width as u64));
        text.push('x');
        let mut h = chars_of_string(&format_decimal(height as u64));
        text.append(&mut h);
        assert(text@ =~= size_text(width as nat, height as nat));
        let text = string_of_chars(&text);
        self.begin(state, Mode::Resize, text)
    }

    fn begin_save_as(&mut self, state: &mut EditorState) -> (b: bool)
        requires
            old(self).wf(),
            old(state).wf(),
        ensures
            final(self).wf(),
            final(state).wf(),
            final(self).same_but_textbox(*old(self)),
            final(self).textbox().same_layout(old(self).textbox()),
            (final(self).textbox()@, final(state)@, b) == mode_begun(
                old(self).textbox()@,
                old(state)@,
                Mode::SaveAs,
                old(state)@.filepath,
            ),
    {
        let path = state.filepath().clone();
        self.begin(state, Mode::SaveAs, path)
    }

    fn begin_set_metadata(&mut self, state: &mut EditorState) -> (b: bool)
        requires
            old(self).wf(),
            old(state).wf(),
        ensures
            final(self).wf(),
            final(state).wf(),
            final(self).same_but_textbox(*old(self)),
            final(self).textbox().same_layout(old(self).textbox()),
            (final(self).textbox()@, final(state)@, b) == mode_begun(
                old(self).textbox()@,
                old(state)@,
                Mode::SetMetadata,
                joined_decimals(old(state)@.image().metadata),
            ),
    {
        let text = join_decimals(state.image().metadata());
        self.begin(state, Mode::SetMetadata, text)
    }

    fn begin_set_metrics(&mut self, state: &mut EditorState) -> (b: bool)
        requires
            old(self).wf(),
            old(state).wf(),
        ensures
            final(self).wf(),
            final(state).wf(),
            final(self).same_but_textbox(*old(self)),
            final(self).textbox().same_layout(old(self).textbox()),
            (final(self).textbox()@, final(state)@, b) == metrics_begun(old(self).textbox()@, old(state)@),
    {
        if self.textbox.mode() == Mode::Edit {
            match state.image_metrics() {
                Some((baseline, left_edge, right_edge)) => {
                    let mut text = chars_of_string(&format_signed_decimal(baseline as i64));
                    text.push('/');
                    let mut l = chars_of_string(&format_signed_decimal(left_edge as i64));
                    text.append(&mut l);
                    text.push('/');
                    let mut r = chars_of_string(&format_signed_decimal(right_edge as i64));
                    text.append(&mut r);
                    assert(text@ =~= metrics_text(baseline as int, left_edge as int, right_edge as int));
                    let text = string_of_chars(&text);
                    self.begin(state, Mode::SetMetrics, text)
                },
                None => false,
            }
        } else {
            false
        }
    }

    fn begin_set_tag(&mut self, state: &mut EditorState) -> (b: bool)
        requires
            old(self).wf(),
            old(state).wf(),
        ensures
            final(self).wf(),
            final(state).wf(),
            final(self).same_but_textbox(*old(self)),
            final(self).textbox().same_layout(old(self).textbox()),
            (final(self).textbox()@, final(state)@, b) == mode_begun(
                old(self).textbox()@,
                old(state)@,
                Mode::SetTag,
                old(state)@.image().tag,
            ),
    {
        let tag = state.image().tag().clone();
        self.begin(state, Mode::SetTag, tag)
    }

    /// Asks for the test sentence of a font; the selection stays.
    fn begin_set_test_sentence(&mut self, state: &mut EditorState) -> (b: bool)
        requires
            old(self).wf(),
            old(state).wf(),
        ensures
            final(self).wf(),
            final(state).wf(),
            final(self).same_but_textbox(*old(self)),
            final(self).textbox().same_layout(old(self).textbox()),
            (final(self).textbox()@, final(state)@, b) == test_sentence_begun(old(self).textbox()@, old(state)@),
    {
        if self.textbox.mode() == Mode::Edit && state.font().is_some() {
            let text = state.test_sentence().clone();
            self.textbox.set_mode(Mode::TestSentence, text);
            true
        } else {
            false
        }
    }

    /// Asks for the RGBA digits of `color` in the palette in use.
    fn begin_set_color(&mut self, state: &mut EditorState, color: Color) -> (b: bool)
        requires
            old(self).wf(),
            old(state).wf(),
        ensures
            final(self).wf(),
            final(state).wf(),
            final(self).same_but_textbox(*old(self)),
            final(self).textbox().same_layout(old(self).textbox()),
            (final(self).textbox()@, final(state)@, b) == color_begun(old(self).textbox()@, old(state)@, color),
    {
        let rgba = state.palette().get(color);
        let mut digits: Vec<char> = Vec::new();
        crate::util::push_hex_byte(&mut digits, rgba.0);
        crate::util::push_hex_byte(&mut digits, rgba.1);
        crate::util::push_hex_byte(&mut digits, rgba.2);
        crate::util::push_hex_byte(&mut digits, rgba.3);
        let text = string_of_chars(&digits);
        self.begin(state, Mode::SetColor(color), text)
    }

    /// Acts on the shortcut `sc`; says whether saving is left to do.
    fn perform_shortcut(&mut self, sc: Shortcut, state: &mut EditorState) -> (r: (Action<()>, bool))
        requires
            old(self).wf(),
            old(state).wf(),
        ensures
            final(self).wf(),
            final(state).wf(),
            final(self).same_but_textbox(*old(self)),
            final(self).textbox().same_layout(old(self).textbox()),
            (final(self).textbox()@, final(state)@, r.0) == shortcut_done(old(self).textbox()@, old(state)@, sc),
            r.1 == (sc == Shortcut::Save),
    {
        let action = match sc {
            Shortcut::DeleteImage => Action::redraw_if(state.mutation().delete_image()).and_stop(),
            Shortcut::SelectAll => {
                state.mutation().select_all();
                Action::redraw().and_stop()
            },
            Shortcut::SetMetrics => Action::redraw_if(self.begin_set_metrics(state)).and_stop(),
            Shortcut::CopySelection => {
                state.mutation().copy_selection();
                Action::ignore().and_stop()
            },
            Shortcut::Goto => Action::redraw_if(self.begin_goto(state)).and_stop(),
            Shortcut::FlipHorz => {
                state.mutation().flip_selection_horz();
                Action::redraw().and_stop()
            },
            Shortcut::RotateLeft => {
                state.mutation().rotate_selection_counterclockwise();
                Action::redraw().and_stop()
            },
            Shortcut::SetMetadata => Action::redraw_if(self.begin_set_metadata(state)).and_stop(),
            Shortcut::NewImage => Action::redraw_if(self.begin_new_image(state)).and_stop(),
            Shortcut::LoadFile => Action::redraw_if(self.begin_load_file(state)).and_stop(),
            Shortcut::Resize => Action::redraw_if(self.begin_resize(state)).and_stop(),
            Shortcut::RotateRight => {
                state.mutation().rotate_selection_clockwise();
                Action::redraw().and_stop()
            },
            Shortcut::Save => Action::redraw().and_stop(),
            Shortcut::SaveAs => Action::redraw_if(self.begin_save_as(state)).and_stop(),
            Shortcut::SetTag => Action::redraw_if(self.begin_set_tag(state)).and_stop(),
            Shortcut::SetTestSentence => Action::redraw_if(self.begin_set_test_sentence(state)).and_stop(),
            Shortcut::PasteSelection => {
                state.mutation().paste_selection();
                Action::redraw().and_stop()
            },
            Shortcut::FlipVert => {
                state.mutation().flip_selection_vert();
                Action::redraw().and_stop()
            },
            Shortcut::CutSelection => {
                state.mutation().cut_selection();
                Action::redraw().and_stop()
            },
            Shortcut::Undo => Action::redraw_if(state.undo()).and_stop(),
            Shortcut::Redo => Action::redraw_if(state.redo()).and_stop(),
            Shortcut::Scale2x => {
                if scale_fits_exec(state) {
                    state.mutation().scale_selection_2x();
                    Action::redraw().and_stop()
                } else {
                    Action::ignore().and_stop()
                }
            },
        };
        (action, sc == Shortcut::Save)
    }

    /// The elements other than the modal text box see `event` in turn: see
    /// `aggregate_event`.
    #[verifier::spinoff_prover]
    #[verifier::rlimit(100)]
    fn aggregate(&mut self, event: &Event, state: &mut EditorState) -> (a: Action<()>)
        requires
            old(self).wf(),
            old(state).wf(),
        ensures
            final(self).wf(),
            final(state).wf(),
            final(self).palette().rect() == old(self).palette().rect(),
            final(self).palette().left_rect() == old(self).palette().left_rect(),
            final(self).palette().add_rect() == old(self).palette().add_rect(),
            final(self).palette().delete_rect() == old(self).palette().delete_rect(),
            final(self).palette().right_rect() == old(self).palette().right_rect(),
            final(self).palette().colors().rect() == old(self).palette().colors().rect(),
            final(self).palette().colors().rects() == old(self).palette().colors().rects(),
            final(self).palette().colors().colors() == old(self).palette().colors().colors(),
            final(self).palette().colors().keys() == old(self).palette().colors().keys(),
            final(self).toolbox() == old(self).toolbox(),
            final(self).mirrors() == old(self).mirrors(),
            final(self).scrollbar() == old(self).scrollbar(),
            final(self).textbox().same_layout(old(self).textbox()),
            (
                Parts { counters: final(self).palette().colors().counters(), canvas: final(self).canvas()@, preview: final(self).preview()@ },
                final(self).textbox()@,
                final(state)@,
                a,
            ) == aggregate_event(*old(self), old(self).textbox()@, old(state)@, event@),
    {
        let mut action: Action<()> = Action::ignore();
        let mut palette_action: Action<PaletteAction> = if palette_fits_exec(state) {
            self.palette.on_event(event, state)
        } else {
            Action::ignore()
        };
        if let Some(PaletteAction::EditColor(color)) = palette_action.take_value() {
            self.begin_set_color(state, color);
        }
        action.merge(palette_action.but_no_value());
        if action.should_stop() {
            return action;
        }
        action.merge(self.toolbox.on_event(event, state));
        if action.should_stop() {
            return action;
        }
        action.merge(self.mirrors.on_event(event, state));
        if action.should_stop() {
            return action;
        }
        if scrollbar_fits_exec(state) {
            action.merge(self.scrollbar.on_event(event, state));
        }
        if action.should_stop() {
            return action;
        }
        if self.canvas.accepts(event, state) {
            action.merge(self.canvas.on_event(event, state));
        }
        if action.should_stop() {
            return action;
        }
        if self.preview.accepts(event, state) {
            action.merge(self.preview.on_event(event, state));
        }
        action
    }

    /// Answers `event`, and says what is left to do: see `editor_event`.
    #[verifier::spinoff_prover]
    #[verifier::rlimit(100)]
    pub fn on_event(&mut self, event: &Event, state: &mut EditorState) -> (r: (Action<()>, Option<EditorRequest>))
        requires
            old(self).wf(),
            old(state).wf(),
        ensures
            final(self).wf(),
            final(state).wf(),
            (
                Parts { counters: final(self).palette().colors().counters(), canvas: final(self).canvas()@, preview: final(self).preview()@ },
                final(self).textbox()@,
                final(state)@,
                r.0,
                request_view(r.1),
            ) == editor_event(*old(self), old(state)@, event@),
    {
        if let Event::KeyDown(key, kmod) = event {
            if let Some(sc) = shortcut(*key, *kmod) {
                let (action, save) = self.perform_shortcut(sc, state);
                return (action, if save { Some(EditorRequest::Save) } else { None });
            }
        }
        let (mut action, request) = self.textbox_stage(event, state);
        if !action.should_stop() {
            action.merge(self.aggregate(event, state));
        }
        (action, request)
    }

    /// The modal text box sees `event`, and the text it gives back is
    /// performed: see `textbox_stage_event`.
    fn textbox_stage(&mut self, event: &Event, state: &mut EditorState) -> (r: (Action<()>, Option<EditorRequest>))
        requires
            old(self).wf(),
            old(state).wf(),
        ensures
            final(self).wf(),
            final(state).wf(),
            final(self).same_but_textbox(*old(self)),
            final(self).textbox().same_layout(old(self).textbox()),
            (final(self).textbox()@, final(state)@, r.0, request_view(r.1)) == textbox_stage_event(old(self).textbox(), old(state)@, event@),
    {
        let mut action = self.textbox.on_event(event);
        let mut request: Option<EditorRequest> = None;
        if let Some((mode, text)) = action.take_value() {
            let glyph_ok = if mode == Mode::NewGlyph {
                proof {
                    EditorState::lemma_unselected_image(state@);
                }
                state.font().is_none() || state.image_size().0 < i32::MAX as u32
            } else {
                true
            };
            if glyph_ok {
                match mode_perform(state, mode, text) {
                    ModeOutcome::Finished(true) => {
                        self.textbox.clear_mode();
                        action.also_redraw();
                    },
                    ModeOutcome::Finished(false) => {},
                    ModeOutcome::LoadFile(path) => {
                        request = Some(EditorRequest::LoadFile(path));
                    },
                    ModeOutcome::SaveAs(path) => {
                        request = Some(EditorRequest::SaveAs(path));
                    },
                    ModeOutcome::Export(path) => {
                        request = Some(EditorRequest::Export(path));
                    },
                }
            }
        }
        (action.but_no_value(), request)
    }

    /// Told whether the loading, saving or exporting left to do worked, ends
    /// the mode when it did; says whether to redraw.
    pub fn request_done(&mut self, succeeded: bool) -> (b: bool)
        requires
            old(self).wf(),
        ensures
            final(self).wf(),
            final(self).same_but_textbox(*old(self)),
            final(self).textbox().same_layout(old(self).textbox()),
            b == succeeded,
            succeeded ==> final(self).textbox()@ == crate::view::textbox::cleared_view(old(self).textbox()@),
            !succeeded ==> final(self).textbox()@ == old(self).textbox()@,
    {
        if succeeded {
            self.textbox.clear_mode();
        }
        succeeded
    }

    /// The tab completion asked for by the last event, if any.
    pub fn take_pending_completion(&mut self) -> (t: Option<crate::view::textbox::TabCompletion>)
        requires
            old(self).wf(),
        ensures
            final(self).wf(),
            final(self).same_but_textbox(*old(self)),
            t == old(self).textbox()@.pending,
    {
        self.textbox.take_pending_completion()
    }

    /// Takes the result of a tab completion: see `ModalTextBox::complete`.
    pub fn complete(&mut self, result: Option<(String, Vec<(String, String)>)>) -> (b: bool)
        requires
            old(self).wf(),
            result matches Some((_, matches)) ==> crate::view::textbox::MATCHES_MARGIN + crate::view::textbox::MATCH_HEIGHT
                * matches@.len() <= i32::MAX,
        ensures
            final(self).wf(),
            final(self).same_but_textbox(*old(self)),
            b == result is Some,
            match result {
                Some((path, matches)) => {
                    &&& final(self).textbox()@.text == (crate::view::textbox::TextBoxView { text: path@, cursor: path@.len(), blink: 0 })
                    &&& final(self).textbox()@.mode == old(self).textbox()@.mode
                    &&& final(self).textbox()@.pending == old(self).textbox()@.pending
                    &&& final(self).textbox()@.matches.len() == (if matches@.len() > 1 { matches@.len() } else { 0 })
                    &&& forall|k: int|
                        0 <= k < final(self).textbox()@.matches.len() ==> (#[trigger] final(self).textbox()@.matches[k]).1
                            == matches@[k].1@
                    &&& forall|k: int|
                        0 <= k < final(self).textbox()@.matches.len() ==> (#[trigger] final(self).textbox()@.matches[k]).0@ == (
                            crate::view::textbox::MATCHES_MARGIN as int,
                            crate::geometry::clamp_position(crate::view::textbox::MATCHES_MARGIN + crate::view::textbox::MATCH_HEIGHT * k),
                            (crate::view::textbox::MATCHES_WIDTH - 2 * crate::view::textbox::MATCHES_MARGIN) as int,
                            crate::view::textbox::MATCH_HEIGHT as int,
                        )
                    &&& final(self).textbox().offered_files().names().len() == final(self).textbox()@.matches.len()
                    &&& forall|k: int|
                        0 <= k < final(self).textbox()@.matches.len() ==> #[trigger] final(self).textbox().offered_files().names()[k]
                            == matches@[k].0@
                },
                None => final(self).textbox()@ == old(self).textbox()@,
            },
    {
        self.textbox.complete(result)
    }
}

/// Whether the palette can step: see `palette_fits`.
fn palette_fits_exec(state: &EditorState) -> (b: bool)
    requires
        state.wf(),
    ensures
        b == palette_fits(state@),
{
    let n = state.num_palettes();
    let i = state.palette_index();
    n < i32::MAX as usize && i < i32::MAX as usize
}

/// Whether the scrollbar can step: see `scrollbar_fits`.
fn scrollbar_fits_exec(state: &EditorState) -> (b: bool)
    requires
        state.wf(),
    ensures
        b == scrollbar_fits(state@),
{
    match state.image_count() {
        Some(n) => {
            if n > i32::MAX as usize {
                return false;
            }
            let i = state.image_index();
            i <= (i32::MAX - 3) as usize
        },
        None => false,
    }
}

/// Whether the selection or the image can be scaled up: see `scale_fits`.
fn scale_fits_exec(state: &EditorState) -> (b: bool)
    requires
        state.wf(),
    ensures
        b == scale_fits(state@),
{
    let (width, height) = match state.selection() {
        Some((image, _)) => (image.width(), image.height()),
        None => state.image_size(),
    };
    width <= (i32::MAX / 2) as u32 && height <= (i32::MAX / 2) as u32
}

//---------------------------------------------------------------------------//
// The text with which a mode begins reads back as what it shows.

/// `WIDTHxHEIGHT` reads back as the width and the height.
pub proof fn lemma_size_text_reads_back(w: u32, h: u32)
    ensures
        resize_dims(size_text(w as nat, h as nat)) == Some((w as nat, h as nat)),
{
    lemma_decimal_lacks(w as nat, 'x');
    lemma_decimal_lacks(h as nat, 'x');
    lemma_split_on_join(decimal(w as nat), decimal(h as nat), 'x');
    lemma_split_on_whole(decimal(w as nat), 'x');
    lemma_split_on_whole(decimal(h as nat), 'x');
    lemma_parse_decimal(w as nat, u32::MAX as nat);
    lemma_parse_decimal(h as nat, u32::MAX as nat);
    let pieces = split_on(size_text(w as nat, h as nat), 'x');
    assert(pieces =~= seq![decimal(w as nat), decimal(h as nat)]);
}

/// `BASELINE/LEFT/RIGHT` reads back as the three values.
pub proof fn lemma_metrics_text_reads_back(b: i32, l: i32, r: i32)
    ensures
        metrics_values(metrics_text(b as int, l as int, r as int)) == Some((b as int, l as int, r as int)),
{
    let (sb, sl, sr) = (signed_decimal(b as int), signed_decimal(l as int), signed_decimal(r as int));
    lemma_signed_decimal_lacks(b as int, '/');
    lemma_signed_decimal_lacks(l as int, '/');
    lemma_signed_decimal_lacks(r as int, '/');
    lemma_split_on_join(sb, sl, '/');
    lemma_split_on_join(sb + seq!['/'] + sl, sr, '/');
    lemma_split_on_whole(sb, '/');
    lemma_split_on_whole(sl, '/');
    lemma_split_on_whole(sr, '/');
    lemma_parse_signed_decimal(b as int, i32::MIN as int, i32::MAX as int);
    lemma_parse_signed_decimal(l as int, i32::MIN as int, i32::MAX as int);
    lemma_parse_signed_decimal(r as int, i32::MIN as int, i32::MAX as int);
    assert(metrics_text(b as int, l as int, r as int) == (sb + seq!['/'] + sl) + seq!['/'] + sr);
    let pieces = split_on(metrics_text(b as int, l as int, r as int), '/');
    assert(pieces =~= seq![sb, sl, sr]);
}

/// Values written in decimal and separated by commas split back into their
/// writings.
proof fn lemma_joined_decimals_split(vs: Seq<i16>)
    requires
        vs.len() > 0,
    ensures
        split_on(joined_decimals(vs), ',') == vs.map_values(|v: i16| signed_decimal(v as int)),
        parse_all_i16(split_on(joined_decimals(vs), ',')) == Some(vs),
    decreases vs.len(),
{
    let last = vs.last();
    lemma_signed_decimal_lacks(last as int, ',');
    lemma_split_on_whole(signed_decimal(last as int), ',');
    lemma_parse_signed_decimal(last as int, i16::MIN as int, i16::MAX as int);
    if vs.len() == 1 {
        assert(vs.map_values(|v: i16| signed_decimal(v as int)) =~= seq![signed_decimal(vs[0] as int)]);
        let ps = seq![signed_decimal(vs[0] as int)];
        assert(ps.drop_last() =~= Seq::<Seq<char>>::empty());
        assert(ps.last() == signed_decimal(last as int));
        assert(parse_all_i16(ps.drop_last()) == Some(Seq::<i16>::empty()));
        assert(vs =~= Seq::<i16>::empty().push(vs[0]));
        assert(parse_all_i16(ps) == Some(Seq::<i16>::empty().push(last)));
    } else {
        let front = vs.drop_last();
        lemma_joined_decimals_split(front);
        lemma_split_on_join(joined_decimals(front), signed_decimal(last as int), ',');
        let ps = split_on(joined_decimals(vs), ',');
        assert(ps =~= front.map_values(|v: i16| signed_decimal(v as int)).push(signed_decimal(last as int)));
        assert(vs.map_values(|v: i16| signed_decimal(v as int)) =~= ps);
        assert(ps.drop_last() =~= split_on(joined_decimals(front), ','));
        assert(front.push(last) =~= vs);
        assert(ps.last() == signed_decimal(last as int));
        assert(parse_all_i16(ps.drop_last()) == Some(front));
        assert(parse_all_i16(ps) == Some(front.push(last)));
    }
}

/// Metadata written as the text of its mode reads back as itself.
pub proof fn lemma_metadata_text_reads_back(vs: Seq<i16>)
    ensures
        metadata_values(joined_decimals(vs)) == Some(vs),
{
    if vs.len() == 0 {
        assert(joined_decimals(vs) =~= Seq::<char>::empty());
        assert(vs =~= Seq::<i16>::empty());
    } else {
        lemma_joined_decimals_split(vs);
        lemma_signed_decimal_lacks(vs[0] as int, ',');
        assert(joined_decimals(vs).len() > 0) by {
            lemma_joined_nonempty(vs);
        }
    }
}

proof fn lemma_joined_nonempty(vs: Seq<i16>)
    requires
        vs.len() > 0,
    ensures
        joined_decimals(vs).len() > 0,
    decreases vs.len(),
{
    crate::util::lemma_decimal_digits(if vs.last() < 0 { (-(vs.last() as int)) as nat } else { vs.last() as nat });
}

/// A hexadecimal digit reads back as its value.
proof fn lemma_hex_digit_reads_back(d: nat)
    requires
        d < 16,
    ensures
        hex_digit_value(upper_hex_digit(d)) == Some(d),
{
    if d < 10 {
        assert(upper_hex_digit(d) as int == 48 + d);
    } else {
        assert(upper_hex_digit(d) as int == 55 + d);
    }
}

/// Two hexadecimal digits read back as their byte.
proof fn lemma_hex_byte_reads_back(b: u8)
    ensures
        hex_pair(hex_byte(b)[0], hex_byte(b)[1]) == Some(b),
{
    lemma_hex_digit_reads_back((b / 16) as nat);
    lemma_hex_digit_reads_back((b % 16) as nat);
    assert(16 * (b / 16) + b % 16 == b);
}

/// A color written as eight hexadecimal digits reads back as itself.
pub proof fn lemma_color_text_reads_back(c: Rgba)
    ensures
        rgba_value(rgba_text(c)) == Some(c),
{
    lemma_hex_byte_reads_back(c.0);
    lemma_hex_byte_reads_back(c.1);
    lemma_hex_byte_reads_back(c.2);
    lemma_hex_byte_reads_back(c.3);
    let t = rgba_text(c);
    assert(t.len() == 8);
    assert(t[0] == hex_byte(c.0)[0] && t[1] == hex_byte(c.0)[1]);
    assert(t[2] == hex_byte(c.1)[0] && t[3] == hex_byte(c.1)[1]);
    assert(t[4] == hex_byte(c.2)[0] && t[5] == hex_byte(c.2)[1]);
    assert(t[6] == hex_byte(c.3)[0] && t[7] == hex_byte(c.3)[1]);
}

/// Giving back unchanged the text with which a mode begins sets what it
/// showed: the size (so every image is cut to it), the metrics, the
/// metadata, and the color of a palette entry.
pub proof fn lemma_mode_text_round_trip(s: StateView, w: u32, h: u32, b: i32, l: i32, r: i32, vs: Seq<i16>, color: Color, rgba: Rgba)
    ensures
        mode_performed(s, Mode::Resize, size_text(w as nat, h as nat)) == (
            s.mutation_begun().resized(w as nat, h as nat),
            OutcomeView::Finished(true),
        ),
        mode_performed(s, Mode::SetMetrics, metrics_text(b as int, l as int, r as int)) == (
            s.mutation_begun().metrics_set(b as int, l as int, r as int),
            OutcomeView::Finished(true),
        ),
        mode_performed(s, Mode::SetMetadata, joined_decimals(vs)) == (s.mutation_begun().metadata_set(vs), OutcomeView::Finished(true)),
        mode_performed(s, Mode::SetColor(color), rgba_text(rgba)) == (
            s.mutation_begun().palette_color_set(color, rgba).0,
            OutcomeView::Finished(s.mutation_begun().palette_color_set(color, rgba).1),
        ),
{
    lemma_size_text_reads_back(w, h);
    lemma_metrics_text_reads_back(b, l, r);
    lemma_metadata_text_reads_back(vs);
    lemma_color_text_reads_back(rgba);
}

/// The letter on a letter key.
pub open spec fn key_letter(key: Keycode) -> Option<char> {
    match key {
        Keycode::A => Some('A'),
        Keycode::B => Some('B'),
        Keycode::C => Some('C'),
        Keycode::D => Some('D'),
        Keycode::E => Some('E'),
        Keycode::F => Some('F'),
        Keycode::G => Some('G'),
        Keycode::H => Some('H'),
        Keycode::I => Some('I'),
        Keycode::J => Some('J'),
        Keycode::K => Some('K'),
        Keycode::L => Some('L'),
        Keycode::M => Some('M'),
        Keycode::N => Some('N'),
        Keycode::O => Some('O'),
        Keycode::P => Some('P'),
        Keycode::Q => Some('Q'),
        Keycode::R => Some('R'),
        Keycode::S => Some('S'),
        Keycode::T => Some('T'),
        Keycode::U => Some('U'),
        Keycode::V => Some('V'),
        Keycode::W => Some('W'),
        Keycode::X => Some('X'),
        Keycode::Y => Some('Y'),
        Keycode::Z => Some('Z'),
        _ => None,
    }
}

/// How the menu writes a letter key pressed with command (`C-`) or with
/// command and shift (`CS-`).
pub open spec fn written_shortcut(key: Keycode, m: KeyMod) -> Option<Seq<char>> {
    match key_letter(key) {
        Some(l) => if m.bits == COMMAND_BIT {
            Some("C-"@ + seq![l])
        } else if m.bits == COMMAND_SHIFT {
            Some("CS-"@ + seq![l])
        } else {
            None
        },
        None => None,
    }
}

/// The editor's shortcut for the operation that a menu entry names.
pub open spec fn menu_operation(a: MenuAction) -> Shortcut {
    match a {
        MenuAction::FlipHorz => Shortcut::FlipHorz,
        MenuAction::FlipVert => Shortcut::FlipVert,
        MenuAction::Resize => Shortcut::Resize,
        MenuAction::RotateLeft => Shortcut::RotateLeft,
        MenuAction::RotateRight => Shortcut::RotateRight,
    }
}

/// The key combination that a menu entry shows as its shortcut is the one
/// that does the entry's operation in the editor.
pub proof fn lemma_menu_shortcuts_match(a: MenuAction, key: Keycode, m: KeyMod)
    requires
        written_shortcut(key, m) == Some(menu_shortcut(a)),
    ensures
        shortcut_for(key, m) == Some(menu_operation(a)),
{
    reveal_strlit("C-");
    reveal_strlit("CS-");
    reveal_strlit("CS-H");
    reveal_strlit("CS-V");
    reveal_strlit("C-R");
    reveal_strlit("CS-L");
    reveal_strlit("CS-R");
    let w = menu_shortcut(a);
    let l = key_letter(key)->Some_0;
    if m.bits == COMMAND_BIT {
        assert(w =~= "C-"@ + seq![l]);
        assert(w.len() == 3);
        assert(w[2] == l);
    } else {
        assert(w =~= "CS-"@ + seq![l]);
        assert(w.len() == 4);
        assert(w[3] == l);
    }
}

} // verus!
