//! The editor's state: the images, palettes or font being edited, the
//! selection, the clipboard, the current tool and color, and the undo and
//! redo history.

use crate::geometry::{clamp_position, clamp_size, Point, Rect};
use crate::util::{chars_of, decimal, escape_default, parse_unsigned, parse_usize, push_escaped, string_of_chars};
use crate::image::{
    blank_image, color_code, default_palette_entries, Collection, Color, Font, FontView, Glyph, GlyphView, Image,
    ImageView, Palette, Rgba,
};
use vstd::prelude::*;

verus! {

/// The most snapshots kept for undoing.
pub const MAX_UNDOS: usize = 100;

/// The sentence shown with a font until the user sets another.
pub const DEFAULT_TEST_SENTENCE: &'static str = "The quick, brown fox jumps over a ``lazy'' dog.";

#[derive(Clone, Copy, Debug, PartialEq, Eq, Structural)]
pub enum Tool {
    Checkerboard,
    Eyedropper,
    Lasso,
    Line,
    Oval,
    PaintBucket,
    PaletteReplace,
    PaletteSwap,
    Pencil,
    Rectangle,
    Select,
    Watercolor,
}

/// The symmetry with which the pencil paints.
#[derive(Clone, Copy, Debug, PartialEq, Eq, Structural)]
pub enum Mirror {
    NoMirror,
    Horz,
    Vert,
    Both,
    Rot2,
    Rot4,
}

//---------------------------------------------------------------------------//

/// What is being edited: a collection of images and palettes, or a font.
pub ghost enum DataView {
    Ahi { palette_index: nat, palettes: Seq<Seq<Rgba>>, image_index: nat, images: Seq<ImageView> },
    Ahf { current_char: Option<char>, font: FontView },
}

/// A selection lifted off the image: its pixels and the position of its
/// top-left corner on the image.
pub type SelectionView = Option<(ImageView, (int, int))>;

/// One state of the document, as undo and redo restore it.
#[verifier::ext_equal]
pub ghost struct SnapshotView {
    pub data: DataView,
    pub selection: SelectionView,
    pub unsaved: bool,
}

/// The whole editor state.
#[verifier::ext_equal]
pub ghost struct StateView {
    pub color: Color,
    pub filepath: Seq<char>,
    pub current: SnapshotView,
    pub undo_stack: Seq<SnapshotView>,
    pub redo_stack: Seq<SnapshotView>,
    pub clipboard: SelectionView,
    pub tool: Tool,
    pub prev_tool: Tool,
    pub mirror: Mirror,
    pub persistent_mutation_active: bool,
    pub test_sentence: Seq<char>,
}

/// The snapshot marked as unsaved.
pub open spec fn marked_unsaved(s: SnapshotView) -> SnapshotView {
    SnapshotView { unsaved: true, ..s }
}

/// Every snapshot of `stack` marked as unsaved.
pub open spec fn all_marked_unsaved(stack: Seq<SnapshotView>) -> Seq<SnapshotView> {
    stack.map_values(|s: SnapshotView| marked_unsaved(s))
}

pub open spec fn selection_wf(sel: SelectionView) -> bool {
    sel matches Some((img, _)) ==> img.wf()
}

impl DataView {
    pub open spec fn wf(self) -> bool {
        match self {
            DataView::Ahi { palette_index, palettes, image_index, images } => {
                &&& images.len() >= 1
                &&& image_index < images.len()
                &&& palette_index <= palettes.len()
                &&& forall|i: int| 0 <= i < images.len() ==> (#[trigger] images[i]).wf()
                &&& forall|i: int| 0 <= i < palettes.len() ==> (#[trigger] palettes[i]).len() == 16
            },
            DataView::Ahf { current_char, font } => font.wf(),
        }
    }

    /// The image being edited.
    pub open spec fn current_image(self) -> ImageView {
        match self {
            DataView::Ahi { image_index, images, .. } => images[image_index as int],
            DataView::Ahf { current_char, font } => match current_char {
                Some(c) => font.glyph(c).image,
                None => font.default_glyph.image,
            },
        }
    }

    /// The same document with `img` as the image being edited.
    pub open spec fn with_current_image(self, img: ImageView) -> DataView {
        match self {
            DataView::Ahi { palette_index, palettes, image_index, images } => DataView::Ahi {
                palette_index,
                palettes,
                image_index,
                images: images.update(image_index as int, img),
            },
            DataView::Ahf { current_char, font } => match current_char {
                Some(c) => DataView::Ahf {
                    current_char,
                    font: font.with_glyph_at(c, GlyphView { image: img, ..font.glyph(c) }),
                },
                None => DataView::Ahf {
                    current_char,
                    font: FontView { default_glyph: GlyphView { image: img, ..font.default_glyph }, ..font },
                },
            },
        }
    }

    pub open spec fn num_palettes(self) -> nat {
        match self {
            DataView::Ahi { palettes, .. } => palettes.len(),
            DataView::Ahf { .. } => 1,
        }
    }

    pub open spec fn palette_index(self) -> nat {
        match self {
            DataView::Ahi { palette_index, .. } => palette_index,
            DataView::Ahf { .. } => 0,
        }
    }

    /// The palette the image is shown with: the chosen one, or the built-in
    /// palette when the index is one past the last palette.
    pub open spec fn palette(self) -> Seq<Rgba> {
        match self {
            DataView::Ahi { palette_index, palettes, .. } => if palette_index < palettes.len() {
                palettes[palette_index as int]
            } else {
                default_palette_entries()
            },
            DataView::Ahf { .. } => default_palette_entries(),
        }
    }

    pub open spec fn num_images(self) -> nat {
        match self {
            DataView::Ahi { images, .. } => images.len(),
            DataView::Ahf { font, .. } => 1 + font.glyphs.len(),
        }
    }

    /// The index of the image being edited: for a font, zero for the default
    /// glyph and one more than the character's place otherwise.
    pub open spec fn image_index(self) -> nat {
        match self {
            DataView::Ahi { image_index, .. } => image_index,
            DataView::Ahf { current_char, font } => match current_char {
                Some(c) => if font.has(c) {
                    (font.position(c) + 1) as nat
                } else {
                    0
                },
                None => 0,
            },
        }
    }

    /// The image at `index`, counted as `image_index` counts.
    pub open spec fn image_at(self, index: int) -> ImageView {
        match self {
            DataView::Ahi { images, .. } => images[index],
            DataView::Ahf { font, .. } => if index == 0 {
                font.default_glyph.image
            } else {
                font.glyphs[index - 1].1.image
            },
        }
    }
}

impl SnapshotView {
    pub open spec fn wf(self) -> bool {
        self.data.wf() && selection_wf(self.selection)
    }
}

impl StateView {
    pub open spec fn wf(self) -> bool {
        &&& self.current.wf()
        &&& forall|i: int| 0 <= i < self.undo_stack.len() ==> (#[trigger] self.undo_stack[i]).wf()
        &&& forall|i: int| 0 <= i < self.redo_stack.len() ==> (#[trigger] self.redo_stack[i]).wf()
        &&& selection_wf(self.clipboard)
        &&& self.undo_stack.len() + self.redo_stack.len() <= MAX_UNDOS
    }

    /// The image being edited.
    pub open spec fn image(self) -> ImageView {
        self.current.data.current_image()
    }

    /// The state with the current snapshot pushed on the undo stack, dropping
    /// the oldest when there are more than `MAX_UNDOS`, the redo stack
    /// emptied and no persistent mutation under way.
    pub open spec fn pushed_change(self) -> StateView {
        let pushed = self.undo_stack.push(self.current);
        StateView {
            undo_stack: if pushed.len() > MAX_UNDOS {
                pushed.subrange(1, pushed.len() as int)
            } else {
                pushed
            },
            redo_stack: Seq::empty(),
            persistent_mutation_active: false,
            ..self
        }
    }

    /// The state with the current snapshot marked as unsaved.
    pub open spec fn marked_unsaved(self) -> StateView {
        StateView { current: SnapshotView { unsaved: true, ..self.current }, ..self }
    }

    /// The state in which a mutation begins: the change is pushed and the
    /// document marked unsaved.
    pub open spec fn mutation_begun(self) -> StateView {
        self.pushed_change().marked_unsaved()
    }

    /// The state in which a persistent mutation begins: the change is pushed
    /// only when none is under way already, and the document is marked
    /// unsaved.
    pub open spec fn persistent_mutation_begun(self) -> StateView {
        if self.persistent_mutation_active {
            self.marked_unsaved()
        } else {
            StateView { persistent_mutation_active: true, ..self.pushed_change() }.marked_unsaved()
        }
    }

    /// The state after an undo: the last undo snapshot becomes current and the
    /// current one goes on the redo stack; the select tool is chosen when the
    /// restored snapshot has a selection. Nothing changes when there is
    /// nothing to undo.
    pub open spec fn undone(self) -> StateView {
        if self.undo_stack.len() == 0 {
            self
        } else {
            let restored = self.undo_stack.last();
            StateView {
                current: restored,
                undo_stack: self.undo_stack.drop_last(),
                redo_stack: self.redo_stack.push(self.current),
                tool: if restored.selection is Some { Tool::Select } else { self.tool },
                ..self
            }
        }
    }

    /// The state after a redo, symmetric to `undone`.
    pub open spec fn redone(self) -> StateView {
        if self.redo_stack.len() == 0 {
            self
        } else {
            let restored = self.redo_stack.last();
            StateView {
                current: restored,
                redo_stack: self.redo_stack.drop_last(),
                undo_stack: self.undo_stack.push(self.current),
                tool: if restored.selection is Some { Tool::Select } else { self.tool },
                ..self
            }
        }
    }

    /// The same state with `data` as the current document.
    pub open spec fn with_data(self, data: DataView) -> StateView {
        StateView { current: SnapshotView { data, ..self.current }, ..self }
    }

    /// The same state with `sel` as the current selection.
    pub open spec fn with_selection(self, sel: SelectionView) -> StateView {
        StateView { current: SnapshotView { selection: sel, ..self.current }, ..self }
    }

    /// The same state with `img` as the image being edited.
    pub open spec fn with_image(self, img: ImageView) -> StateView {
        self.with_data(self.current.data.with_current_image(img))
    }

    /// The selection, if any, drawn back onto the image at its position, and
    /// no selection left.
    pub open spec fn unselected(self) -> StateView {
        match self.current.selection {
            Some((img, pos)) => self.with_selection(None).with_image(self.image().drawn(img, pos.0, pos.1)),
            None => self,
        }
    }

    /// The persistent mutation ended, and a selection, if any, put down by a
    /// mutation of its own.
    pub open spec fn unselected_if_necessary(self) -> StateView {
        let r = StateView { persistent_mutation_active: false, ..self };
        if r.current.selection is Some {
            r.mutation_begun().unselected()
        } else {
            r
        }
    }

    /// The tool changed to `tool`, after putting down any selection; the tool
    /// it replaces is remembered. Nothing changes when `tool` is the current
    /// tool.
    pub open spec fn with_tool(self, tool: Tool) -> StateView {
        if self.tool == tool {
            self
        } else {
            StateView { prev_tool: self.tool, tool, ..self.unselected_if_necessary() }
        }
    }

    /// The state after `set_image_index(index)`.
    pub open spec fn with_image_index(self, index: nat) -> StateView {
        let t = self.unselected_if_necessary();
        match t.current.data {
            DataView::Ahi { palette_index, palettes, images, .. } => t.with_data(
                DataView::Ahi { palette_index, palettes, image_index: index % images.len(), images },
            ),
            DataView::Ahf { font, .. } => t.with_data(
                DataView::Ahf {
                    current_char: if index == 0 { None } else { Some(font.glyphs[index - 1].0) },
                    font,
                },
            ),
        }
    }

    /// The state after `go_to(text)`, and whether it moved.
    pub open spec fn gone_to(self, text: Seq<char>) -> (StateView, bool) {
        match self.current.data {
            DataView::Ahi { palette_index, palettes, images, .. } => match parse_unsigned(text, usize::MAX as nat) {
                Some(i) => if i < images.len() {
                    (self.with_data(DataView::Ahi { palette_index, palettes, image_index: i, images }), true)
                } else {
                    (self, false)
                },
                None => (self, false),
            },
            DataView::Ahf { font, .. } => if text == seq!['d', 'e', 'f'] {
                (self.with_data(DataView::Ahf { current_char: None, font }), true)
            } else if text.len() == 1 {
                (self.with_data(DataView::Ahf { current_char: Some(text[0]), font }), true)
            } else {
                (self, false)
            },
        }
    }
}

/// What the editing operations make of a state.
impl StateView {
    /// The image with the pixels at `positions` set to `color`.
    pub open spec fn image_with_pixels_at(self, positions: Seq<(int, int)>, color: Color) -> ImageView {
        let img = self.image();
        img.with_pixels(
            img.width,
            img.height,
            |c: int, r: int| if positions.contains((c, r)) { color } else { img.at(c, r) },
        )
    }

    /// The color of the pixel at `pos` taken as the current color; the
    /// eyedropper then gives way to the tool used before it, or to the pencil
    /// when that was the select tool.
    pub open spec fn eyedropped(self, pos: (int, int)) -> StateView {
        StateView {
            color: self.image().at(pos.0, pos.1),
            tool: if self.tool == Tool::Eyedropper {
                if self.prev_tool == Tool::Select { Tool::Pencil } else { self.prev_tool }
            } else {
                self.tool
            },
            ..self
        }
    }

    /// The current color painted at `pos` and at its mirror images.
    pub open spec fn pixel_colored(self, pos: (int, int)) -> StateView {
        let img = self.image();
        self.with_image(
            self.image_with_pixels_at(mirror_positions_of(img.width as int, img.height as int, pos.0, pos.1, self.mirror), self.color),
        )
    }

    /// After putting down the selection, a copy of the palette in use inserted
    /// after it (or first, when the built-in palette is in use) and chosen.
    /// A font has no palettes to add to.
    pub open spec fn palette_added(self) -> (StateView, bool) {
        let t = self.unselected();
        match t.current.data {
            DataView::Ahi { palette_index, palettes, image_index, images } => {
                let i = if palette_index < palettes.len() { palette_index + 1 } else { 0 };
                (
                    t.with_data(
                        DataView::Ahi {
                            palette_index: i as nat,
                            palettes: palettes.insert(i as int, t.current.data.palette()),
                            image_index,
                            images,
                        },
                    ),
                    true,
                )
            },
            DataView::Ahf { .. } => (t, false),
        }
    }

    /// After putting down the selection, the chosen palette removed and the
    /// one before it chosen (or the built-in palette, when it was the first).
    /// Nothing is removed while the built-in palette is in use.
    pub open spec fn palette_deleted(self) -> (StateView, bool) {
        let t = self.unselected();
        match t.current.data {
            DataView::Ahi { palette_index, palettes, image_index, images } => if palette_index < palettes.len() {
                let rest = palettes.remove(palette_index as int);
                (
                    t.with_data(
                        DataView::Ahi {
                            palette_index: if palette_index > 0 { (palette_index - 1) as nat } else { rest.len() },
                            palettes: rest,
                            image_index,
                            images,
                        },
                    ),
                    true,
                )
            } else {
                (t, false)
            },
            DataView::Ahf { .. } => (t, false),
        }
    }

    /// After putting down the selection, the entry of `color` in the chosen
    /// palette set to `rgba`. The built-in palette cannot change.
    pub open spec fn palette_color_set(self, color: Color, rgba: Rgba) -> (StateView, bool) {
        let t = self.unselected();
        match t.current.data {
            DataView::Ahi { palette_index, palettes, image_index, images } => if palette_index < palettes.len() {
                (
                    t.with_data(
                        DataView::Ahi {
                            palette_index,
                            palettes: palettes.update(
                                palette_index as int,
                                palettes[palette_index as int].update(color_code(color) as int, rgba),
                            ),
                            image_index,
                            images,
                        },
                    ),
                    true,
                )
            } else {
                (t, false)
            },
            DataView::Ahf { .. } => (t, false),
        }
    }

    /// After putting down the selection, a transparent image of the current
    /// size inserted after the current one and edited. In a font, `chr` is
    /// edited, and it gets a transparent glyph of the current size when it
    /// had none of its own.
    pub open spec fn image_added(self, chr: char) -> (StateView, bool) {
        let t = self.unselected();
        let img = t.image();
        let blank = blank_image(img.width, img.height);
        match t.current.data {
            DataView::Ahi { palette_index, palettes, image_index, images } => (
                t.with_data(
                    DataView::Ahi {
                        palette_index,
                        palettes,
                        image_index: image_index + 1,
                        images: images.insert(image_index + 1 as int, blank),
                    },
                ),
                true,
            ),
            DataView::Ahf { font, .. } => if font.has(chr) {
                (t.with_data(DataView::Ahf { current_char: Some(chr), font }), false)
            } else {
                (
                    t.with_data(
                        DataView::Ahf {
                            current_char: Some(chr),
                            font: font.with_char_glyph(
                                chr,
                                GlyphView { image: blank, left_edge: 0, right_edge: 1 + img.width as int },
                            ),
                        },
                    ),
                    true,
                )
            },
        }
    }

    /// After putting down the selection, the current image removed, unless
    /// it is the only one; the image after it is edited, or the one before
    /// it when it was the last. In a font, the glyph of the character being
    /// edited is removed and the default glyph edited.
    pub open spec fn image_deleted(self) -> (StateView, bool) {
        let t = self.unselected();
        match t.current.data {
            DataView::Ahi { palette_index, palettes, image_index, images } => if images.len() > 1 {
                let rest = images.remove(image_index as int);
                (
                    t.with_data(
                        DataView::Ahi {
                            palette_index,
                            palettes,
                            image_index: if image_index == rest.len() { (image_index - 1) as nat } else { image_index },
                            images: rest,
                        },
                    ),
                    true,
                )
            } else {
                (t, false)
            },
            DataView::Ahf { current_char, font } => match current_char {
                Some(c) => (t.with_data(DataView::Ahf { current_char: None, font: font.without_char(c) }), true),
                None => (t, false),
            },
        }
    }

    /// In a collection, the current image with `metadata`.
    pub open spec fn metadata_set(self, metadata: Seq<i16>) -> StateView {
        match self.current.data {
            DataView::Ahi { .. } => self.with_image(self.image().with_metadata(metadata)),
            DataView::Ahf { .. } => self,
        }
    }

    /// In a collection, the current image with `tag`.
    pub open spec fn tag_set(self, tag: Seq<char>) -> StateView {
        match self.current.data {
            DataView::Ahi { .. } => self.with_image(self.image().with_tag(tag)),
            DataView::Ahf { .. } => self,
        }
    }

    /// In a font, the baseline set, and the edges of the glyph being edited.
    pub open spec fn metrics_set(self, baseline: int, left_edge: int, right_edge: int) -> StateView {
        match self.current.data {
            DataView::Ahi { .. } => self,
            DataView::Ahf { current_char, font } => {
                let f = FontView { baseline, ..font };
                match current_char {
                    Some(c) => self.with_data(
                        DataView::Ahf {
                            current_char,
                            font: f.with_glyph_at(c, GlyphView { left_edge, right_edge, ..f.glyph(c) }),
                        },
                    ),
                    None => self.with_data(
                        DataView::Ahf {
                            current_char,
                            font: FontView { default_glyph: GlyphView { left_edge, right_edge, ..f.default_glyph }, ..f },
                        },
                    ),
                }
            },
        }
    }

    /// The selection mirrored left to right, or the whole image when nothing
    /// is selected.
    pub open spec fn selection_flipped_horz(self) -> StateView {
        match self.current.selection {
            Some((img, pos)) => self.with_selection(Some((img.flipped_horz(), pos))),
            None => self.with_image(self.image().flipped_horz()),
        }
    }

    /// The selection mirrored top to bottom, or the whole image when nothing
    /// is selected.
    pub open spec fn selection_flipped_vert(self) -> StateView {
        match self.current.selection {
            Some((img, pos)) => self.with_selection(Some((img.flipped_vert(), pos))),
            None => self.with_image(self.image().flipped_vert()),
        }
    }

    /// The image cleared and `img` drawn at its top-left corner.
    pub open spec fn image_replaced_by(self, img: ImageView) -> StateView {
        self.with_image(self.image().cleared().drawn(img, 0, 0))
    }

    /// The selection turned a quarter clockwise, or else the whole image,
    /// kept at its size.
    pub open spec fn selection_rotated_cw(self) -> StateView {
        match self.current.selection {
            Some((img, pos)) => self.with_selection(Some((img.rotated_cw(), pos))),
            None => self.image_replaced_by(self.image().rotated_cw()),
        }
    }

    /// The selection turned a quarter counterclockwise, or else the whole
    /// image, kept at its size.
    pub open spec fn selection_rotated_ccw(self) -> StateView {
        match self.current.selection {
            Some((img, pos)) => self.with_selection(Some((img.rotated_ccw(), pos))),
            None => self.image_replaced_by(self.image().rotated_ccw()),
        }
    }

    /// The selection scaled up twice, or else the whole image, kept at its
    /// size.
    pub open spec fn selection_scaled_2x(self) -> StateView {
        match self.current.selection {
            Some((img, pos)) => self.with_selection(Some((scaled_2x(img), pos))),
            None => self.image_replaced_by(scaled_2x(self.image())),
        }
    }

    /// The selection moved to the clipboard; or, with nothing selected, the
    /// whole image copied there at the origin and then cleared.
    pub open spec fn selection_cut(self) -> StateView {
        match self.current.selection {
            Some(sel) => StateView { clipboard: Some(sel), ..self.with_selection(None) },
            None => StateView { clipboard: Some((self.image(), (0, 0))), ..self.with_image(self.image().cleared()) },
        }
    }

    /// The selection, or else the whole image at the origin, copied to the
    /// clipboard.
    pub open spec fn selection_copied(self) -> StateView {
        match self.current.selection {
            Some(sel) => StateView { clipboard: Some(sel), ..self },
            None => StateView { clipboard: Some((self.image(), (0, 0))), ..self },
        }
    }

    /// With something on the clipboard, the selection put down and the
    /// clipboard's content selected, with the select tool chosen.
    pub open spec fn selection_pasted(self) -> StateView {
        if self.clipboard is Some {
            StateView { tool: Tool::Select, ..self.unselected().with_selection(self.clipboard) }
        } else {
            self
        }
    }

    /// The selection, if any, moved to `pos`.
    pub open spec fn selection_repositioned(self, pos: (int, int)) -> StateView {
        match self.current.selection {
            Some((img, _)) => self.with_selection(Some((img, pos))),
            None => self,
        }
    }
}

/// The image scaled up twice: each pixel becomes a two-by-two square. It has
/// no tag or metadata.
pub open spec fn scaled_2x(img: ImageView) -> ImageView {
    blank_image(2 * img.width, 2 * img.height).with_pixels(
        2 * img.width,
        2 * img.height,
        |c: int, r: int| img.at(c / 2, r / 2),
    )
}

/// The glyph with its image cropped to the given size.
pub open spec fn glyph_cropped(g: GlyphView, width: nat, height: nat) -> GlyphView {
    GlyphView { image: g.image.cropped(width, height), ..g }
}

/// A font of glyphs of height `h`: every glyph, the default one included,
/// cropped to that height; the baseline starts over at zero.
pub open spec fn font_with_height(font: FontView, h: nat) -> FontView {
    FontView {
        glyphs: font.glyphs.map_values(|p: (char, GlyphView)| (p.0, glyph_cropped(p.1, p.1.image.width, h))),
        default_glyph: glyph_cropped(font.default_glyph, font.default_glyph.image.width, h),
        baseline: 0,
        glyph_height: h,
    }
}

/// The lowest of `s`, or zero for an empty sequence.
pub open spec fn seq_min(s: Seq<int>) -> int
    decreases s.len(),
{
    if s.len() == 0 {
        0
    } else if s.len() == 1 {
        s[0]
    } else if s.last() < seq_min(s.drop_last()) {
        s.last()
    } else {
        seq_min(s.drop_last())
    }
}

/// The highest of `s`, or zero for an empty sequence.
pub open spec fn seq_max(s: Seq<int>) -> int
    decreases s.len(),
{
    if s.len() == 0 {
        0
    } else if s.len() == 1 {
        s[0]
    } else if s.last() > seq_max(s.drop_last()) {
        s.last()
    } else {
        seq_max(s.drop_last())
    }
}

/// The columns of `vs`.
pub open spec fn xs_of(vs: Seq<(u32, u32)>) -> Seq<int> {
    vs.map_values(|p: (u32, u32)| p.0 as int)
}

/// The rows of `vs`.
pub open spec fn ys_of(vs: Seq<(u32, u32)>) -> Seq<int> {
    vs.map_values(|p: (u32, u32)| p.1 as int)
}

/// Whether `(c, r)` is one of `vs`.
pub open spec fn has_vertex(vs: Seq<(u32, u32)>, c: int, r: int) -> bool {
    exists|k: int| 0 <= k < vs.len() && (#[trigger] vs[k]).0 == c && vs[k].1 == r
}

impl StateView {
    /// The selection put down, then the pixels of the rectangle `r` (left,
    /// top, width, height) lifted into a selection at its corner, leaving
    /// transparent pixels behind, with the select tool chosen.
    pub open spec fn rect_selected(self, r: (int, int, int, int)) -> StateView {
        let t = self.unselected();
        let img = t.image();
        let sel = blank_image(r.2 as nat, r.3 as nat).drawn(img, -r.0, -r.1);
        StateView {
            tool: Tool::Select,
            ..t.with_selection(Some((sel, (r.0, r.1)))).with_image(img.filled_rect(r.0, r.1, r.2 as nat, r.3 as nat, Color::C0))
        }
    }

    /// The selection put down, then the pixels at `vs` lifted into a
    /// selection whose corner is the top-left corner of their bounding box,
    /// leaving transparent pixels behind, with the select tool chosen.
    pub open spec fn lassoed(self, vs: Seq<(u32, u32)>) -> StateView {
        let t = self.unselected();
        let img = t.image();
        let min_x = seq_min(xs_of(vs));
        let min_y = seq_min(ys_of(vs));
        let max_x = if vs.len() == 0 { 0 } else { seq_max(xs_of(vs)) + 1 };
        let max_y = if vs.len() == 0 { 0 } else { seq_max(ys_of(vs)) + 1 };
        let sel = blank_image((max_x - min_x) as nat, (max_y - min_y) as nat).with_pixels(
            (max_x - min_x) as nat,
            (max_y - min_y) as nat,
            |c: int, r: int| if has_vertex(vs, c + min_x, r + min_y) { img.at(c + min_x, r + min_y) } else { Color::C0 },
        );
        let rest = img.with_pixels(
            img.width,
            img.height,
            |c: int, r: int| if has_vertex(vs, c, r) { Color::C0 } else { img.at(c, r) },
        );
        StateView {
            tool: Tool::Select,
            ..t.with_image(rest).with_selection(
                Some((sel, (crate::geometry::clamp_position(wrapped_i32(min_x)), crate::geometry::clamp_position(wrapped_i32(min_y))))),
            )
        }
    }

    /// After putting down the selection, every image cropped to the given
    /// size. In a font, a new height crops every glyph to it first (and the
    /// baseline starts over); then the glyph being edited is cropped to the
    /// new width, and given to the character being edited as its own.
    pub open spec fn resized(self, w: nat, h: nat) -> StateView {
        let t = self.unselected();
        match t.current.data {
            DataView::Ahi { palette_index, palettes, image_index, images } => t.with_data(
                DataView::Ahi {
                    palette_index,
                    palettes,
                    image_index,
                    images: images.map_values(|i: ImageView| i.cropped(w, h)),
                },
            ),
            DataView::Ahf { current_char, font } => {
                let f1 = if h != font.glyph_height { font_with_height(font, h) } else { font };
                let f2 = match current_char {
                    Some(c) => f1.with_char_glyph(c, glyph_cropped(f1.glyph(c), w, f1.glyph(c).image.height)),
                    None => FontView {
                        default_glyph: glyph_cropped(f1.default_glyph, w, f1.default_glyph.image.height),
                        ..f1
                    },
                };
                t.with_data(DataView::Ahf { current_char, font: f2 })
            },
        }
    }
}

/// An unsigned 32-bit value read as a signed one, as `v as i32` reads it:
/// the values above `i32::MAX` wrap around to negative ones.
pub open spec fn wrapped_i32(v: int) -> int {
    if v > i32::MAX {
        v - 0x1_0000_0000
    } else {
        v
    }
}

/// `v as i32`.
fn wrap_to_i32(v: u32) -> (r: i32)
    ensures
        r == wrapped_i32(v as int),
{
    if v <= 0x7fff_ffff {
        v as i32
    } else {
        ((v - 0x8000_0000) as i32) + i32::MIN
    }
}

/// The positions that the pencil paints when the user paints `(x, y)` on an
/// image of the given size: the position itself, then its mirror images under
/// `mirror`. A quarter turn of a non-square image is taken about the centre
/// of its largest centred square, and positions that it sends off the image
/// are left out.
pub open spec fn mirror_positions_of(width: int, height: int, x: int, y: int, mirror: Mirror) -> Seq<(int, int)> {
    let s1 = seq![(x, y)];
    let s2 = if mirror == Mirror::Horz || mirror == Mirror::Both {
        s1.push((width - x - 1, y))
    } else {
        s1
    };
    let s3 = if mirror == Mirror::Vert || mirror == Mirror::Both {
        s2.push((x, height - y - 1))
    } else {
        s2
    };
    let s4 = if mirror == Mirror::Both || mirror == Mirror::Rot2 || mirror == Mirror::Rot4 {
        s3.push((width - x - 1, height - y - 1))
    } else {
        s3
    };
    if mirror == Mirror::Rot4 {
        let d = if width > height {
            (width - height) / 2
        } else if height > width {
            -((height - width) / 2)
        } else {
            0
        };
        let x1 = height - y - 1 + d;
        let y1 = x - d;
        let x2 = y + d;
        let y2 = width - x - 1 - d;
        let s5 = if 0 <= x1 < width && 0 <= y1 < height { s4.push((x1, y1)) } else { s4 };
        if 0 <= x2 < width && 0 <= y2 < height { s5.push((x2, y2)) } else { s5 }
    } else {
        s4
    }
}

//---------------------------------------------------------------------------//

struct AhiData {
    palette_index: usize,
    palettes: Vec<Palette>,
    image_index: usize,
    images: Vec<Image>,
}

struct AhfData {
    current_char: Option<char>,
    font: Font,
}

enum Data {
    AHI(AhiData),
    AHF(AhfData),
}

struct Snapshot {
    data: Data,
    selection: Option<(Image, Point)>,
    unsaved: bool,
}

impl View for Data {
    type V = DataView;

    closed spec fn view(&self) -> DataView {
        match self {
            Data::AHI(ahi) => DataView::Ahi {
                palette_index: ahi.palette_index as nat,
                palettes: ahi.palettes@.map_values(|p: Palette| p@),
                image_index: ahi.image_index as nat,
                images: ahi.images@.map_values(|i: Image| i@),
            },
            Data::AHF(ahf) => DataView::Ahf { current_char: ahf.current_char, font: ahf.font@ },
        }
    }
}

spec fn selection_view(sel: Option<(Image, Point)>) -> SelectionView {
    match sel {
        Some((img, pt)) => Some((img@, pt@)),
        None => None,
    }
}

impl View for Snapshot {
    type V = SnapshotView;

    closed spec fn view(&self) -> SnapshotView {
        SnapshotView { data: self.data@, selection: selection_view(self.selection), unsaved: self.unsaved }
    }
}

/// The editor state.
pub struct EditorState {
    color: Color,
    filepath: String,
    current: Snapshot,
    undo_stack: Vec<Snapshot>,
    redo_stack: Vec<Snapshot>,
    clipboard: Option<(Image, Point)>,
    tool: Tool,
    prev_tool: Tool,
    mirror: Mirror,
    persistent_mutation_active: bool,
    test_sentence: String,
}

impl View for EditorState {
    type V = StateView;

    closed spec fn view(&self) -> StateView {
        StateView {
            color: self.color,
            filepath: self.filepath@,
            current: self.current@,
            undo_stack: self.undo_stack@.map_values(|s: Snapshot| s@),
            redo_stack: self.redo_stack@.map_values(|s: Snapshot| s@),
            clipboard: selection_view(self.clipboard),
            tool: self.tool,
            prev_tool: self.prev_tool,
            mirror: self.mirror,
            persistent_mutation_active: self.persistent_mutation_active,
            test_sentence: self.test_sentence@,
        }
    }
}

fn duplicate_selection(sel: &Option<(Image, Point)>) -> (r: Option<(Image, Point)>)
    requires
        selection_wf(selection_view(*sel)),
    ensures
        selection_view(r) == selection_view(*sel),
{
    match sel {
        Some((img, pt)) => Some((img.duplicate(), *pt)),
        None => None,
    }
}

impl Data {
    fn duplicate(&self) -> (d: Data)
        requires
            self@.wf(),
        ensures
            d@ == self@,
    {
        match self {
            Data::AHI(ahi) => {
                let mut palettes: Vec<Palette> = Vec::new();
                for i in 0..ahi.palettes.len()
                    invariant
                        palettes@.len() == i,
                        forall|j: int| 0 <= j < i ==> (#[trigger] palettes@[j])@ == ahi.palettes@[j]@,
                {
                    palettes.push(ahi.palettes[i].duplicate());
                }
                let mut images: Vec<Image> = Vec::new();
                for i in 0..ahi.images.len()
                    invariant
                        self@.wf(),
                        *self == Data::AHI(*ahi),
                        images@.len() == i,
                        forall|j: int| 0 <= j < i ==> (#[trigger] images@[j])@ == ahi.images@[j]@,
                {
                    assert(self@->Ahi_images[i as int] == ahi.images@[i as int]@);
                    images.push(ahi.images[i].duplicate());
                }
                let d = Data::AHI(AhiData {
                    palette_index: ahi.palette_index,
                    palettes,
                    image_index: ahi.image_index,
                    images,
                });
                assert(d@->Ahi_palettes =~= self@->Ahi_palettes);
                assert(d@->Ahi_images =~= self@->Ahi_images);
                d
            },
            Data::AHF(ahf) => Data::AHF(AhfData { current_char: ahf.current_char, font: ahf.font.duplicate() }),
        }
    }
}

impl Data {
    fn image_mut(&mut self) -> (r: &mut Image)
        requires
            old(self)@.wf(),
        ensures
            r@ == old(self)@.current_image(),
            r.wf(),
            final(self)@ == old(self)@.with_current_image(final(r)@),
    {
        match self {
            Data::AHI(ahi) => ahi.image_mut(),
            Data::AHF(ahf) => ahf.image_mut(),
        }
    }
}

impl AhiData {
    spec fn images_view(&self) -> Seq<ImageView> {
        self.images@.map_values(|i: Image| i@)
    }

    fn image_mut(&mut self) -> (r: &mut Image)
        requires
            old(self).image_index < old(self).images@.len(),
            old(self).images_view()[old(self).image_index as int].wf(),
        ensures
            r@ == old(self).images_view()[old(self).image_index as int],
            r.wf(),
            final(self).image_index == old(self).image_index,
            final(self).palette_index == old(self).palette_index,
            final(self).palettes == old(self).palettes,
            final(self).images_view() == old(self).images_view().update(old(self).image_index as int, final(r)@),
    {
        &mut self.images[self.image_index]
    }
}

impl AhfData {
    fn image_mut(&mut self) -> (r: &mut Image)
        requires
            old(self).font.wf(),
        ensures
            r@ == (match old(self).current_char {
                Some(c) => old(self).font@.glyph(c).image,
                None => old(self).font@.default_glyph.image,
            }),
            r.wf(),
            final(self).current_char == old(self).current_char,
            final(self).font@ == (match old(self).current_char {
                Some(c) => old(self).font@.with_glyph_at(c, GlyphView { image: final(r)@, ..old(self).font@.glyph(c) }),
                None => FontView { default_glyph: GlyphView { image: final(r)@, ..old(self).font@.default_glyph }, ..old(self).font@ },
            }),
    {
        match self.current_char {
            Some(chr) => self.font.glyph_mut(chr).image_mut(),
            None => self.font.default_glyph_mut().image_mut(),
        }
    }
}

impl Snapshot {
    fn duplicate(&self) -> (s: Snapshot)
        requires
            self@.wf(),
        ensures
            s@ == self@,
    {
        Snapshot { data: self.data.duplicate(), selection: duplicate_selection(&self.selection), unsaved: self.unsaved }
    }
}


/// Where an editing operation goes: the state whose current snapshot it
/// changes, after the change was recorded for undoing.
pub struct Mutation<'a> {
    pub state: &'a mut EditorState,
}

impl EditorState {
    pub open spec fn wf(&self) -> bool {
        self@.wf()
    }

    /// The state in which the editor starts on `collection`, stored at
    /// `filepath`.
    pub open spec fn initial(filepath: Seq<char>, data: DataView) -> StateView {
        StateView {
            color: Color::C1,
            filepath,
            current: SnapshotView { data, selection: None, unsaved: false },
            undo_stack: Seq::empty(),
            redo_stack: Seq::empty(),
            clipboard: None,
            tool: Tool::Pencil,
            prev_tool: Tool::Pencil,
            mirror: Mirror::NoMirror,
            persistent_mutation_active: false,
            test_sentence: DEFAULT_TEST_SENTENCE@,
        }
    }

    /// The document made of a collection: its palettes and its images, or a
    /// single transparent 32-by-32 image when it has none, with the first
    /// palette and the first image chosen.
    pub open spec fn collection_data(images: Seq<ImageView>, palettes: Seq<Seq<Rgba>>) -> DataView {
        DataView::Ahi {
            palette_index: 0,
            palettes,
            image_index: 0,
            images: if images.len() == 0 { seq![blank_image(32, 32)] } else { images },
        }
    }

    fn data_from_collection(collection: Collection) -> (d: Data)
        requires
            collection.wf(),
        ensures
            d@ == Self::collection_data(
                collection.images@.map_values(|i: Image| i@),
                collection.palettes@.map_values(|p: Palette| p@),
            ),
            d@.wf(),
    {
        let Collection { mut images, palettes } = collection;
        let ghost old_images = images@;
        if images.len() == 0 {
            images.push(Image::new(32, 32));
            assert(images@.map_values(|i: Image| i@) =~= seq![blank_image(32, 32)]);
        }
        let d = Data::AHI(AhiData { palette_index: 0, palettes, image_index: 0, images });
        assert(d@ =~= Self::collection_data(
            old_images.map_values(|i: Image| i@),
            palettes@.map_values(|p: Palette| p@),
        ));
        d
    }

    /// The editor on `collection`, stored at `filepath`.
    pub fn new(filepath: String, collection: Collection) -> (s: EditorState)
        requires
            collection.wf(),
        ensures
            s.wf(),
            s@ == Self::initial(
                filepath@,
                Self::collection_data(
                    collection.images@.map_values(|i: Image| i@),
                    collection.palettes@.map_values(|p: Palette| p@),
                ),
            ),
    {
        let ghost fp = filepath@;
        let ghost images = collection.images@.map_values(|i: Image| i@);
        let ghost palettes = collection.palettes@.map_values(|p: Palette| p@);
        let data = Self::data_from_collection(collection);
        let s = EditorState {
            color: Color::C1,
            filepath,
            current: Snapshot { data, selection: None, unsaved: false },
            undo_stack: Vec::new(),
            redo_stack: Vec::new(),
            clipboard: None,
            tool: Tool::Pencil,
            prev_tool: Tool::Pencil,
            mirror: Mirror::NoMirror,
            persistent_mutation_active: false,
            test_sentence: DEFAULT_TEST_SENTENCE.to_owned(),
        };
        assert(s@ =~= Self::initial(fp, Self::collection_data(images, palettes)));
        s
    }

    /// Whether the document changed since it was last saved.
    pub fn is_unsaved(&self) -> (b: bool)
        ensures
            b == self@.current.unsaved,
    {
        self.current.unsaved
    }

    pub fn filepath(&self) -> (p: &String)
        ensures
            p@ == self@.filepath,
    {
        &self.filepath
    }

    /// Sets the file path and gives back the former one.
    pub fn swap_filepath(&mut self, path: String) -> (former: String)
        requires
            old(self).wf(),
        ensures
            former@ == old(self)@.filepath,
            final(self)@ == (StateView { filepath: path@, ..old(self)@ }),
            final(self).wf(),
    {
        let mut path = path;
        std::mem::swap(&mut path, &mut self.filepath);
        assert(self@ =~= (StateView { filepath: self.filepath@, ..old(self)@ }));
        path
    }

    /// Ends a save under a new path, begun with `swap_filepath`: when the
    /// write failed, the path from before, `former`, comes back.
    pub fn save_as_done(&mut self, former: String, succeeded: bool)
        requires
            old(self).wf(),
        ensures
            final(self).wf(),
            succeeded ==> final(self)@ == old(self)@,
            !succeeded ==> final(self)@ == (StateView { filepath: former@, ..old(self)@ }),
    {
        if !succeeded {
            self.swap_filepath(former);
        }
    }

    pub fn color(&self) -> (c: Color)
        ensures
            c == self@.color,
    {
        self.color
    }

    pub fn set_color(&mut self, color: Color)
        requires
            old(self).wf(),
        ensures
            final(self)@ == (StateView { color, ..old(self)@ }),
            final(self).wf(),
    {
        self.color = color;
        assert(self@ =~= (StateView { color, ..old(self)@ }));
    }

    pub fn tool(&self) -> (t: Tool)
        ensures
            t == self@.tool,
    {
        self.tool
    }

    pub fn mirror(&self) -> (m: Mirror)
        ensures
            m == self@.mirror,
    {
        self.mirror
    }

    pub fn set_mirror(&mut self, mirror: Mirror)
        requires
            old(self).wf(),
        ensures
            final(self)@ == (StateView { mirror, ..old(self)@ }),
            final(self).wf(),
    {
        self.mirror = mirror;
        assert(self@ =~= (StateView { mirror, ..old(self)@ }));
    }

    pub fn test_sentence(&self) -> (t: &String)
        ensures
            t@ == self@.test_sentence,
    {
        &self.test_sentence
    }

    pub fn set_test_sentence(&mut self, text: String)
        requires
            old(self).wf(),
        ensures
            final(self)@ == (StateView { test_sentence: text@, ..old(self)@ }),
            final(self).wf(),
    {
        let ghost t = text@;
        self.test_sentence = text;
        assert(self@ =~= (StateView { test_sentence: t, ..old(self)@ }));
    }

    /// Ends any persistent mutation, so that the next one records its own
    /// undo snapshot.
    pub fn reset_persistent_mutation(&mut self)
        requires
            old(self).wf(),
        ensures
            final(self)@ == (StateView { persistent_mutation_active: false, ..old(self)@ }),
            final(self).wf(),
    {
        self.persistent_mutation_active = false;
        assert(self@ =~= (StateView { persistent_mutation_active: false, ..old(self)@ }));
    }

    fn push_change(&mut self)
        requires
            old(self).wf(),
        ensures
            final(self)@ == old(self)@.pushed_change(),
            final(self).wf(),
    {
        let ghost v = self@;
        self.reset_persistent_mutation();
        self.redo_stack.clear();
        let snapshot = self.current.duplicate();
        self.undo_stack.push(snapshot);
        let ghost pushed = v.undo_stack.push(v.current);
        assert(self.undo_stack@.map_values(|s: Snapshot| s@) =~= pushed);
        if self.undo_stack.len() > MAX_UNDOS {
            self.undo_stack.remove(0);
            assert(self.undo_stack@.map_values(|s: Snapshot| s@) =~= pushed.subrange(1, pushed.len() as int));
        }
        assert(self@ =~= v.pushed_change());
    }

    /// Records the current snapshot for undoing, marks the document unsaved,
    /// and hands out the state for an editing operation.
    pub fn mutation(&mut self) -> (m: Mutation<'_>)
        requires
            old(self).wf(),
        ensures
            m.state@ == old(self)@.mutation_begun(),
            m.state.wf(),
            *final(self) == *final(m.state),
    {
        self.push_change();
        self.current.unsaved = true;
        assert(self@ =~= old(self)@.mutation_begun());
        Mutation { state: self }
    }

    /// Like `mutation`, except that a run of persistent mutations records a
    /// single undo snapshot, until `reset_persistent_mutation` or another
    /// change ends the run.
    pub fn persistent_mutation(&mut self) -> (m: Mutation<'_>)
        requires
            old(self).wf(),
        ensures
            m.state@ == old(self)@.persistent_mutation_begun(),
            m.state.wf(),
            *final(self) == *final(m.state),
    {
        if !self.persistent_mutation_active {
            self.push_change();
            self.persistent_mutation_active = true;
        }
        self.current.unsaved = true;
        assert(self@ =~= old(self)@.persistent_mutation_begun());
        Mutation { state: self }
    }

    /// Putting a well-formed image in place of the one being edited keeps the
    /// state well formed.
    pub proof fn lemma_with_image_wf(v: StateView, img: ImageView)
        requires
            v.wf(),
            img.wf(),
        ensures
            v.with_image(img).wf(),
    {
        match v.current.data {
            DataView::Ahi { images, image_index, .. } => {
                let w = v.with_image(img);
                assert forall|i: int| 0 <= i < images.len() implies (#[trigger] w.current.data->Ahi_images[i]).wf() by {
                    if i != image_index {
                        assert(w.current.data->Ahi_images[i] == images[i]);
                    }
                }
            },
            DataView::Ahf { current_char, font } => {
                match current_char {
                    Some(c) => {
                        Font::lemma_with_glyph_at_wf(font, c, GlyphView { image: img, ..font.glyph(c) });
                    },
                    None => {},
                }
            },
        }
    }

    /// The image being edited is the one just put in place.
    pub proof fn lemma_with_image_image(v: StateView, img: ImageView)
        requires
            v.wf(),
            img.wf(),
        ensures
            v.with_image(img).image() == img,
    {
        match v.current.data {
            DataView::Ahf { current_char, font } => {
                match current_char {
                    Some(c) => {
                        let g = GlyphView { image: img, ..font.glyph(c) };
                        let f2 = font.with_glyph_at(c, g);
                        if font.has(c) {
                            let p = font.position(c);
                            assert(f2.glyphs[p].0 == c);
                            Font::lemma_with_glyph_at_wf(font, c, g);
                            Font::lemma_position_unique(f2, c, p);
                        } else {
                            assert(!f2.has(c)) by {
                                if f2.has(c) {
                                    let k = choose|k: int| 0 <= k < f2.glyphs.len() && (#[trigger] f2.glyphs[k]).0 == c;
                                    assert(font.glyphs[k].0 == c);
                                }
                            }
                        }
                    },
                    None => {},
                }
            },
            DataView::Ahi { .. } => {},
        }
    }

    /// Putting the selection down keeps the image's size, and the state well
    /// formed.
    pub proof fn lemma_unselected_image(v: StateView)
        requires
            v.wf(),
        ensures
            v.unselected().wf(),
            v.unselected().image().width == v.image().width,
            v.unselected().image().height == v.image().height,
    {
        match v.current.selection {
            Some((img, pos)) => {
                let w = v.with_selection(None);
                let d = w.image().drawn(img, pos.0, pos.1);
                assert(d.wf());
                Self::lemma_with_image_image(w, d);
                Self::lemma_with_image_wf(w, d);
            },
            None => {},
        }
    }

    /// The image being edited, to be changed in place.
    fn image_mut(&mut self) -> (r: &mut Image)
        requires
            old(self).wf(),
        ensures
            r@ == old(self)@.image(),
            r.wf(),
            final(self)@ == old(self)@.with_image(final(r)@),
    {
        self.current.data.image_mut()
    }

    /// Draws the selection, if any, back onto the image.
    fn put_down_selection(&mut self)
        requires
            old(self).wf(),
        ensures
            final(self)@ == old(self)@.unselected(),
            final(self).wf(),
    {
        let ghost v = self@;
        match self.current.selection.take() {
            Some((image, position)) => {
                assert(self@ == v.with_selection(None));
                let target = self.image_mut();
                target.draw(&image, position.x(), position.y());
                proof {
                    Self::lemma_with_image_wf(v.with_selection(None), target@);
                }
            },
            None => {
                assert(self@ =~= v);
            },
        }
    }

    /// Ends any persistent mutation and puts down any selection.
    pub fn unselect_if_necessary(&mut self)
        requires
            old(self).wf(),
        ensures
            final(self)@ == old(self)@.unselected_if_necessary(),
            final(self).wf(),
    {
        self.reset_persistent_mutation();
        if self.current.selection.is_some() {
            self.mutation().unselect();
        }
    }

    /// Changes the tool, after putting down any selection.
    pub fn set_tool(&mut self, tool: Tool)
        requires
            old(self).wf(),
        ensures
            final(self)@ == old(self)@.with_tool(tool),
            final(self).wf(),
    {
        if self.tool != tool {
            self.unselect_if_necessary();
            self.prev_tool = self.tool;
            self.tool = tool;
            assert(self@ =~= old(self)@.with_tool(tool));
        }
    }

    /// The image being edited.
    pub fn image(&self) -> (img: &Image)
        requires
            self.wf(),
        ensures
            img@ == self@.image(),
            img.wf(),
    {
        match &self.current.data {
            Data::AHI(ahi) => {
                assert(ahi.images@[ahi.image_index as int]@ == self@.image());
                &ahi.images[ahi.image_index]
            },
            Data::AHF(ahf) => match ahf.current_char {
                Some(chr) => ahf.font.glyph(chr).image(),
                None => ahf.font.default_glyph().image(),
            },
        }
    }

    /// The width and height of the image being edited.
    pub fn image_size(&self) -> (size: (u32, u32))
        requires
            self.wf(),
        ensures
            size.0 == self@.image().width,
            size.1 == self@.image().height,
    {
        let image = self.image();
        (image.width(), image.height())
    }

    /// The image at `index`, counted as `image_index` counts.
    pub fn image_at(&self, index: usize) -> (img: &Image)
        requires
            self.wf(),
            index < self@.current.data.num_images(),
        ensures
            img@ == self@.current.data.image_at(index as int),
            img.wf(),
    {
        match &self.current.data {
            Data::AHI(ahi) => {
                assert(ahi.images@[index as int]@ == self@.current.data.image_at(index as int));
                &ahi.images[index]
            },
            Data::AHF(ahf) => {
                if index == 0 {
                    ahf.font.default_glyph().image()
                } else {
                    let chr = ahf.font.char_at(index - 1);
                    proof {
                        Font::lemma_position_unique(ahf.font@, chr, index - 1);
                    }
                    ahf.font.glyph(chr).image()
                }
            },
        }
    }

    /// The font being edited, if it is a font.
    pub fn font(&self) -> (f: Option<&Font>)
        ensures
            match self@.current.data {
                DataView::Ahi { .. } => f is None,
                DataView::Ahf { font, .. } => f matches Some(f) && f@ == font,
            },
    {
        match &self.current.data {
            Data::AHI(_) => None,
            Data::AHF(ahf) => Some(&ahf.font),
        }
    }

    /// The selection, if any: its pixels and the position of its top-left
    /// corner.
    pub fn selection(&self) -> (sel: Option<(&Image, Point)>)
        ensures
            match self@.current.selection {
                Some((img, pos)) => sel matches Some((i, p)) && i@ == img && p@ == pos,
                None => sel is None,
            },
    {
        match &self.current.selection {
            Some((image, position)) => Some((image, *position)),
            None => None,
        }
    }

    /// The rectangle that the selection covers, if any.
    pub fn selection_rect(&self) -> (r: Option<Rect>)
        ensures
            match self@.current.selection {
                Some((img, pos)) => r matches Some(r) && r@ == (
                    clamp_position(pos.0),
                    clamp_position(pos.1),
                    clamp_size(img.width as int),
                    clamp_size(img.height as int),
                ),
                None => r is None,
            },
    {
        match &self.current.selection {
            Some((image, position)) => Some(Rect::new(position.x(), position.y(), image.width(), image.height())),
            None => None,
        }
    }

    /// Takes the color of the pixel at `position`; the eyedropper then gives
    /// way to the tool used before it, or to the pencil when that was the
    /// select tool.
    pub fn eyedrop_at(&mut self, position: (u32, u32))
        requires
            old(self).wf(),
            old(self)@.image().in_bounds(position.0 as int, position.1 as int),
        ensures
            final(self).wf(),
            final(self)@ == old(self)@.eyedropped((position.0 as int, position.1 as int)),
    {
        self.color = self.image().get(position.0, position.1);
        if self.tool == Tool::Eyedropper {
            self.tool = if self.prev_tool == Tool::Select {
                Tool::Pencil
            } else {
                self.prev_tool
            };
        }
        assert(self@ =~= old(self)@.eyedropped((position.0 as int, position.1 as int)));
    }

    /// The number of palettes; a font counts as one.
    pub fn num_palettes(&self) -> (n: usize)
        ensures
            n == self@.current.data.num_palettes(),
    {
        match &self.current.data {
            Data::AHI(ahi) => ahi.palettes.len(),
            Data::AHF(_) => 1,
        }
    }

    /// The index of the chosen palette; one past the last stands for the
    /// built-in palette.
    pub fn palette_index(&self) -> (i: usize)
        ensures
            i == self@.current.data.palette_index(),
    {
        match &self.current.data {
            Data::AHI(ahi) => ahi.palette_index,
            Data::AHF(_) => 0,
        }
    }

    /// Chooses the palette at `index`, counted modulo one more than the
    /// number of palettes; a font keeps the built-in palette.
    pub fn set_palette_index(&mut self, index: usize)
        requires
            old(self).wf(),
            old(self)@.current.data.num_palettes() < usize::MAX,
        ensures
            final(self).wf(),
            final(self)@ == (match old(self)@.current.data {
                DataView::Ahi { palettes, image_index, images, .. } => old(self)@.with_data(
                    DataView::Ahi {
                        palette_index: (index as nat) % (1 + palettes.len()),
                        palettes,
                        image_index,
                        images,
                    },
                ),
                DataView::Ahf { .. } => old(self)@,
            }),
    {
        match &mut self.current.data {
            Data::AHI(ahi) => {
                ahi.palette_index = index % (1 + ahi.palettes.len());
            },
            Data::AHF(_) => {},
        }
        assert(self@ =~= (match old(self)@.current.data {
            DataView::Ahi { palettes, image_index, images, .. } => old(self)@.with_data(
                DataView::Ahi {
                    palette_index: (index as nat) % (1 + palettes.len()),
                    palettes,
                    image_index,
                    images,
                },
            ),
            DataView::Ahf { .. } => old(self)@,
        }));
    }

    /// The palette the image is shown with.
    pub fn palette(&self) -> (p: Palette)
        requires
            self.wf(),
        ensures
            p@ == self@.current.data.palette(),
            p.wf(),
    {
        match &self.current.data {
            Data::AHI(ahi) => {
                if ahi.palette_index < ahi.palettes.len() {
                    assert(ahi.palettes@[ahi.palette_index as int]@ == self@.current.data.palette());
                    ahi.palettes[ahi.palette_index].duplicate()
                } else {
                    Palette::default()
                }
            },
            Data::AHF(_) => Palette::default(),
        }
    }

    /// The number of images; a font counts its default glyph and each glyph
    /// of its own.
    pub fn num_images(&self) -> (n: usize)
        requires
            self.wf(),
            self@.current.data.num_images() <= usize::MAX,
        ensures
            n == self@.current.data.num_images(),
    {
        match &self.current.data {
            Data::AHI(ahi) => ahi.images.len(),
            Data::AHF(ahf) => 1 + ahf.font.num_chars(),
        }
    }

    /// The number of images, when it fits `usize`.
    pub fn image_count(&self) -> (n: Option<usize>)
        requires
            self.wf(),
        ensures
            match n {
                Some(k) => k == self@.current.data.num_images(),
                None => self@.current.data.num_images() > usize::MAX,
            },
    {
        match &self.current.data {
            Data::AHI(ahi) => Some(ahi.images.len()),
            Data::AHF(ahf) => ahf.font.num_chars().checked_add(1),
        }
    }

    /// The index of the image being edited.
    pub fn image_index(&self) -> (i: usize)
        requires
            self.wf(),
            self@.current.data.num_images() <= usize::MAX,
        ensures
            i == self@.current.data.image_index(),
    {
        match &self.current.data {
            Data::AHI(ahi) => ahi.image_index,
            Data::AHF(ahf) => {
                if let Some(current) = ahf.current_char {
                    if let Some(index) = ahf.font.find(current) {
                        return index + 1;
                    }
                }
                0
            },
        }
    }

    /// Puts down any selection, then edits the image at `index`: modulo the
    /// number of images in a collection, and in a font the default glyph for
    /// zero and the glyph of the `index`-th character otherwise.
    pub fn set_image_index(&mut self, index: usize)
        requires
            old(self).wf(),
            old(self)@.current.data is Ahf ==> index < old(self)@.current.data.num_images(),
        ensures
            final(self).wf(),
            final(self)@ == old(self)@.with_image_index(index as nat),
    {
        self.unselect_if_necessary();
        let ghost t = self@;
        match &mut self.current.data {
            Data::AHI(ahi) => {
                ahi.image_index = index % ahi.images.len();
            },
            Data::AHF(ahf) => {
                if index == 0 {
                    ahf.current_char = None;
                } else {
                    let chr = ahf.font.char_at(index - 1);
                    ahf.current_char = Some(chr);
                }
            },
        }
        assert(self@ =~= old(self)@.with_image_index(index as nat));
    }

    /// Goes to the image that `text` names: in a collection its index in
    /// decimal, in a font `def` for the default glyph or a single character.
    /// Says whether `text` named one.
    pub fn go_to(&mut self, text: &str) -> (b: bool)
        requires
            old(self).wf(),
        ensures
            final(self).wf(),
            (final(self)@, b) == old(self)@.gone_to(text@),
    {
        match &mut self.current.data {
            Data::AHI(ahi) => match parse_usize(text) {
                Some(index) => {
                    if index < ahi.images.len() {
                        ahi.image_index = index;
                        assert(self@ =~= old(self)@.gone_to(text@).0);
                        true
                    } else {
                        false
                    }
                },
                None => false,
            },
            Data::AHF(ahf) => {
                let chars = chars_of(text);
                if chars.len() == 3 && chars[0] == 'd' && chars[1] == 'e' && chars[2] == 'f' {
                    assert(text@ =~= seq!['d', 'e', 'f']);
                    ahf.current_char = None;
                    assert(self@ =~= old(self)@.gone_to(text@).0);
                    true
                } else if chars.len() == 1 {
                    assert(text@ != seq!['d', 'e', 'f']);
                    ahf.current_char = Some(chars[0]);
                    assert(self@ =~= old(self)@.gone_to(text@).0);
                    true
                } else {
                    assert(text@ != seq!['d', 'e', 'f']) by {
                        if text@ == seq!['d', 'e', 'f'] {
                            assert(chars@[0] == 'd' && chars@[1] == 'e' && chars@[2] == 'f');
                        }
                    }
                    false
                }
            },
        }
    }

    /// The name of the image being edited, as the user types it for `go_to`
    /// (with the character quoted and escaped).
    pub open spec fn image_name_of(data: DataView) -> Seq<char> {
        match data {
            DataView::Ahi { image_index, .. } => decimal(image_index),
            DataView::Ahf { current_char, .. } => match current_char {
                Some(c) => seq!['\''] + escape_default(c) + seq!['\''],
                None => seq!['d', 'e', 'f'],
            },
        }
    }

    /// The name of the image being edited: its index in a collection; in a
    /// font the quoted, escaped character, or `def` for the default glyph.
    pub fn image_name(&self) -> (name: String)
        ensures
            name@ == Self::image_name_of(self@.current.data),
    {
        match &self.current.data {
            Data::AHI(ahi) => crate::util::format_decimal(ahi.image_index as u64),
            Data::AHF(ahf) => {
                if let Some(current) = ahf.current_char {
                    let mut name: Vec<char> = vec!['\''];
                    push_escaped(&mut name, current);
                    name.push('\'');
                    let s = string_of_chars(&name);
                    assert(s@ =~= Self::image_name_of(self@.current.data));
                    s
                } else {
                    let s = string_of_chars(&vec!['d', 'e', 'f']);
                    assert(s@ =~= seq!['d', 'e', 'f']);
                    s
                }
            },
        }
    }

    /// For a font, its baseline and the left and right edges of the glyph
    /// being edited.
    pub fn image_metrics(&self) -> (m: Option<(i32, i32, i32)>)
        requires
            self.wf(),
        ensures
            match self@.current.data {
                DataView::Ahi { .. } => m is None,
                DataView::Ahf { current_char, font } => {
                    let g = match current_char {
                        Some(c) => font.glyph(c),
                        None => font.default_glyph,
                    };
                    m == Some((font.baseline as i32, g.left_edge as i32, g.right_edge as i32))
                },
            },
    {
        match &self.current.data {
            Data::AHI(_) => None,
            Data::AHF(ahf) => {
                let glyph = match ahf.current_char {
                    Some(chr) => ahf.font.glyph(chr),
                    None => ahf.font.default_glyph(),
                };
                Some((ahf.font.baseline(), glyph.left_edge(), glyph.right_edge()))
            },
        }
    }

    /// The positions that the pencil paints when the user paints `(x, y)`,
    /// under the current mirror.
    pub fn mirror_positions(&self, pos: (u32, u32)) -> (ps: Vec<(u32, u32)>)
        requires
            self.wf(),
            self@.image().in_bounds(pos.0 as int, pos.1 as int),
            self@.mirror == Mirror::Rot4 ==> self@.image().width <= i32::MAX && self@.image().height <= i32::MAX,
        ensures
            ps@.map_values(|p: (u32, u32)| (p.0 as int, p.1 as int)) == mirror_positions_of(
                self@.image().width as int,
                self@.image().height as int,
                pos.0 as int,
                pos.1 as int,
                self@.mirror,
            ),
    {
        let (x, y) = pos;
        let (width, height) = self.image_size();
        let mirror = self.mirror();
        let ghost w = width as int;
        let ghost h = height as int;
        let mut positions = vec![(x, y)];
        if mirror == Mirror::Horz || mirror == Mirror::Both {
            positions.push((width - x - 1, y));
        }
        if mirror == Mirror::Vert || mirror == Mirror::Both {
            positions.push((x, height - y - 1));
        }
        if mirror == Mirror::Both || mirror == Mirror::Rot2 || mirror == Mirror::Rot4 {
            positions.push((width - x - 1, height - y - 1));
        }
        let ghost s4 = positions@;
        if mirror == Mirror::Rot4 {
            let mut x1 = (height - y - 1) as i32;
            let mut y1 = x as i32;
            let mut x2 = y as i32;
            let mut y2 = (width - x - 1) as i32;
            if width > height {
                let diff = ((width - height) / 2) as i32;
                x1 += diff;
                x2 += diff;
                y1 -= diff;
                y2 -= diff;
            }
            if height > width {
                let diff = ((height - width) / 2) as i32;
                x1 -= diff;
                x2 -= diff;
                y1 += diff;
                y2 += diff;
            }
            if x1 >= 0 && (x1 as u32) < width && y1 >= 0 && (y1 as u32) < height {
                positions.push((x1 as u32, y1 as u32));
            }
            if x2 >= 0 && (x2 as u32) < width && y2 >= 0 && (y2 as u32) < height {
                positions.push((x2 as u32, y2 as u32));
            }
        }
        assert(positions@.map_values(|p: (u32, u32)| (p.0 as int, p.1 as int)) =~= mirror_positions_of(
            w,
            h,
            x as int,
            y as int,
            mirror,
        ));
        positions
    }

    /// The state just after the document was written out: the current
    /// snapshot saved, and every snapshot of the history unsaved.
    pub open spec fn saved(v: StateView) -> StateView {
        StateView {
            current: SnapshotView { unsaved: false, ..v.current },
            undo_stack: all_marked_unsaved(v.undo_stack),
            redo_stack: all_marked_unsaved(v.redo_stack),
            ..v
        }
    }

    /// Marks every snapshot in `stack` as unsaved.
    fn mark_all_unsaved(stack: &mut Vec<Snapshot>)
        ensures
            final(stack)@.map_values(|s: Snapshot| s@) == all_marked_unsaved(old(stack)@.map_values(|s: Snapshot| s@)),
    {
        let ghost v = old(stack)@.map_values(|s: Snapshot| s@);
        let n = stack.len();
        for i in 0..n
            invariant
                n == stack@.len(),
                v.len() == n,
                stack@.map_values(|s: Snapshot| s@) == all_marked_unsaved(v).subrange(0, i as int) + v.subrange(i as int, n as int),
        {
            let ghost before = stack@;
            stack[i].unsaved = true;
            proof {
                let now = stack@.map_values(|s: Snapshot| s@);
                let want = all_marked_unsaved(v).subrange(0, i + 1) + v.subrange(i + 1, n as int);
                let was = before.map_values(|s: Snapshot| s@);
                assert forall|k: int| 0 <= k < n implies #[trigger] now[k] == want[k] by {
                    if k != i {
                        assert(stack@[k] == before[k]);
                        assert(now[k] == was[k]);
                    } else {
                        assert(was[k] == v[k]);
                    }
                }
                assert(now =~= want);
            }
        }
        assert(all_marked_unsaved(v).subrange(0, n as int) + v.subrange(n as int, n as int) =~= all_marked_unsaved(v));
    }

    /// Records that the document was just written out: it is saved now, and
    /// every other snapshot in the history differs from what was written.
    pub fn mark_saved(&mut self)
        requires
            old(self).wf(),
        ensures
            final(self)@ == Self::saved(old(self)@),
            final(self).wf(),
    {
        self.current.unsaved = false;
        Self::mark_all_unsaved(&mut self.undo_stack);
        Self::mark_all_unsaved(&mut self.redo_stack);
        assert(self@ =~= Self::saved(old(self)@));
    }

    /// The state with `data` loaded from `path`: a fresh history, nothing
    /// selected, nothing unsaved.
    pub open spec fn loaded(v: StateView, path: Seq<char>, data: DataView) -> StateView {
        StateView {
            filepath: path,
            current: SnapshotView { data, selection: None, unsaved: false },
            undo_stack: Seq::empty(),
            redo_stack: Seq::empty(),
            persistent_mutation_active: false,
            ..v
        }
    }

    fn load_data(&mut self, path: String, data: Data)
        requires
            old(self).wf(),
            data@.wf(),
        ensures
            final(self)@ == Self::loaded(old(self)@, path@, data@),
            final(self).wf(),
    {
        let ghost p = path@;
        let ghost d = data@;
        self.filepath = path;
        self.current = Snapshot { data, selection: None, unsaved: false };
        self.undo_stack.clear();
        self.redo_stack.clear();
        self.persistent_mutation_active = false;
        assert(self@ =~= Self::loaded(old(self)@, p, d));
    }

    /// Edits `collection`, read from `path`.
    pub fn load_collection(&mut self, path: String, collection: Collection)
        requires
            old(self).wf(),
            collection.wf(),
        ensures
            final(self)@ == Self::loaded(
                old(self)@,
                path@,
                Self::collection_data(
                    collection.images@.map_values(|i: Image| i@),
                    collection.palettes@.map_values(|p: Palette| p@),
                ),
            ),
            final(self).wf(),
    {
        let data = Self::data_from_collection(collection);
        self.load_data(path, data);
    }

    /// Edits `font`, read from `path`, starting with its default glyph.
    pub fn load_font(&mut self, path: String, font: Font)
        requires
            old(self).wf(),
            font.wf(),
        ensures
            final(self)@ == Self::loaded(old(self)@, path@, DataView::Ahf { current_char: None, font: font@ }),
            final(self).wf(),
    {
        self.load_data(path, Data::AHF(AhfData { current_char: None, font }));
    }

    /// The images and palettes being edited, as a collection to write out;
    /// nothing when a font is being edited.
    pub fn to_collection(&self) -> (c: Option<Collection>)
        requires
            self.wf(),
        ensures
            match self@.current.data {
                DataView::Ahi { palettes, images, .. } => c matches Some(c) && c.wf()
                    && c.images@.map_values(|i: Image| i@) == images
                    && c.palettes@.map_values(|p: Palette| p@) == palettes,
                DataView::Ahf { .. } => c is None,
            },
    {
        match &self.current.data {
            Data::AHI(_) => {
                let d = self.current.data.duplicate();
                match d {
                    Data::AHI(ahi) => {
                        let c = Collection { images: ahi.images, palettes: ahi.palettes };
                        proof {
                            assert forall|i: int| 0 <= i < c.images@.len() implies (#[trigger] c.images@[i]).wf() by {
                                assert(c.images@[i]@ == d@->Ahi_images[i]);
                            }
                            assert forall|i: int| 0 <= i < c.palettes@.len() implies (#[trigger] c.palettes@[i]).wf() by {
                                assert(c.palettes@[i]@ == d@->Ahi_palettes[i]);
                            }
                        }
                        Some(c)
                    },
                    Data::AHF(_) => None,
                }
            },
            Data::AHF(_) => None,
        }
    }

    /// Goes back to the last snapshot recorded for undoing; says whether
    /// there was one.
    pub fn undo(&mut self) -> (b: bool)
        requires
            old(self).wf(),
        ensures
            b == (old(self)@.undo_stack.len() > 0),
            final(self)@ == old(self)@.undone(),
            final(self).wf(),
    {
        let ghost v = self@;
        match self.undo_stack.pop() {
            Some(mut snapshot) => {
                assert(self.undo_stack@.map_values(|s: Snapshot| s@) =~= v.undo_stack.drop_last());
                std::mem::swap(&mut snapshot, &mut self.current);
                self.redo_stack.push(snapshot);
                assert(self.redo_stack@.map_values(|s: Snapshot| s@) =~= v.redo_stack.push(v.current));
                if self.current.selection.is_some() {
                    self.tool = Tool::Select;
                }
                assert(self@ =~= v.undone());
                true
            },
            None => {
                assert(self@ =~= v);
                false
            },
        }
    }

    /// Goes forward to the last snapshot undone; says whether there was one.
    pub fn redo(&mut self) -> (b: bool)
        requires
            old(self).wf(),
        ensures
            b == (old(self)@.redo_stack.len() > 0),
            final(self)@ == old(self)@.redone(),
            final(self).wf(),
    {
        let ghost v = self@;
        match self.redo_stack.pop() {
            Some(mut snapshot) => {
                assert(self.redo_stack@.map_values(|s: Snapshot| s@) =~= v.redo_stack.drop_last());
                std::mem::swap(&mut snapshot, &mut self.current);
                self.undo_stack.push(snapshot);
                assert(self.undo_stack@.map_values(|s: Snapshot| s@) =~= v.undo_stack.push(v.current));
                if self.current.selection.is_some() {
                    self.tool = Tool::Select;
                }
                assert(self@ =~= v.redone());
                true
            },
            None => {
                assert(self@ =~= v);
                false
            },
        }
    }
}


/// The editing operations, on the state that a `Mutation` hands them.
impl EditorState {
    /// Puts `img` in place of the image being edited.
    fn replace_image(&mut self, img: Image)
        requires
            old(self).wf(),
            img.wf(),
        ensures
            final(self)@ == old(self)@.with_image(img@),
            final(self).wf(),
    {
        let ghost v = img@;
        let target = self.image_mut();
        *target = img;
        proof {
            Self::lemma_with_image_wf(old(self)@, v);
        }
    }

    fn edit_color_pixel(&mut self, position: (u32, u32))
        requires
            old(self).wf(),
            old(self)@.image().in_bounds(position.0 as int, position.1 as int),
            old(self)@.mirror == Mirror::Rot4 ==> old(self)@.image().width <= i32::MAX && old(self)@.image().height <= i32::MAX,
        ensures
            final(self)@ == old(self)@.pixel_colored((position.0 as int, position.1 as int)),
            final(self).wf(),
    {
        let color = self.color;
        let positions = self.mirror_positions(position);
        let ghost img0 = self@.image();
        let ghost ps = positions@.map_values(|p: (u32, u32)| (p.0 as int, p.1 as int));
        proof {
            lemma_mirror_positions_in_bounds(img0.width as int, img0.height as int, position.0 as int, position.1 as int, self@.mirror);
        }
        let mut image = self.image().duplicate();
        assert(image@.pixels =~~= img0.with_pixels(
            img0.width,
            img0.height,
            |c: int, r: int| if ps.subrange(0, 0).contains((c, r)) { color } else { img0.at(c, r) },
        ).pixels);
        for i in 0..positions.len()
            invariant
                image.wf(),
                img0.wf(),
                ps == positions@.map_values(|p: (u32, u32)| (p.0 as int, p.1 as int)),
                forall|k: int| 0 <= k < ps.len() ==> img0.in_bounds((#[trigger] ps[k]).0, ps[k].1),
                image@ == img0.with_pixels(
                    img0.width,
                    img0.height,
                    |c: int, r: int| if ps.subrange(0, i as int).contains((c, r)) { color } else { img0.at(c, r) },
                ),
        {
            let (x, y) = positions[i];
            assert(ps[i as int] == (x as int, y as int));
            image.set(x, y, color);
            proof {
                let pre = ps.subrange(0, i as int);
                let post = ps.subrange(0, i + 1);
                assert forall|c: int, r: int| post.contains((c, r)) <==> (pre.contains((c, r)) || (c, r) == (x as int, y as int)) by {
                    if post.contains((c, r)) {
                        let k = choose|k: int| 0 <= k < post.len() && post[k] == (c, r);
                        if k < i {
                            assert(pre[k] == (c, r));
                        }
                    }
                    if pre.contains((c, r)) {
                        let k = choose|k: int| 0 <= k < pre.len() && pre[k] == (c, r);
                        assert(post[k] == (c, r));
                    }
                    if (c, r) == (x as int, y as int) {
                        assert(post[i as int] == (c, r));
                    }
                }
                assert(image@.pixels =~~= img0.with_pixels(
                    img0.width,
                    img0.height,
                    |c: int, r: int| if post.contains((c, r)) { color } else { img0.at(c, r) },
                ).pixels);
            }
        }
        assert(ps.subrange(0, ps.len() as int) =~= ps);
        self.replace_image(image);
    }

    fn edit_add_new_palette(&mut self) -> (b: bool)
        requires
            old(self).wf(),
        ensures
            (final(self)@, b) == old(self)@.palette_added(),
            final(self).wf(),
    {
        self.put_down_selection();
        let new_palette = self.palette();
        match &mut self.current.data {
            Data::AHI(ahi) => {
                if ahi.palette_index < ahi.palettes.len() {
                    ahi.palette_index += 1;
                } else {
                    ahi.palette_index = 0;
                }
                let ghost p = new_palette@;
                let ghost old_pals = ahi.palettes@.map_values(|q: Palette| q@);
                ahi.palettes.insert(ahi.palette_index, new_palette);
                assert(ahi.palettes@.map_values(|q: Palette| q@) =~= old_pals.insert(ahi.palette_index as int, p));
                assert(self@ =~= old(self)@.palette_added().0);
                true
            },
            Data::AHF(_) => false,
        }
    }

    fn edit_delete_palette(&mut self) -> (b: bool)
        requires
            old(self).wf(),
        ensures
            (final(self)@, b) == old(self)@.palette_deleted(),
            final(self).wf(),
    {
        self.put_down_selection();
        match &mut self.current.data {
            Data::AHI(ahi) => {
                if ahi.palette_index < ahi.palettes.len() {
                    let ghost old_pals = ahi.palettes@.map_values(|q: Palette| q@);
                    ahi.palettes.remove(ahi.palette_index);
                    assert(ahi.palettes@.map_values(|q: Palette| q@) =~= old_pals.remove(ahi.palette_index as int));
                    if ahi.palette_index > 0 {
                        ahi.palette_index -= 1;
                    } else {
                        ahi.palette_index = ahi.palettes.len();
                    }
                    assert(self@ =~= old(self)@.palette_deleted().0);
                    true
                } else {
                    false
                }
            },
            Data::AHF(_) => false,
        }
    }

    fn edit_set_palette_color(&mut self, color: Color, rgba: Rgba) -> (b: bool)
        requires
            old(self).wf(),
        ensures
            (final(self)@, b) == old(self)@.palette_color_set(color, rgba),
            final(self).wf(),
    {
        self.put_down_selection();
        match &mut self.current.data {
            Data::AHI(ahi) => {
                if ahi.palette_index < ahi.palettes.len() {
                    let ghost old_pals = ahi.palettes@.map_values(|q: Palette| q@);
                    let mut palette = ahi.palettes[ahi.palette_index].duplicate();
                    palette.set(color, rgba);
                    let ghost p = palette@;
                    ahi.palettes.set(ahi.palette_index, palette);
                    assert(ahi.palettes@.map_values(|q: Palette| q@) =~= old_pals.update(ahi.palette_index as int, p));
                    assert(self@ =~= old(self)@.palette_color_set(color, rgba).0);
                    true
                } else {
                    false
                }
            },
            Data::AHF(_) => false,
        }
    }

    fn edit_add_new_image(&mut self, chr: char) -> (b: bool)
        requires
            old(self).wf(),
            old(self)@.current.data is Ahf ==> old(self)@.unselected().image().width < i32::MAX,
        ensures
            (final(self)@, b) == old(self)@.image_added(chr),
            final(self).wf(),
    {
        self.put_down_selection();
        let (width, height) = self.image_size();
        let ghost dv = self.current.data@;
        assert(dv.wf());
        match &mut self.current.data {
            Data::AHI(ahi) => {
                assert(dv->Ahi_images.len() == ahi.images@.len());
                assert(ahi.image_index < ahi.images@.len());
                let _n = ahi.images.len();
                ahi.image_index += 1;
                let ghost old_imgs = ahi.images@.map_values(|i: Image| i@);
                let img = Image::new(width, height);
                let ghost iv = img@;
                ahi.images.insert(ahi.image_index, img);
                assert(ahi.images@.map_values(|i: Image| i@) =~= old_imgs.insert(ahi.image_index as int, iv));
                assert(self@ =~= old(self)@.image_added(chr).0);
                true
            },
            Data::AHF(ahf) => {
                ahf.current_char = Some(chr);
                if ahf.font.get_char_glyph(chr).is_none() {
                    let glyph = Glyph::new(Image::new(width, height), 0, 1 + width as i32);
                    ahf.font.set_char_glyph(chr, glyph);
                    assert(self@ =~= old(self)@.image_added(chr).0);
                    true
                } else {
                    assert(self@ =~= old(self)@.image_added(chr).0);
                    false
                }
            },
        }
    }

    fn edit_delete_image(&mut self) -> (b: bool)
        requires
            old(self).wf(),
        ensures
            (final(self)@, b) == old(self)@.image_deleted(),
            final(self).wf(),
    {
        self.put_down_selection();
        match &mut self.current.data {
            Data::AHI(ahi) => {
                if ahi.images.len() > 1 {
                    let index = ahi.image_index;
                    let ghost old_imgs = ahi.images@.map_values(|i: Image| i@);
                    ahi.images.remove(index);
                    assert(ahi.images@.map_values(|i: Image| i@) =~= old_imgs.remove(index as int));
                    if index == ahi.images.len() {
                        ahi.image_index -= 1;
                    }
                    assert(self@ =~= old(self)@.image_deleted().0);
                    true
                } else {
                    false
                }
            },
            Data::AHF(ahf) => {
                if let Some(chr) = ahf.current_char {
                    ahf.font.remove_char_glyph(chr);
                    ahf.current_char = None;
                    assert(self@ =~= old(self)@.image_deleted().0);
                    true
                } else {
                    false
                }
            },
        }
    }

    fn edit_set_metadata(&mut self, data: Vec<i16>)
        requires
            old(self).wf(),
        ensures
            final(self)@ == old(self)@.metadata_set(data@),
            final(self).wf(),
    {
        if let Data::AHI(_) = &self.current.data {
            let mut image = self.image().duplicate();
            image.set_metadata(data);
            self.replace_image(image);
        }
    }

    fn edit_set_tag(&mut self, tag: String)
        requires
            old(self).wf(),
        ensures
            final(self)@ == old(self)@.tag_set(tag@),
            final(self).wf(),
    {
        if let Data::AHI(_) = &self.current.data {
            let mut image = self.image().duplicate();
            image.set_tag(tag);
            self.replace_image(image);
        }
    }

    fn edit_set_metrics(&mut self, new_baseline: i32, new_left_edge: i32, new_right_edge: i32)
        requires
            old(self).wf(),
        ensures
            final(self)@ == old(self)@.metrics_set(new_baseline as int, new_left_edge as int, new_right_edge as int),
            final(self).wf(),
    {
        if let Data::AHF(ahf) = &mut self.current.data {
            ahf.font.set_baseline(new_baseline);
            let ghost f = ahf.font@;
            let glyph = match ahf.current_char {
                Some(chr) => ahf.font.glyph_mut(chr),
                None => ahf.font.default_glyph_mut(),
            };
            glyph.set_left_edge(new_left_edge);
            glyph.set_right_edge(new_right_edge);
            proof {
                match ahf.current_char {
                    Some(c) => {
                        Font::lemma_with_glyph_at_wf(f, c, GlyphView { left_edge: new_left_edge as int, right_edge: new_right_edge as int, ..f.glyph(c) });
                    },
                    None => {},
                }
            }
        }
    }

    fn edit_flip_selection_horz(&mut self)
        requires
            old(self).wf(),
        ensures
            final(self)@ == old(self)@.selection_flipped_horz(),
            final(self).wf(),
    {
        match &mut self.current.selection {
            Some((image, _)) => {
                *image = image.flip_horz();
                assert(self@ =~= old(self)@.selection_flipped_horz());
            },
            None => {
                let flipped = self.image().flip_horz();
                self.replace_image(flipped);
            },
        }
    }

    fn edit_flip_selection_vert(&mut self)
        requires
            old(self).wf(),
        ensures
            final(self)@ == old(self)@.selection_flipped_vert(),
            final(self).wf(),
    {
        match &mut self.current.selection {
            Some((image, _)) => {
                *image = image.flip_vert();
                assert(self@ =~= old(self)@.selection_flipped_vert());
            },
            None => {
                let flipped = self.image().flip_vert();
                self.replace_image(flipped);
            },
        }
    }

    /// Clears the image being edited and draws `img` at its top-left corner.
    fn replace_image_contents(&mut self, img: &Image)
        requires
            old(self).wf(),
            img.wf(),
        ensures
            final(self)@ == old(self)@.image_replaced_by(img@),
            final(self).wf(),
    {
        let mut image = self.image().duplicate();
        image.clear();
        image.draw(img, 0, 0);
        self.replace_image(image);
    }

    fn edit_rotate_selection_clockwise(&mut self)
        requires
            old(self).wf(),
        ensures
            final(self)@ == old(self)@.selection_rotated_cw(),
            final(self).wf(),
    {
        match &mut self.current.selection {
            Some((image, _)) => {
                *image = image.rotate_cw();
                assert(self@ =~= old(self)@.selection_rotated_cw());
            },
            None => {
                let rotated = self.image().rotate_cw();
                self.replace_image_contents(&rotated);
            },
        }
    }

    fn edit_rotate_selection_counterclockwise(&mut self)
        requires
            old(self).wf(),
        ensures
            final(self)@ == old(self)@.selection_rotated_ccw(),
            final(self).wf(),
    {
        match &mut self.current.selection {
            Some((image, _)) => {
                *image = image.rotate_ccw();
                assert(self@ =~= old(self)@.selection_rotated_ccw());
            },
            None => {
                let rotated = self.image().rotate_ccw();
                self.replace_image_contents(&rotated);
            },
        }
    }

    fn edit_delete_selection(&mut self)
        requires
            old(self).wf(),
        ensures
            final(self)@ == old(self)@.with_selection(None),
            final(self).wf(),
    {
        self.current.selection = None;
        assert(self@ =~= old(self)@.with_selection(None));
    }

    fn edit_cut_selection(&mut self)
        requires
            old(self).wf(),
        ensures
            final(self)@ == old(self)@.selection_cut(),
            final(self).wf(),
    {
        if self.current.selection.is_some() {
            self.clipboard = self.current.selection.take();
            assert(self@ =~= old(self)@.selection_cut());
        } else {
            self.clipboard = Some((self.image().duplicate(), Point::new(0, 0)));
            let mut image = self.image().duplicate();
            image.clear();
            self.replace_image(image);
            assert(self@ =~= old(self)@.selection_cut());
        }
    }

    fn edit_copy_selection(&mut self)
        requires
            old(self).wf(),
        ensures
            final(self)@ == old(self)@.selection_copied(),
            final(self).wf(),
    {
        if self.current.selection.is_some() {
            self.clipboard = duplicate_selection(&self.current.selection);
        } else {
            self.clipboard = Some((self.image().duplicate(), Point::new(0, 0)));
        }
        assert(self@ =~= old(self)@.selection_copied());
    }

    fn edit_paste_selection(&mut self)
        requires
            old(self).wf(),
        ensures
            final(self)@ == old(self)@.selection_pasted(),
            final(self).wf(),
    {
        if self.clipboard.is_some() {
            self.put_down_selection();
            self.current.selection = duplicate_selection(&self.clipboard);
            self.tool = Tool::Select;
            assert(self@ =~= old(self)@.selection_pasted());
        }
    }

    fn edit_select(&mut self, rect: &Rect)
        requires
            old(self).wf(),
        ensures
            final(self)@ == old(self)@.rect_selected(rect@),
            final(self).wf(),
    {
        self.put_down_selection();
        let x = rect.x();
        let y = rect.y();
        let mut selected = Image::new(rect.width(), rect.height());
        selected.draw(self.image(), -x, -y);
        let ghost t = self@;
        self.current.selection = Some((selected, rect.top_left()));
        let mut image = self.image().duplicate();
        image.fill_rect(x, y, rect.width(), rect.height(), Color::C0);
        self.replace_image(image);
        self.tool = Tool::Select;
        assert(self@ =~= old(self)@.rect_selected(rect@));
    }

    fn edit_lasso(&mut self, vertices: &[(u32, u32)])
        requires
            old(self).wf(),
            forall|k: int| 0 <= k < vertices@.len() ==> old(self)@.image().in_bounds(
                (#[trigger] vertices@[k]).0 as int,
                vertices@[k].1 as int,
            ),
        ensures
            final(self)@ == old(self)@.lassoed(vertices@),
            final(self).wf(),
    {
        self.put_down_selection();
        proof {
            Self::lemma_unselected_image(old(self)@);
        }
        let ghost vs = vertices@;
        let ghost img = self@.image();
        let _size = self.image_size();
        let n = vertices.len();
        let mut min_x: u32 = 0;
        let mut max_x: u32 = 0;
        let mut min_y: u32 = 0;
        let mut max_y: u32 = 0;
        if n > 0 {
            min_x = vertices[0].0;
            max_x = vertices[0].0 + 1;
            min_y = vertices[0].1;
            max_y = vertices[0].1 + 1;
            assert(xs_of(vs).subrange(0, 1) =~= seq![vs[0].0 as int]);
            assert(ys_of(vs).subrange(0, 1) =~= seq![vs[0].1 as int]);
            for i in 1..n
                invariant
                    n == vs.len(),
                    vs == vertices@,
                    img.wf(),
                    img.width <= u32::MAX,
                    img.height <= u32::MAX,
                    forall|k: int| 0 <= k < vs.len() ==> img.in_bounds((#[trigger] vs[k]).0 as int, vs[k].1 as int),
                    min_x == seq_min(xs_of(vs).subrange(0, i as int)),
                    max_x == seq_max(xs_of(vs).subrange(0, i as int)) + 1,
                    min_y == seq_min(ys_of(vs).subrange(0, i as int)),
                    max_y == seq_max(ys_of(vs).subrange(0, i as int)) + 1,
            {
                let (x, y) = vertices[i];
                assert(xs_of(vs).subrange(0, i + 1).drop_last() =~= xs_of(vs).subrange(0, i as int));
                assert(ys_of(vs).subrange(0, i + 1).drop_last() =~= ys_of(vs).subrange(0, i as int));
                if x < min_x {
                    min_x = x;
                }
                if x + 1 > max_x {
                    max_x = x + 1;
                }
                if y < min_y {
                    min_y = y;
                }
                if y + 1 > max_y {
                    max_y = y + 1;
                }
            }
            assert(xs_of(vs).subrange(0, n as int) =~= xs_of(vs));
            assert(ys_of(vs).subrange(0, n as int) =~= ys_of(vs));
        }
        proof {
            lemma_seq_bounds(xs_of(vs));
            lemma_seq_bounds(ys_of(vs));
            assert forall|k: int| 0 <= k < vs.len() implies min_x <= (#[trigger] vs[k]).0 < max_x && min_y <= vs[k].1 < max_y by {
                assert(xs_of(vs)[k] == vs[k].0 as int);
                assert(ys_of(vs)[k] == vs[k].1 as int);
            }
        }
        let sel_w = max_x - min_x;
        let sel_h = max_y - min_y;
        let mut selected = Image::new(sel_w, sel_h);
        let mut image = self.image().duplicate();
        let ghost sel0 = selected@;
        assert(image@.pixels =~~= img.with_pixels(
            img.width,
            img.height,
            |c: int, r: int| if has_vertex(vs, c, r) && r < min_y { Color::C0 } else { img.at(c, r) },
        ).pixels);
        assert(selected@.pixels =~~= sel0.with_pixels(
            sel_w as nat,
            sel_h as nat,
            |c: int, r: int| if has_vertex(vs, c + min_x, r + min_y) && r + min_y < min_y {
                img.at(c + min_x, r + min_y)
            } else {
                Color::C0
            },
        ).pixels);
        for row in min_y..max_y
            invariant
                vs == vertices@,
                img.wf(),
                forall|k: int| 0 <= k < vs.len() ==> img.in_bounds((#[trigger] vs[k]).0 as int, vs[k].1 as int),
                forall|k: int| 0 <= k < vs.len() ==> min_x <= (#[trigger] vs[k]).0 < max_x && min_y <= vs[k].1 < max_y,
                sel_w == max_x - min_x,
                sel_h == max_y - min_y,
                sel0 == blank_image(sel_w as nat, sel_h as nat),
                image.wf(),
                selected.wf(),
                image@ == img.with_pixels(
                    img.width,
                    img.height,
                    |c: int, r: int| if has_vertex(vs, c, r) && r < row { Color::C0 } else { img.at(c, r) },
                ),
                selected@ == sel0.with_pixels(
                    sel_w as nat,
                    sel_h as nat,
                    |c: int, r: int| if has_vertex(vs, c + min_x, r + min_y) && r + min_y < row {
                        img.at(c + min_x, r + min_y)
                    } else {
                        Color::C0
                    },
                ),
        {
            assert(image@.pixels =~~= img.with_pixels(
                img.width,
                img.height,
                |c: int, r: int| if has_vertex(vs, c, r) && (r < row || (r == row && c < min_x)) {
                    Color::C0
                } else {
                    img.at(c, r)
                },
            ).pixels);
            assert(selected@.pixels =~~= sel0.with_pixels(
                sel_w as nat,
                sel_h as nat,
                |c: int, r: int| if has_vertex(vs, c + min_x, r + min_y) && (r + min_y < row || (
                r + min_y == row && c + min_x < min_x)) {
                    img.at(c + min_x, r + min_y)
                } else {
                    Color::C0
                },
            ).pixels);
            for col in min_x..max_x
                invariant
                    vs == vertices@,
                    img.wf(),
                    forall|k: int| 0 <= k < vs.len() ==> img.in_bounds((#[trigger] vs[k]).0 as int, vs[k].1 as int),
                    forall|k: int| 0 <= k < vs.len() ==> min_x <= (#[trigger] vs[k]).0 < max_x && min_y <= vs[k].1 < max_y,
                    min_y <= row < max_y,
                    sel_w == max_x - min_x,
                    sel_h == max_y - min_y,
                    sel0 == blank_image(sel_w as nat, sel_h as nat),
                    image.wf(),
                    selected.wf(),
                    image@ == img.with_pixels(
                        img.width,
                        img.height,
                        |c: int, r: int| if has_vertex(vs, c, r) && (r < row || (r == row && c < col)) {
                            Color::C0
                        } else {
                            img.at(c, r)
                        },
                    ),
                    selected@ == sel0.with_pixels(
                        sel_w as nat,
                        sel_h as nat,
                        |c: int, r: int| if has_vertex(vs, c + min_x, r + min_y) && (r + min_y < row || (
                        r + min_y == row && c + min_x < col)) {
                            img.at(c + min_x, r + min_y)
                        } else {
                            Color::C0
                        },
                    ),
            {
                if has_vertex_exec(vertices, col, row) {
                    let ghost k = choose|k: int| 0 <= k < vs.len() && (#[trigger] vs[k]).0 == col && vs[k].1 == row;
                    assert(img.in_bounds(vs[k].0 as int, vs[k].1 as int));
                    let c = image.get(col, row);
                    assert(c == img.at(col as int, row as int));
                    selected.set(col - min_x, row - min_y, c);
                    image.set(col, row, Color::C0);
                }
                assert(image@.pixels =~~= img.with_pixels(
                    img.width,
                    img.height,
                    |c: int, r: int| if has_vertex(vs, c, r) && (r < row || (r == row && c < col + 1)) {
                        Color::C0
                    } else {
                        img.at(c, r)
                    },
                ).pixels);
                assert(selected@.pixels =~~= sel0.with_pixels(
                    sel_w as nat,
                    sel_h as nat,
                    |c: int, r: int| if has_vertex(vs, c + min_x, r + min_y) && (r + min_y < row || (
                    r + min_y == row && c + min_x < col + 1)) {
                        img.at(c + min_x, r + min_y)
                    } else {
                        Color::C0
                    },
                ).pixels);
            }
            assert(image@.pixels =~~= img.with_pixels(
                img.width,
                img.height,
                |c: int, r: int| if has_vertex(vs, c, r) && r < row + 1 { Color::C0 } else { img.at(c, r) },
            ).pixels);
            assert(selected@.pixels =~~= sel0.with_pixels(
                sel_w as nat,
                sel_h as nat,
                |c: int, r: int| if has_vertex(vs, c + min_x, r + min_y) && r + min_y < row + 1 {
                    img.at(c + min_x, r + min_y)
                } else {
                    Color::C0
                },
            ).pixels);
        }
        assert(image@.pixels =~~= img.with_pixels(
            img.width,
            img.height,
            |c: int, r: int| if has_vertex(vs, c, r) { Color::C0 } else { img.at(c, r) },
        ).pixels);
        assert(selected@.pixels =~~= sel0.with_pixels(
            sel_w as nat,
            sel_h as nat,
            |c: int, r: int| if has_vertex(vs, c + min_x, r + min_y) { img.at(c + min_x, r + min_y) } else { Color::C0 },
        ).pixels);
        self.replace_image(image);
        let corner = Point::new(wrap_to_i32(min_x), wrap_to_i32(min_y));
        self.current.selection = Some((selected, corner));
        self.tool = Tool::Select;
        assert(self@ =~= old(self)@.lassoed(vertices@));
    }

    fn edit_select_all(&mut self)
        requires
            old(self).wf(),
        ensures
            final(self)@ == old(self)@.rect_selected(
                (0, 0, clamp_size(old(self)@.image().width as int), clamp_size(old(self)@.image().height as int)),
            ),
            final(self).wf(),
    {
        let (width, height) = self.image_size();
        let rect = Rect::new(0, 0, width, height);
        self.edit_select(&rect);
    }

    fn edit_scale_selection_2x(&mut self)
        requires
            old(self).wf(),
            match old(self)@.current.selection {
                Some((img, _)) => img.width * 2 <= i32::MAX && img.height * 2 <= i32::MAX,
                None => old(self)@.image().width * 2 <= i32::MAX && old(self)@.image().height * 2 <= i32::MAX,
            },
        ensures
            final(self)@ == old(self)@.selection_scaled_2x(),
            final(self).wf(),
    {
        match &mut self.current.selection {
            Some((image, _)) => {
                *image = scale_2x(image);
                assert(self@ =~= old(self)@.selection_scaled_2x());
            },
            None => {
                let scaled = scale_2x(self.image());
                self.replace_image_contents(&scaled);
            },
        }
    }

    fn edit_resize_images(&mut self, new_width: u32, new_height: u32)
        requires
            old(self).wf(),
        ensures
            final(self)@ == old(self)@.resized(new_width as nat, new_height as nat),
            final(self).wf(),
    {
        self.put_down_selection();
        let ghost t = self@;
        match &mut self.current.data {
            Data::AHI(ahi) => {
                let ghost old_imgs = ahi.images@.map_values(|i: Image| i@);
                let ghost target = old_imgs.map_values(|i: ImageView| i.cropped(new_width as nat, new_height as nat));
                let mut images: Vec<Image> = Vec::new();
                for i in 0..ahi.images.len()
                    invariant
                        old_imgs == ahi.images@.map_values(|i: Image| i@),
                        forall|k: int| 0 <= k < old_imgs.len() ==> (#[trigger] old_imgs[k]).wf(),
                        target == old_imgs.map_values(|i: ImageView| i.cropped(new_width as nat, new_height as nat)),
                        images@.len() == i,
                        forall|k: int| 0 <= k < i ==> (#[trigger] images@[k])@ == target[k] && images@[k].wf(),
                {
                    assert(old_imgs[i as int] == ahi.images@[i as int]@);
                    images.push(ahi.images[i].crop(new_width, new_height));
                }
                assert(images@.map_values(|i: Image| i@) =~= target);
                ahi.images = images;
                assert(self@ =~= old(self)@.resized(new_width as nat, new_height as nat));
            },
            Data::AHF(ahf) => {
                let ghost f0 = ahf.font@;
                if new_height != ahf.font.glyph_height() {
                    let ghost target = font_with_height(f0, new_height as nat);
                    let mut font = Font::with_glyph_height(new_height);
                    {
                        let glyph = ahf.font.default_glyph();
                        let new_glyph = Glyph::new(
                            glyph.image().crop(glyph.image().width(), new_height),
                            glyph.left_edge(),
                            glyph.right_edge(),
                        );
                        font.set_default_glyph(new_glyph);
                    }
                    let chars = ahf.font.chars();
                    for i in 0..chars.len()
                        invariant
                            f0 == ahf.font@,
                            f0.wf(),
                            chars@ == f0.chars(),
                            target == font_with_height(f0, new_height as nat),
                            font.wf(),
                            font@ == (FontView { glyphs: target.glyphs.subrange(0, i as int), ..target }),
                    {
                        let chr = chars[i];
                        assert(chr == f0.glyphs[i as int].0);
                        proof {
                            Font::lemma_position_unique(f0, chr, i as int);
                        }
                        let glyph = ahf.font.glyph(chr);
                        let new_glyph = Glyph::new(
                            glyph.image().crop(glyph.image().width(), new_height),
                            glyph.left_edge(),
                            glyph.right_edge(),
                        );
                        proof {
                            let fv = font@;
                            assert forall|k: int| 0 <= k < i implies (#[trigger] fv.glyphs[k]).0 < chr by {
                                assert(fv.glyphs[k].0 == f0.glyphs[k].0);
                                assert(f0.glyphs[k].0 < f0.glyphs[i as int].0);
                            }
                            Font::lemma_lower_bound(fv, chr, i as int);
                        }
                        font.set_char_glyph(chr, new_glyph);
                        assert(font@.glyphs =~= target.glyphs.subrange(0, i + 1));
                        assert(font@ =~= (FontView { glyphs: target.glyphs.subrange(0, i + 1), ..target }));
                    }
                    assert(target.glyphs.subrange(0, chars@.len() as int) =~= target.glyphs);
                    assert(font@ =~= target);
                    ahf.font = font;
                }
                let ghost f1 = ahf.font@;
                match ahf.current_char {
                    Some(chr) => {
                        let new_glyph = {
                            let glyph = ahf.font.glyph(chr);
                            Glyph::new(glyph.image().crop(new_width, glyph.image().height()), glyph.left_edge(), glyph.right_edge())
                        };
                        ahf.font.set_char_glyph(chr, new_glyph);
                    },
                    None => {
                        let new_glyph = {
                            let glyph = ahf.font.default_glyph();
                            Glyph::new(glyph.image().crop(new_width, glyph.image().height()), glyph.left_edge(), glyph.right_edge())
                        };
                        ahf.font.set_default_glyph(new_glyph);
                    },
                }
                assert(self@ =~= old(self)@.resized(new_width as nat, new_height as nat));
            },
        }
    }

    fn edit_reposition_selection(&mut self, new_position: Point)
        requires
            old(self).wf(),
        ensures
            final(self)@ == old(self)@.selection_repositioned(new_position@),
            final(self).wf(),
    {
        if let Some((_, position)) = &mut self.current.selection {
            *position = new_position;
        }
        assert(self@ =~= old(self)@.selection_repositioned(new_position@));
    }
}

/// The image scaled up twice, as far as the pixels before `(col, row)` in
/// row order.
pub open spec fn scaled_upto(img: ImageView, row: int, col: int) -> ImageView {
    blank_image(2 * img.width, 2 * img.height).with_pixels(
        2 * img.width,
        2 * img.height,
        |c: int, r: int| if r / 2 < row || (r / 2 == row && c / 2 < col) { img.at(c / 2, r / 2) } else { Color::C0 },
    )
}

proof fn lemma_half(x: int, k: int)
    requires
        0 <= x,
    ensures
        (x / 2 == k) <==> (2 * k <= x < 2 * k + 2),
        (x / 2 < k) <==> (x < 2 * k),
{
}

/// Drawing the square of one more pixel extends the scaled part by it.
proof fn lemma_scale_step(img: ImageView, row: int, col: int)
    requires
        img.wf(),
        0 <= row < img.height,
        0 <= col < img.width,
    ensures
        scaled_upto(img, row, col).filled_rect(2 * col, 2 * row, 2, 2, img.at(col, row)) =~~= scaled_upto(img, row, col + 1),
{
    let a = scaled_upto(img, row, col).filled_rect(2 * col, 2 * row, 2, 2, img.at(col, row));
    let b = scaled_upto(img, row, col + 1);
    assert forall|r: int| 0 <= r < 2 * img.height implies #[trigger] a.pixels[r] =~= b.pixels[r] by {
        assert forall|c: int| 0 <= c < 2 * img.width implies a.pixels[r][c] == b.pixels[r][c] by {
            lemma_half(c, col);
            lemma_half(r, row);
        }
    }
}

/// The last pixel of a row ends it.
proof fn lemma_scale_row(img: ImageView, row: int)
    requires
        img.wf(),
        0 <= row,
    ensures
        scaled_upto(img, row, img.width as int) =~~= scaled_upto(img, row + 1, 0),
        scaled_upto(img, 0, 0) =~~= blank_image(2 * img.width, 2 * img.height),
        scaled_upto(img, img.height as int, 0) =~~= scaled_2x(img),
{
    let a = scaled_upto(img, row, img.width as int);
    let b = scaled_upto(img, row + 1, 0);
    assert forall|r: int| 0 <= r < 2 * img.height implies #[trigger] a.pixels[r] =~= b.pixels[r] by {
        assert forall|c: int| 0 <= c < 2 * img.width implies a.pixels[r][c] == b.pixels[r][c] by {
            lemma_half(c, img.width as int);
            lemma_half(r, row);
            lemma_half(r, row + 1);
        }
    }
    let z = scaled_upto(img, 0, 0);
    assert forall|r: int| 0 <= r < 2 * img.height implies #[trigger] z.pixels[r] =~= blank_image(2 * img.width, 2 * img.height).pixels[r] by {
        assert forall|c: int| 0 <= c < 2 * img.width implies z.pixels[r][c] == Color::C0 by {
            lemma_half(r, 0);
        }
    }
    let e = scaled_upto(img, img.height as int, 0);
    assert forall|r: int| 0 <= r < 2 * img.height implies #[trigger] e.pixels[r] =~= scaled_2x(img).pixels[r] by {
        lemma_half(r, img.height as int);
    }
}

/// The image scaled up twice: each pixel drawn as a two-by-two square on a
/// new transparent image.
pub fn scale_2x(image: &Image) -> (scaled: Image)
    requires
        image.wf(),
        image@.width * 2 <= i32::MAX,
        image@.height * 2 <= i32::MAX,
    ensures
        scaled.wf(),
        scaled@ == scaled_2x(image@),
{
    let ghost img = image@;
    let w: u32 = image.width();
    let h: u32 = image.height();
    let mut scaled = Image::new(w * 2, h * 2);
    proof {
        lemma_scale_row(img, 0);
    }
    for row in 0..h
        invariant
            image.wf(),
            img == image@,
            w == img.width,
            h == img.height,
            img.width * 2 <= i32::MAX,
            img.height * 2 <= i32::MAX,
            scaled.wf(),
            scaled@ == scaled_upto(img, row as int, 0),
    {
        for col in 0..w
            invariant
                image.wf(),
                img == image@,
                w == img.width,
                h == img.height,
                img.width * 2 <= i32::MAX,
                img.height * 2 <= i32::MAX,
                row < img.height,
                scaled.wf(),
                scaled@ == scaled_upto(img, row as int, col as int),
        {
            let color = image.get(col, row);
            scaled.fill_rect((2 * col) as i32, (2 * row) as i32, 2, 2, color);
            proof {
                lemma_scale_step(img, row as int, col as int);
            }
        }
        proof {
            lemma_scale_row(img, row as int);
        }
    }
    scaled
}

/// Whether `(c, r)` is one of `vs`.
fn has_vertex_exec(vs: &[(u32, u32)], c: u32, r: u32) -> (b: bool)
    ensures
        b == has_vertex(vs@, c as int, r as int),
{
    for i in 0..vs.len()
        invariant
            forall|k: int| 0 <= k < i ==> !((#[trigger] vs@[k]).0 == c && vs@[k].1 == r),
    {
        if vs[i].0 == c && vs[i].1 == r {
            return true;
        }
    }
    false
}

/// The lowest and the highest of a non-empty sequence lie among its
/// elements and bound them.
pub proof fn lemma_seq_bounds(s: Seq<int>)
    ensures
        forall|k: int| 0 <= k < s.len() ==> seq_min(s) <= #[trigger] s[k] <= seq_max(s),
    decreases s.len(),
{
    if s.len() > 1 {
        lemma_seq_bounds(s.drop_last());
        assert forall|k: int| 0 <= k < s.len() implies seq_min(s) <= #[trigger] s[k] <= seq_max(s) by {
            if k < s.len() - 1 {
                assert(s.drop_last()[k] == s[k]);
            }
        }
    }
}

/// Every position that `mirror_positions_of` gives lies on the image.
pub proof fn lemma_mirror_positions_in_bounds(width: int, height: int, x: int, y: int, mirror: Mirror)
    requires
        0 <= x < width,
        0 <= y < height,
    ensures
        forall|k: int| 0 <= k < mirror_positions_of(width, height, x, y, mirror).len() ==> {
            let p = #[trigger] mirror_positions_of(width, height, x, y, mirror)[k];
            0 <= p.0 < width && 0 <= p.1 < height
        },
{
}

impl<'a> Mutation<'a> {
    /// The image being edited, to be changed in place.
    pub fn image(&mut self) -> (r: &mut Image)
        requires
            old(self).state.wf(),
        ensures
            r@ == old(self).state@.image(),
            r.wf(),
            final(self).state@ == old(self).state@.with_image(final(r)@),
            *final(final(self).state) == *final(old(self).state),
    {
        self.state.image_mut()
    }

    /// Paints the current color at `position` and at its mirror images.
    pub fn color_pixel(&mut self, position: (u32, u32))
        requires
            old(self).state.wf(),
            old(self).state@.image().in_bounds(position.0 as int, position.1 as int),
            old(self).state@.mirror == Mirror::Rot4 ==> old(self).state@.image().width <= i32::MAX && old(self).state@.image().height <= i32::MAX,
        ensures
            final(self).state@ == old(self).state@.pixel_colored((position.0 as int, position.1 as int)),
            final(self).state.wf(),
            *final(final(self).state) == *final(old(self).state),
    {
        self.state.edit_color_pixel(position)
    }

    /// Inserts a copy of the palette in use after it and chooses it; says
    /// whether a collection is being edited.
    pub fn add_new_palette(&mut self) -> (b: bool)
        requires
            old(self).state.wf(),
        ensures
            (final(self).state@, b) == old(self).state@.palette_added(),
            final(self).state.wf(),
            *final(final(self).state) == *final(old(self).state),
    {
        self.state.edit_add_new_palette()
    }

    /// Removes the chosen palette; says whether there was one.
    pub fn delete_palette(&mut self) -> (b: bool)
        requires
            old(self).state.wf(),
        ensures
            (final(self).state@, b) == old(self).state@.palette_deleted(),
            final(self).state.wf(),
            *final(final(self).state) == *final(old(self).state),
    {
        self.state.edit_delete_palette()
    }

    /// Sets the entry of `color` in the chosen palette; says whether a palette
    /// of the collection was chosen.
    pub fn set_palette_color(&mut self, color: Color, rgba: Rgba) -> (b: bool)
        requires
            old(self).state.wf(),
        ensures
            (final(self).state@, b) == old(self).state@.palette_color_set(color, rgba),
            final(self).state.wf(),
            *final(final(self).state) == *final(old(self).state),
    {
        self.state.edit_set_palette_color(color, rgba)
    }

    /// Adds a transparent image after the current one, or a glyph for `chr`
    /// in a font; says whether something was added.
    pub fn add_new_image(&mut self, chr: char) -> (b: bool)
        requires
            old(self).state.wf(),
            old(self).state@.current.data is Ahf ==> old(self).state@.unselected().image().width < i32::MAX,
        ensures
            (final(self).state@, b) == old(self).state@.image_added(chr),
            final(self).state.wf(),
            *final(final(self).state) == *final(old(self).state),
    {
        self.state.edit_add_new_image(chr)
    }

    /// Removes the current image, or the current glyph of a font; says
    /// whether something was removed.
    pub fn delete_image(&mut self) -> (b: bool)
        requires
            old(self).state.wf(),
        ensures
            (final(self).state@, b) == old(self).state@.image_deleted(),
            final(self).state.wf(),
            *final(final(self).state) == *final(old(self).state),
    {
        self.state.edit_delete_image()
    }

    /// Crops every image to the given size.
    pub fn resize_images(&mut self, new_width: u32, new_height: u32)
        requires
            old(self).state.wf(),
        ensures
            final(self).state@ == old(self).state@.resized(new_width as nat, new_height as nat),
            final(self).state.wf(),
            *final(final(self).state) == *final(old(self).state),
    {
        self.state.edit_resize_images(new_width, new_height)
    }

    /// Sets the metadata of the current image of a collection.
    pub fn set_metadata(&mut self, data: Vec<i16>)
        requires
            old(self).state.wf(),
        ensures
            final(self).state@ == old(self).state@.metadata_set(data@),
            final(self).state.wf(),
            *final(final(self).state) == *final(old(self).state),
    {
        self.state.edit_set_metadata(data)
    }

    /// Sets a font's baseline and the edges of the glyph being edited.
    pub fn set_metrics(&mut self, new_baseline: i32, new_left_edge: i32, new_right_edge: i32)
        requires
            old(self).state.wf(),
        ensures
            final(self).state@ == old(self).state@.metrics_set(new_baseline as int, new_left_edge as int, new_right_edge as int),
            final(self).state.wf(),
            *final(final(self).state) == *final(old(self).state),
    {
        self.state.edit_set_metrics(new_baseline, new_left_edge, new_right_edge)
    }

    /// Sets the tag of the current image of a collection.
    pub fn set_tag(&mut self, tag: String)
        requires
            old(self).state.wf(),
        ensures
            final(self).state@ == old(self).state@.tag_set(tag@),
            final(self).state.wf(),
            *final(final(self).state) == *final(old(self).state),
    {
        self.state.edit_set_tag(tag)
    }

    /// Lifts the pixels at `vertices` into a selection.
    pub fn lasso(&mut self, vertices: &[(u32, u32)])
        requires
            old(self).state.wf(),
            forall|k: int| 0 <= k < vertices@.len() ==> old(self).state@.image().in_bounds((#[trigger] vertices@[k]).0 as int, vertices@[k].1 as int),
        ensures
            final(self).state@ == old(self).state@.lassoed(vertices@),
            final(self).state.wf(),
            *final(final(self).state) == *final(old(self).state),
    {
        self.state.edit_lasso(vertices)
    }

    /// Lifts the pixels of `rect` into a selection.
    pub fn select(&mut self, rect: &Rect)
        requires
            old(self).state.wf(),
        ensures
            final(self).state@ == old(self).state@.rect_selected(rect@),
            final(self).state.wf(),
            *final(final(self).state) == *final(old(self).state),
    {
        self.state.edit_select(rect)
    }

    /// Lifts the whole image into a selection.
    pub fn select_all(&mut self)
        requires
            old(self).state.wf(),
        ensures
            final(self).state@ == old(self).state@.rect_selected((0, 0, clamp_size(old(self).state@.image().width as int), clamp_size(old(self).state@.image().height as int))),
            final(self).state.wf(),
            *final(final(self).state) == *final(old(self).state),
    {
        self.state.edit_select_all()
    }

    /// Mirrors the selection, or the whole image, left to right.
    pub fn flip_selection_horz(&mut self)
        requires
            old(self).state.wf(),
        ensures
            final(self).state@ == old(self).state@.selection_flipped_horz(),
            final(self).state.wf(),
            *final(final(self).state) == *final(old(self).state),
    {
        self.state.edit_flip_selection_horz()
    }

    /// Mirrors the selection, or the whole image, top to bottom.
    pub fn flip_selection_vert(&mut self)
        requires
            old(self).state.wf(),
        ensures
            final(self).state@ == old(self).state@.selection_flipped_vert(),
            final(self).state.wf(),
            *final(final(self).state) == *final(old(self).state),
    {
        self.state.edit_flip_selection_vert()
    }

    /// Turns the selection, or the whole image, a quarter clockwise.
    pub fn rotate_selection_clockwise(&mut self)
        requires
            old(self).state.wf(),
        ensures
            final(self).state@ == old(self).state@.selection_rotated_cw(),
            final(self).state.wf(),
            *final(final(self).state) == *final(old(self).state),
    {
        self.state.edit_rotate_selection_clockwise()
    }

    /// Turns the selection, or the whole image, a quarter counterclockwise.
    pub fn rotate_selection_counterclockwise(&mut self)
        requires
            old(self).state.wf(),
        ensures
            final(self).state@ == old(self).state@.selection_rotated_ccw(),
            final(self).state.wf(),
            *final(final(self).state) == *final(old(self).state),
    {
        self.state.edit_rotate_selection_counterclockwise()
    }

    /// Scales the selection, or the whole image, up twice.
    pub fn scale_selection_2x(&mut self)
        requires
            old(self).state.wf(),
            match old(self).state@.current.selection { Some((img, _)) => img.width * 2 <= i32::MAX && img.height * 2 <= i32::MAX, None => old(self).state@.image().width * 2 <= i32::MAX && old(self).state@.image().height * 2 <= i32::MAX },
        ensures
            final(self).state@ == old(self).state@.selection_scaled_2x(),
            final(self).state.wf(),
            *final(final(self).state) == *final(old(self).state),
    {
        self.state.edit_scale_selection_2x()
    }

    /// Drops the selection without putting it down.
    pub fn delete_selection(&mut self)
        requires
            old(self).state.wf(),
        ensures
            final(self).state@ == old(self).state@.with_selection(None),
            final(self).state.wf(),
            *final(final(self).state) == *final(old(self).state),
    {
        self.state.edit_delete_selection()
    }

    /// Moves the selection, or the whole image, to the clipboard.
    pub fn cut_selection(&mut self)
        requires
            old(self).state.wf(),
        ensures
            final(self).state@ == old(self).state@.selection_cut(),
            final(self).state.wf(),
            *final(final(self).state) == *final(old(self).state),
    {
        self.state.edit_cut_selection()
    }

    /// Copies the selection, or the whole image, to the clipboard.
    pub fn copy_selection(&mut self)
        requires
            old(self).state.wf(),
        ensures
            final(self).state@ == old(self).state@.selection_copied(),
            final(self).state.wf(),
            *final(final(self).state) == *final(old(self).state),
    {
        self.state.edit_copy_selection()
    }

    /// Selects what the clipboard holds.
    pub fn paste_selection(&mut self)
        requires
            old(self).state.wf(),
        ensures
            final(self).state@ == old(self).state@.selection_pasted(),
            final(self).state.wf(),
            *final(final(self).state) == *final(old(self).state),
    {
        self.state.edit_paste_selection()
    }

    /// Moves the selection to `new_position`.
    pub fn reposition_selection(&mut self, new_position: Point)
        requires
            old(self).state.wf(),
        ensures
            final(self).state@ == old(self).state@.selection_repositioned(new_position@),
            final(self).state.wf(),
            *final(final(self).state) == *final(old(self).state),
    {
        self.state.edit_reposition_selection(new_position)
    }

    /// Draws the selection, if any, back onto the image.
    pub fn unselect(&mut self)
        requires
            old(self).state.wf(),
        ensures
            final(self).state@ == old(self).state@.unselected(),
            final(self).state.wf(),
            *final(final(self).state) == *final(old(self).state),
    {
        self.state.put_down_selection();
    }
}

} // verus!

verus! {

/// Undoing right after a mutation began gives back the snapshot from before
/// it, whatever the mutation changed in the current snapshot meanwhile.
pub proof fn lemma_undo_restores_before_mutation(s: StateView, t: StateView)
    requires
        s.wf(),
        t.undo_stack == s.mutation_begun().undo_stack,
    ensures
        t.undo_stack.len() > 0,
        t.undone().current == s.current,
        t.undone().undo_stack.len() + 1 == t.undo_stack.len(),
        t.undone().tool == (if s.current.selection is Some { Tool::Select } else { t.tool }),
{
    let pushed = s.undo_stack.push(s.current);
    assert(pushed.last() == s.current);
    if pushed.len() > MAX_UNDOS {
        assert(pushed.subrange(1, pushed.len() as int).last() == s.current);
    }
}

/// Redoing right after an undo gives back the state from before the undo,
/// save for the tool that the undo may have changed.
pub proof fn lemma_redo_after_undo(s: StateView)
    requires
        s.undo_stack.len() > 0,
    ensures
        s.undone().redone() == (StateView { tool: s.undone().redone().tool, ..s }),
{
    assert(s.undone().redo_stack.drop_last() =~= s.redo_stack);
    assert(s.undone().undo_stack.push(s.undone().current) =~= s.undo_stack);
}

/// Undoing right after a redo gives back the state from before the redo,
/// save for the tool that the redo may have changed.
pub proof fn lemma_undo_after_redo(s: StateView)
    requires
        s.redo_stack.len() > 0,
    ensures
        s.redone().undone() == (StateView { tool: s.redone().undone().tool, ..s }),
{
    assert(s.redone().undo_stack.drop_last() =~= s.undo_stack);
    assert(s.redone().redo_stack.push(s.redone().current) =~= s.redo_stack);
}

/// A mutation, an undo, a redo and a save each keep the history within
/// `MAX_UNDOS` snapshots.
pub proof fn lemma_history_bounded(s: StateView)
    requires
        s.wf(),
    ensures
        s.mutation_begun().undo_stack.len() + s.mutation_begun().redo_stack.len() <= MAX_UNDOS,
        s.persistent_mutation_begun().undo_stack.len() + s.persistent_mutation_begun().redo_stack.len() <= MAX_UNDOS,
        s.undone().undo_stack.len() + s.undone().redo_stack.len() <= MAX_UNDOS,
        s.redone().undo_stack.len() + s.redone().redo_stack.len() <= MAX_UNDOS,
{
}

/// Right after a save the document is saved, and undoing makes it unsaved
/// again.
pub proof fn lemma_undo_after_save_is_unsaved(s: StateView)
    requires
        s.undo_stack.len() > 0,
    ensures
        !EditorState::saved(s).current.unsaved,
        EditorState::saved(s).undone().current.unsaved,
{
    let u = all_marked_unsaved(s.undo_stack);
    assert(u.last() == marked_unsaved(s.undo_stack.last()));
}

/// Deleting the palette just added gives back the palettes and the choice of
/// palette from before.
pub proof fn lemma_delete_palette_after_add(s: StateView)
    requires
        s.wf(),
        s.current.data is Ahi,
    ensures
        s.palette_added().0.palette_deleted().0.current.data == s.unselected().current.data,
        s.palette_added().1,
        s.palette_added().0.palette_deleted().1,
{
    EditorState::lemma_unselected_image(s);
    let t = s.unselected();
    let a = s.palette_added().0;
    assert(a.unselected() == a);
    match t.current.data {
        DataView::Ahi { palette_index, palettes, image_index, images } => {
            let i = if palette_index < palettes.len() { palette_index + 1 } else { 0 };
            let p = t.current.data.palette();
            assert(palettes.insert(i as int, p).remove(i as int) =~= palettes);
        },
        DataView::Ahf { .. } => {},
    }
}

/// Deleting the image just added to a collection gives back its images.
pub proof fn lemma_delete_image_after_add(s: StateView, chr: char)
    requires
        s.wf(),
        s.current.data is Ahi,
    ensures
        s.image_added(chr).0.image_deleted().0.current.data->Ahi_images == s.unselected().current.data->Ahi_images,
{
    EditorState::lemma_unselected_image(s);
    let t = s.unselected();
    let a = s.image_added(chr).0;
    assert(a.unselected() == a);
    match t.current.data {
        DataView::Ahi { palette_index, palettes, image_index, images } => {
            let img = t.image();
            assert(images.insert(image_index + 1 as int, blank_image(img.width, img.height)).remove(image_index + 1 as int) =~= images);
        },
        DataView::Ahf { .. } => {},
    }
}

/// Pasting right after cutting the selection gives the selection back, over
/// the same image, and leaves it on the clipboard.
pub proof fn lemma_paste_after_cut(s: StateView)
    requires
        s.current.selection is Some,
    ensures
        s.selection_cut().selection_pasted().current.selection == s.current.selection,
        s.selection_cut().selection_pasted().current.data == s.current.data,
        s.selection_cut().selection_pasted().clipboard == s.current.selection,
{
}

/// The state after a run of persistent mutations, the `i`-th of which sets
/// the document to `edits[i]`.
pub open spec fn persistent_run(s: StateView, edits: Seq<DataView>) -> StateView
    decreases edits.len(),
{
    if edits.len() == 0 {
        s
    } else {
        persistent_run(s, edits.drop_last()).persistent_mutation_begun().with_data(edits.last())
    }
}

proof fn lemma_persistent_run_pushes_once(s: StateView, edits: Seq<DataView>)
    requires
        !s.persistent_mutation_active,
        edits.len() >= 1,
    ensures
        persistent_run(s, edits).persistent_mutation_active,
        persistent_run(s, edits).current.unsaved,
        persistent_run(s, edits).undo_stack == s.pushed_change().undo_stack,
        persistent_run(s, edits).redo_stack.len() == 0,
    decreases edits.len(),
{
    if edits.len() > 1 {
        lemma_persistent_run_pushes_once(s, edits.drop_last());
    } else {
        assert(persistent_run(s, edits.drop_last()) == s);
    }
}

/// A run of persistent mutations begun when none was under way records a
/// single undo step: afterwards the document is unsaved, there is nothing to
/// redo, and one undo gives back the document from before the run.
pub proof fn lemma_persistent_run_undoes_at_once(s: StateView, edits: Seq<DataView>)
    requires
        !s.persistent_mutation_active,
        edits.len() >= 1,
    ensures
        persistent_run(s, edits).current.unsaved,
        persistent_run(s, edits).redo_stack.len() == 0,
        persistent_run(s, edits).undo_stack.len() > 0,
        persistent_run(s, edits).undone().current == s.current,
{
    lemma_persistent_run_pushes_once(s, edits);
    let pushed = s.undo_stack.push(s.current);
    assert(pushed.last() == s.current);
    if pushed.len() > MAX_UNDOS {
        assert(pushed.subrange(1, pushed.len() as int).last() == s.current);
    }
}

/// Lifting a rectangle that lies on the image into a selection, and putting
/// the selection straight back down, gives the image back with nothing
/// selected, also when each step is a mutation of its own.
pub proof fn lemma_unselect_after_select(s: StateView, r: (int, int, int, int))
    requires
        s.wf(),
        s.current.selection is None,
        0 <= r.0,
        0 <= r.1,
        0 <= r.2,
        0 <= r.3,
        r.0 + r.2 <= s.image().width,
        r.1 + r.3 <= s.image().height,
    ensures
        s.rect_selected(r).unselected().current.selection is None,
        s.rect_selected(r).unselected().image() == s.image(),
        s.mutation_begun().rect_selected(r).mutation_begun().unselected().current.selection is None,
        s.mutation_begun().rect_selected(r).mutation_begun().unselected().image() == s.image(),
{
    let img = s.image();
    let sel = blank_image(r.2 as nat, r.3 as nat).drawn(img, -r.0, -r.1);
    let filled = img.filled_rect(r.0, r.1, r.2 as nat, r.3 as nat, Color::C0);
    EditorState::lemma_with_image_wf(s, filled);
    EditorState::lemma_with_image_image(s, filled);
    let w = s.with_image(filled);
    let d = filled.drawn(sel, r.0, r.1);
    assert(d.wf());
    EditorState::lemma_with_image_image(w, d);
    assert forall|row: int| 0 <= row < img.height implies #[trigger] d.pixels[row] =~= img.pixels[row] by {
        assert forall|col: int| 0 <= col < img.width implies d.pixels[row][col] == img.pixels[row][col] by {
            assert(d.at(col, row) == img.at(col, row));
        }
    }
    assert(d =~~= img);
    let t = s.rect_selected(r);
    assert(t.with_selection(None).current.data == w.current.data);
    assert(t.with_selection(None).with_image(d).current.data == w.with_image(d).current.data);
    let u = s.mutation_begun().rect_selected(r).mutation_begun();
    assert(u.current.data == t.current.data);
    assert(u.current.selection == t.current.selection);
    assert(u.with_selection(None).with_image(d).current.data == w.with_image(d).current.data);
}

/// The state after `k` undos in a row.
pub open spec fn undone_times(s: StateView, k: nat) -> StateView
    decreases k,
{
    if k == 0 {
        s
    } else {
        undone_times(s, (k - 1) as nat).undone()
    }
}

/// With nothing to undo an undo changes nothing; each undo in a row takes
/// one step off the history until none is left, so at most `MAX_UNDOS`
/// undos in a row find a step to undo.
pub proof fn lemma_undo_run(s: StateView, k: nat)
    requires
        s.wf(),
    ensures
        s.undo_stack.len() == 0 ==> s.undone() == s,
        undone_times(s, k).undo_stack.len() == (if k >= s.undo_stack.len() { 0 } else { s.undo_stack.len() - k }),
        undone_times(s, MAX_UNDOS as nat).undo_stack.len() == 0,
{
    lemma_undo_count(s, k);
    lemma_undo_count(s, MAX_UNDOS as nat);
}

proof fn lemma_undo_count(s: StateView, k: nat)
    ensures
        undone_times(s, k).undo_stack.len() == (if k >= s.undo_stack.len() { 0 } else { s.undo_stack.len() - k }),
    decreases k,
{
    if k > 0 {
        lemma_undo_count(s, (k - 1) as nat);
    }
}

/// With nothing selected, turning clockwise keeps the image's size and puts
/// at each pixel `(c, r)` the old pixel `(r, height - 1 - c)`, where there is
/// one; the rest becomes transparent. Turning counterclockwise puts there the
/// old pixel `(width - 1 - r, c)`. With a selection, the selection turns
/// instead and its sides swap.
pub proof fn lemma_rotation_turns_pixels(s: StateView)
    requires
        s.wf(),
    ensures
        s.current.selection is None ==> {
            let o = s.image();
            let cw = s.selection_rotated_cw().image();
            let ccw = s.selection_rotated_ccw().image();
            &&& cw.wf() && cw.width == o.width && cw.height == o.height
            &&& ccw.wf() && ccw.width == o.width && ccw.height == o.height
            &&& forall|c: int, r: int|
                0 <= c < o.width && 0 <= r < o.height ==> #[trigger] cw.at(c, r) == (if c < o.height && r < o.width {
                    o.at(r, o.height - 1 - c)
                } else {
                    Color::C0
                })
            &&& forall|c: int, r: int|
                0 <= c < o.width && 0 <= r < o.height ==> #[trigger] ccw.at(c, r) == (if c < o.height && r < o.width {
                    o.at(o.width - 1 - r, c)
                } else {
                    Color::C0
                })
        },
        s.current.selection matches Some((sel, pos)) ==> {
            &&& s.selection_rotated_cw().current.selection matches Some((t, q)) && q == pos && t.width == sel.height
                && t.height == sel.width && forall|c: int, r: int|
                0 <= c < sel.height && 0 <= r < sel.width ==> #[trigger] t.at(c, r) == sel.at(r, sel.height - 1 - c)
            &&& s.selection_rotated_ccw().current.selection matches Some((t, q)) && q == pos && t.width == sel.height
                && t.height == sel.width && forall|c: int, r: int|
                0 <= c < sel.height && 0 <= r < sel.width ==> #[trigger] t.at(c, r) == sel.at(sel.width - 1 - r, c)
            &&& s.selection_rotated_cw().image() == s.image()
            &&& s.selection_rotated_ccw().image() == s.image()
        },
{
    if s.current.selection is None {
        let o = s.image();
        let a = o.cleared().drawn(o.rotated_cw(), 0, 0);
        let b = o.cleared().drawn(o.rotated_ccw(), 0, 0);
        assert(a.wf());
        assert(b.wf());
        EditorState::lemma_with_image_image(s, a);
        EditorState::lemma_with_image_image(s, b);
    }
}

/// With nothing selected, flipping mirrors the image in place: pixel
/// `(c, r)` takes the old pixel `(width - 1 - c, r)` left to right, or
/// `(c, height - 1 - r)` top to bottom.
pub proof fn lemma_flip_mirrors_pixels(s: StateView)
    requires
        s.wf(),
        s.current.selection is None,
    ensures
        ({
            let o = s.image();
            let h = s.selection_flipped_horz().image();
            let v = s.selection_flipped_vert().image();
            &&& h.width == o.width && h.height == o.height && v.width == o.width && v.height == o.height
            &&& forall|c: int, r: int| 0 <= c < o.width && 0 <= r < o.height ==> #[trigger] h.at(c, r) == o.at(o.width - 1 - c, r)
            &&& forall|c: int, r: int| 0 <= c < o.width && 0 <= r < o.height ==> #[trigger] v.at(c, r) == o.at(c, o.height - 1 - r)
        }),
{
    let o = s.image();
    EditorState::lemma_with_image_image(s, o.flipped_horz());
    EditorState::lemma_with_image_image(s, o.flipped_vert());
}

/// Deleting an image of a collection that has others removes just that
/// image; the image edited next is the one that followed it, or, when it was
/// the last, the one before it.
pub proof fn lemma_delete_image_keeps_place(s: StateView)
    requires
        s.wf(),
        s.current.selection is None,
        s.current.data is Ahi,
        s.current.data->Ahi_images.len() > 1,
    ensures
        ({
            let images = s.current.data->Ahi_images;
            let i = s.current.data->Ahi_image_index;
            let (t, deleted) = s.image_deleted();
            &&& deleted
            &&& t.current.data->Ahi_images == images.remove(i as int)
            &&& t.current.data->Ahi_images.len() + 1 == images.len()
            &&& i + 1 < images.len() ==> t.current.data->Ahi_image_index == i && t.image() == images[i + 1int]
            &&& i + 1 == images.len() ==> t.current.data->Ahi_image_index == i - 1 && t.image() == images[i - 1int]
        }),
{
}

/// Painting with a mirror paints the pixel itself first, and with it its
/// image under each symmetry the mirror has: left to right for `Horz` and
/// `Both`, top to bottom for `Vert` and `Both`, the half turn for `Both`,
/// `Rot2` and `Rot4`; `Rot4` adds at most the two quarter turns that land on
/// the image.
pub proof fn lemma_mirror_symmetries(width: int, height: int, x: int, y: int, mirror: Mirror)
    requires
        0 <= x < width,
        0 <= y < height,
    ensures
        ({
            let ps = mirror_positions_of(width, height, x, y, mirror);
            let h = (width - 1 - x, y);
            let v = (x, height - 1 - y);
            let half = (width - 1 - x, height - 1 - y);
            &&& ps[0] == (x, y)
            &&& (mirror == Mirror::Horz || mirror == Mirror::Both) ==> ps.contains(h)
            &&& (mirror == Mirror::Vert || mirror == Mirror::Both) ==> ps.contains(v)
            &&& (mirror == Mirror::Both || mirror == Mirror::Rot2 || mirror == Mirror::Rot4) ==> ps.contains(half)
            &&& mirror == Mirror::NoMirror ==> ps == seq![(x, y)]
            &&& mirror == Mirror::Horz ==> ps == seq![(x, y), h]
            &&& mirror == Mirror::Vert ==> ps == seq![(x, y), v]
            &&& mirror == Mirror::Rot2 ==> ps == seq![(x, y), half]
            &&& mirror == Mirror::Both ==> ps == seq![(x, y), h, v, half]
            &&& mirror == Mirror::Rot4 ==> 2 <= ps.len() <= 4 && ps[1] == half
        }),
{
    let ps = mirror_positions_of(width, height, x, y, mirror);
    let h = (width - 1 - x, y);
    let v = (x, height - 1 - y);
    let half = (width - 1 - x, height - 1 - y);
    if mirror == Mirror::Horz {
        assert(ps[1] == h);
    }
    if mirror == Mirror::Vert {
        assert(ps[1] == v);
    }
    if mirror == Mirror::Both {
        assert(ps[1] == h && ps[2] == v && ps[3] == half);
    }
    if mirror == Mirror::Rot2 || mirror == Mirror::Rot4 {
        assert(ps[1] == half);
    }
}


/// With nothing selected, a quarter turn one way and a quarter turn back give
/// a square image back, and mirroring twice the same way gives any image back.
pub proof fn lemma_turn_and_flip_back(s: StateView)
    requires
        s.wf(),
        s.current.selection is None,
    ensures
        s.image().width == s.image().height ==> s.selection_rotated_cw().selection_rotated_ccw().image() == s.image(),
        s.image().width == s.image().height ==> s.selection_rotated_ccw().selection_rotated_cw().image() == s.image(),
        s.selection_flipped_horz().selection_flipped_horz().image() == s.image(),
        s.selection_flipped_vert().selection_flipped_vert().image() == s.image(),
{
    let o = s.image();
    let a = o.cleared().drawn(o.rotated_cw(), 0, 0);
    let b = o.cleared().drawn(o.rotated_ccw(), 0, 0);
    assert(a.wf());
    assert(b.wf());
    EditorState::lemma_with_image_wf(s, a);
    EditorState::lemma_with_image_wf(s, b);
    EditorState::lemma_with_image_image(s, a);
    EditorState::lemma_with_image_image(s, b);
    let t1 = s.selection_rotated_cw();
    let t2 = s.selection_rotated_ccw();
    lemma_rotation_turns_pixels(s);
    lemma_rotation_turns_pixels(t1);
    lemma_rotation_turns_pixels(t2);
    if o.width == o.height {
        let i1 = t1.image();
        let i2 = t2.image();
        let a1 = i1.cleared().drawn(i1.rotated_ccw(), 0, 0);
        let a2 = i2.cleared().drawn(i2.rotated_cw(), 0, 0);
        assert(a1.wf());
        assert(a2.wf());
        EditorState::lemma_with_image_image(t1, a1);
        EditorState::lemma_with_image_image(t2, a2);
        let u1 = t1.selection_rotated_ccw().image();
        let u2 = t2.selection_rotated_cw().image();
        assert(u1.tag == o.tag && u1.metadata == o.metadata && u1.width == o.width && u1.height == o.height);
        assert(u2.tag == o.tag && u2.metadata == o.metadata && u2.width == o.width && u2.height == o.height);
        assert forall|r: int| 0 <= r < o.height implies #[trigger] u1.pixels[r] =~= o.pixels[r] by {
            assert forall|c: int| 0 <= c < o.width implies u1.pixels[r][c] == o.pixels[r][c] by {
                assert(u1.at(c, r) == t1.image().at(o.width - 1 - r, c));
                assert(t1.image().at(o.width - 1 - r, c) == o.at(c, r));
            }
        }
        assert forall|r: int| 0 <= r < o.height implies #[trigger] u2.pixels[r] =~= o.pixels[r] by {
            assert forall|c: int| 0 <= c < o.width implies u2.pixels[r][c] == o.pixels[r][c] by {
                assert(u2.at(c, r) == t2.image().at(r, o.height - 1 - c));
                assert(t2.image().at(r, o.height - 1 - c) == o.at(c, r));
            }
        }
        assert(u1 =~~= o);
        assert(u2 =~~= o);
    }
    let h = o.flipped_horz();
    let v = o.flipped_vert();
    EditorState::lemma_with_image_wf(s, h);
    EditorState::lemma_with_image_wf(s, v);
    EditorState::lemma_with_image_image(s, h);
    EditorState::lemma_with_image_image(s, v);
    crate::image::lemma_flip_twice(o);
    EditorState::lemma_with_image_image(s.selection_flipped_horz(), h.flipped_horz());
    EditorState::lemma_with_image_image(s.selection_flipped_vert(), v.flipped_vert());
}

/// With nothing selected, scaling up twice keeps the image's size and puts at
/// each pixel `(c, r)` the old pixel `(c / 2, r / 2)`, so that the top-left
/// quarter of the image fills the whole of it. A selection grows to twice its
/// width and height instead, each pixel a two-by-two square.
pub proof fn lemma_scale_doubles_pixels(s: StateView)
    requires
        s.wf(),
    ensures
        s.current.selection is None ==> {
            let o = s.image();
            let n = s.selection_scaled_2x().image();
            &&& n.wf() && n.width == o.width && n.height == o.height
            &&& forall|c: int, r: int| 0 <= c < o.width && 0 <= r < o.height ==> #[trigger] n.at(c, r) == o.at(c / 2, r / 2)
        },
        s.current.selection matches Some((sel, pos)) ==> {
            &&& s.selection_scaled_2x().current.selection matches Some((t, q)) && q == pos && t.width == 2 * sel.width
                && t.height == 2 * sel.height && forall|c: int, r: int|
                0 <= c < 2 * sel.width && 0 <= r < 2 * sel.height ==> #[trigger] t.at(c, r) == sel.at(c / 2, r / 2)
            &&& s.selection_scaled_2x().image() == s.image()
        },
{
    if s.current.selection is None {
        let o = s.image();
        let sc = scaled_2x(o);
        let a = o.cleared().drawn(sc, 0, 0);
        assert(a.wf());
        EditorState::lemma_with_image_image(s, a);
        assert forall|c: int, r: int| 0 <= c < o.width && 0 <= r < o.height implies #[trigger] a.at(c, r) == o.at(c / 2, r / 2) by {
            assert(sc.in_bounds(c, r));
            assert(sc.at(c, r) == o.at(c / 2, r / 2));
        }
    }
}

/// In a collection with nothing selected, resizing crops or extends every
/// image to the new size from its top-left corner: what stays keeps its
/// pixels, new pixels are transparent, and no image is added, lost or
/// reordered.
pub proof fn lemma_resize_crops_every_image(s: StateView, w: nat, h: nat)
    requires
        s.wf(),
        s.current.selection is None,
        s.current.data is Ahi,
    ensures
        ({
            let images = s.current.data->Ahi_images;
            let t = s.resized(w, h);
            let out = t.current.data->Ahi_images;
            &&& t.current.data is Ahi
            &&& out.len() == images.len()
            &&& t.current.data->Ahi_image_index == s.current.data->Ahi_image_index
            &&& t.current.data->Ahi_palettes == s.current.data->Ahi_palettes
            &&& forall|k: int| 0 <= k < images.len() ==> {
                &&& (#[trigger] out[k]).width == w && out[k].height == h
                &&& out[k].tag == images[k].tag && out[k].metadata == images[k].metadata
                &&& forall|c: int, r: int| 0 <= c < w && 0 <= r < h ==> #[trigger] out[k].at(c, r) == (if c < images[k].width
                    && r < images[k].height {
                    images[k].at(c, r)
                } else {
                    Color::C0
                })
            }
        }),
{
}

/// In a collection with nothing selected, adding an image puts a transparent
/// image of the current size right after the current one and edits it; the
/// images before it and after it stay as they were, in order.
pub proof fn lemma_add_image_inserts_blank(s: StateView, chr: char)
    requires
        s.wf(),
        s.current.selection is None,
        s.current.data is Ahi,
    ensures
        ({
            let images = s.current.data->Ahi_images;
            let i = s.current.data->Ahi_image_index;
            let (t, added) = s.image_added(chr);
            let out = t.current.data->Ahi_images;
            &&& added
            &&& out.len() == images.len() + 1
            &&& t.current.data->Ahi_image_index == i + 1
            &&& t.image().width == s.image().width && t.image().height == s.image().height
            &&& forall|c: int, r: int| 0 <= c < s.image().width && 0 <= r < s.image().height ==> #[trigger] t.image().at(c, r) == Color::C0
            &&& forall|k: int| 0 <= k <= i ==> #[trigger] out[k] == images[k]
            &&& forall|k: int| i + 1 < k < out.len() ==> #[trigger] out[k] == images[k - 1]
        }),
{
}

/// In a collection with nothing selected: adding a palette inserts a copy of
/// the palette in use (the built-in one included) and chooses it; deleting
/// removes the chosen palette and chooses the one before it, or the built-in
/// palette when it was the first, and does nothing while the built-in
/// palette is in use; setting a color changes just that entry of the chosen
/// palette, and nothing while the built-in palette is in use.
pub proof fn lemma_palette_edits(s: StateView, color: Color, rgba: Rgba)
    requires
        s.wf(),
        s.current.selection is None,
        s.current.data is Ahi,
    ensures
        ({
            let ps = s.current.data->Ahi_palettes;
            let p = s.current.data->Ahi_palette_index;
            let (a, added) = s.palette_added();
            let (d, deleted) = s.palette_deleted();
            let (c, set) = s.palette_color_set(color, rgba);
            &&& added && a.current.data->Ahi_palettes.len() == ps.len() + 1
            &&& a.current.data.palette() == s.current.data.palette()
            &&& a.current.data->Ahi_images == s.current.data->Ahi_images
            &&& p < ps.len() ==> a.current.data->Ahi_palette_index == p + 1
                && a.current.data->Ahi_palettes == ps.insert(p + 1int, ps[p as int])
            &&& p == ps.len() ==> a.current.data->Ahi_palette_index == 0
                && a.current.data->Ahi_palettes == ps.insert(0, default_palette_entries())
            &&& deleted == (p < ps.len())
            &&& p < ps.len() ==> d.current.data->Ahi_palettes == ps.remove(p as int)
                && d.current.data->Ahi_palette_index == (if p > 0 { p - 1 } else { ps.len() - 1 })
            &&& p == ps.len() ==> d == s
            &&& set == (p < ps.len())
            &&& p < ps.len() ==> {
                &&& c.current.data->Ahi_palettes.len() == ps.len()
                &&& c.current.data.palette()[color_code(color) as int] == rgba
                &&& forall|j: int| 0 <= j < 16 && j != color_code(color) ==> #[trigger] c.current.data.palette()[j] == ps[p as int][j]
                &&& forall|k: int| 0 <= k < ps.len() && k != p ==> #[trigger] c.current.data->Ahi_palettes[k] == ps[k]
            }
            &&& p == ps.len() ==> c == s
        }),
{
}

/// In a collection, going to the decimal writing of an image's index edits
/// that image; a number past the last image changes nothing.
pub proof fn lemma_go_to_number(s: StateView, k: nat)
    requires
        s.wf(),
        s.current.data is Ahi,
        k <= usize::MAX,
    ensures
        k < s.current.data->Ahi_images.len() ==> s.gone_to(decimal(k)).1 && s.gone_to(decimal(k)).0.current.data->Ahi_image_index
            == k && s.gone_to(decimal(k)).0.image() == s.current.data->Ahi_images[k as int]
            && s.gone_to(decimal(k)).0.current.data->Ahi_images == s.current.data->Ahi_images,
        k >= s.current.data->Ahi_images.len() ==> !s.gone_to(decimal(k)).1 && s.gone_to(decimal(k)).0 == s,
{
    crate::util::lemma_parse_decimal(k, usize::MAX as nat);
}

/// Painting a pixel gives it the current color, and with it each of its
/// images under the mirror's symmetries; without a mirror every other pixel
/// keeps its color. The image keeps its size.
pub proof fn lemma_paint_with_mirror(s: StateView, x: int, y: int)
    requires
        s.wf(),
        0 <= x < s.image().width,
        0 <= y < s.image().height,
    ensures
        ({
            let o = s.image();
            let n = s.pixel_colored((x, y)).image();
            let w = o.width as int;
            let h = o.height as int;
            let m = s.mirror;
            &&& n.width == o.width && n.height == o.height
            &&& n.at(x, y) == s.color
            &&& (m == Mirror::Horz || m == Mirror::Both) ==> n.at(w - 1 - x, y) == s.color
            &&& (m == Mirror::Vert || m == Mirror::Both) ==> n.at(x, h - 1 - y) == s.color
            &&& (m == Mirror::Both || m == Mirror::Rot2 || m == Mirror::Rot4) ==> n.at(w - 1 - x, h - 1 - y) == s.color
            &&& m == Mirror::NoMirror ==> forall|c: int, r: int|
                0 <= c < w && 0 <= r < h && (c != x || r != y) ==> #[trigger] n.at(c, r) == o.at(c, r)
            &&& m == Mirror::Horz ==> forall|c: int, r: int|
                0 <= c < w && 0 <= r < h && (c != x || r != y) && (c != w - 1 - x || r != y) ==> #[trigger] n.at(c, r) == o.at(c, r)
        }),
{
    let o = s.image();
    let w = o.width as int;
    let h = o.height as int;
    let ps = mirror_positions_of(w, h, x, y, s.mirror);
    lemma_mirror_symmetries(w, h, x, y, s.mirror);
    let img = s.image_with_pixels_at(ps, s.color);
    assert(img.wf());
    EditorState::lemma_with_image_image(s, img);
    assert(ps.contains((x, y)));
    if s.mirror == Mirror::Horz || s.mirror == Mirror::Both {
        assert(ps.contains((w - 1 - x, y)));
        assert(img.at(w - 1 - x, y) == s.color);
    }
    if s.mirror == Mirror::Vert || s.mirror == Mirror::Both {
        assert(ps.contains((x, h - 1 - y)));
        assert(img.at(x, h - 1 - y) == s.color);
    }
    if s.mirror == Mirror::Both || s.mirror == Mirror::Rot2 || s.mirror == Mirror::Rot4 {
        assert(ps.contains((w - 1 - x, h - 1 - y)));
        assert(img.at(w - 1 - x, h - 1 - y) == s.color);
    }
    if s.mirror == Mirror::NoMirror {
        assert forall|c: int, r: int| 0 <= c < w && 0 <= r < h && (c != x || r != y) implies #[trigger] img.at(c, r) == o.at(c, r) by {
            assert(!ps.contains((c, r))) by {
                if ps.contains((c, r)) {
                    let j = choose|j: int| 0 <= j < ps.len() && ps[j] == (c, r);
                    assert(j == 0);
                }
            }
        }
    }
    if s.mirror == Mirror::Horz {
        assert forall|c: int, r: int|
            0 <= c < w && 0 <= r < h && (c != x || r != y) && (c != w - 1 - x || r != y) implies #[trigger] img.at(c, r) == o.at(c, r) by {
            assert(!ps.contains((c, r))) by {
                if ps.contains((c, r)) {
                    let j = choose|j: int| 0 <= j < ps.len() && ps[j] == (c, r);
                    assert(j == 0 || j == 1);
                }
            }
        }
    }
}

/// The eyedropper takes as the current color the color of the pixel it is
/// used on, and leaves the image as it was.
pub proof fn lemma_eyedropper_takes_pixel(s: StateView, x: int, y: int)
    ensures
        s.eyedropped((x, y)).color == s.image().at(x, y),
        s.eyedropped((x, y)).image() == s.image(),
        s.eyedropped((x, y)).current == s.current,
{
}

} // verus!
