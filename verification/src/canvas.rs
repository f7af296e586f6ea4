//! The icons that the tool and mirror pickers show.

use crate::state::{Mirror, Tool};
use vstd::prelude::*;

verus! {

/// An icon of the toolbox, in the order of the icon sheet.
#[derive(Clone, Copy, Debug, PartialEq, Eq, Structural)]
pub enum ToolIcon {
    Pencil,
    PaintBucket,
    Eyedropper,
    Select,
    Line,
    Checkerboard,
    Oval,
    Rectangle,
    PaletteSwap,
    PaletteReplace,
    Watercolor,
    Lasso,
    MirrorNone,
    MirrorHorz,
    MirrorVert,
    MirrorBoth,
    MirrorRot2,
    MirrorRot4,
    ArrowLeft,
    ArrowRight,
    AddPalette,
    DeletePalette,
}

/// The place of an icon on the icon sheet.
pub open spec fn icon_index(icon: ToolIcon) -> nat {
    match icon {
        ToolIcon::Pencil => 0,
        ToolIcon::PaintBucket => 1,
        ToolIcon::Eyedropper => 2,
        ToolIcon::Select => 3,
        ToolIcon::Line => 4,
        ToolIcon::Checkerboard => 5,
        ToolIcon::Oval => 6,
        ToolIcon::Rectangle => 7,
        ToolIcon::PaletteSwap => 8,
        ToolIcon::PaletteReplace => 9,
        ToolIcon::Watercolor => 10,
        ToolIcon::Lasso => 11,
        ToolIcon::MirrorNone => 12,
        ToolIcon::MirrorHorz => 13,
        ToolIcon::MirrorVert => 14,
        ToolIcon::MirrorBoth => 15,
        ToolIcon::MirrorRot2 => 16,
        ToolIcon::MirrorRot4 => 17,
        ToolIcon::ArrowLeft => 18,
        ToolIcon::ArrowRight => 19,
        ToolIcon::AddPalette => 20,
        ToolIcon::DeletePalette => 21,
    }
}

/// The icon that shows a tool.
pub open spec fn tool_icon(tool: Tool) -> ToolIcon {
    match tool {
        Tool::Checkerboard => ToolIcon::Checkerboard,
        Tool::Eyedropper => ToolIcon::Eyedropper,
        Tool::Lasso => ToolIcon::Lasso,
        Tool::Line => ToolIcon::Line,
        Tool::Oval => ToolIcon::Oval,
        Tool::PaintBucket => ToolIcon::PaintBucket,
        Tool::PaletteReplace => ToolIcon::PaletteReplace,
        Tool::PaletteSwap => ToolIcon::PaletteSwap,
        Tool::Pencil => ToolIcon::Pencil,
        Tool::Rectangle => ToolIcon::Rectangle,
        Tool::Select => ToolIcon::Select,
        Tool::Watercolor => ToolIcon::Watercolor,
    }
}

/// The icon that shows a mirror.
pub open spec fn mirror_icon(mirror: Mirror) -> ToolIcon {
    match mirror {
        Mirror::NoMirror => ToolIcon::MirrorNone,
        Mirror::Horz => ToolIcon::MirrorHorz,
        Mirror::Vert => ToolIcon::MirrorVert,
        Mirror::Both => ToolIcon::MirrorBoth,
        Mirror::Rot2 => ToolIcon::MirrorRot2,
        Mirror::Rot4 => ToolIcon::MirrorRot4,
    }
}

impl ToolIcon {
    /// The place of the icon on the icon sheet.
    pub fn index(self) -> (i: usize)
        ensures
            i == icon_index(self),
    {
        match self {
            ToolIcon::Pencil => 0,
            ToolIcon::PaintBucket => 1,
            ToolIcon::Eyedropper => 2,
            ToolIcon::Select => 3,
            ToolIcon::Line => 4,
            ToolIcon::Checkerboard => 5,
            ToolIcon::Oval => 6,
            ToolIcon::Rectangle => 7,
            ToolIcon::PaletteSwap => 8,
            ToolIcon::PaletteReplace => 9,
            ToolIcon::Watercolor => 10,
            ToolIcon::Lasso => 11,
            ToolIcon::MirrorNone => 12,
            ToolIcon::MirrorHorz => 13,
            ToolIcon::MirrorVert => 14,
            ToolIcon::MirrorBoth => 15,
            ToolIcon::MirrorRot2 => 16,
            ToolIcon::MirrorRot4 => 17,
            ToolIcon::ArrowLeft => 18,
            ToolIcon::ArrowRight => 19,
            ToolIcon::AddPalette => 20,
            ToolIcon::DeletePalette => 21,
        }
    }

    /// The icon that shows `tool`.
    pub fn for_tool(tool: Tool) -> (icon: ToolIcon)
        ensures
            icon == tool_icon(tool),
    {
        match tool {
            Tool::Checkerboard => ToolIcon::Checkerboard,
            Tool::Eyedropper => ToolIcon::Eyedropper,
            Tool::Lasso => ToolIcon::Lasso,
            Tool::Line => ToolIcon::Line,
            Tool::Oval => ToolIcon::Oval,
            Tool::PaintBucket => ToolIcon::PaintBucket,
            Tool::PaletteReplace => ToolIcon::PaletteReplace,
            Tool::PaletteSwap => ToolIcon::PaletteSwap,
            Tool::Pencil => ToolIcon::Pencil,
            Tool::Rectangle => ToolIcon::Rectangle,
            Tool::Select => ToolIcon::Select,
            Tool::Watercolor => ToolIcon::Watercolor,
        }
    }

    /// The icon that shows `mirror`.
    pub fn for_mirror(mirror: Mirror) -> (icon: ToolIcon)
        ensures
            icon == mirror_icon(mirror),
    {
        match mirror {
            Mirror::NoMirror => ToolIcon::MirrorNone,
            Mirror::Horz => ToolIcon::MirrorHorz,
            Mirror::Vert => ToolIcon::MirrorVert,
            Mirror::Both => ToolIcon::MirrorBoth,
            Mirror::Rot2 => ToolIcon::MirrorRot2,
            Mirror::Rot4 => ToolIcon::MirrorRot4,
        }
    }
}

/// Different icons sit at different places of the sheet.
pub proof fn lemma_icon_index_injective(a: ToolIcon, b: ToolIcon)
    ensures
        icon_index(a) == icon_index(b) ==> a == b,
{
}

} // verus!
