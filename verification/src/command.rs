//! Draw commands: the flat, ordered description of a frame that widgets emit
//! and the layout pass later turns into cells.
use vstd::prelude::*;
use crate::style::{Align, Border, Color, Constraints, Direction, Justify, Margin, Padding, Style};

verus! {

/// Layout parameters of a container opened by [`Command::BeginContainer`].
#[derive(Debug, Clone, Copy, PartialEq, Eq, Structural)]
pub struct ContainerArgs {
    pub direction: Direction,
    pub gap: i32,
    pub align: Align,
    pub justify: Justify,
    pub border: Option<Border>,
    pub border_style: Style,
    pub bg_color: Option<Color>,
    pub padding: Padding,
    pub margin: Margin,
    pub constraints: Constraints,
    pub grow: u16,
}

/// One element of a frame's draw list.
#[derive(Debug, Clone)]
pub enum Command {
    /// A run of text in one style.
    Text {
        content: String,
        cursor_offset: Option<usize>,
        cursor_masked: bool,
        style: Style,
        grow: u16,
        align: Align,
        wrap: bool,
        truncate: bool,
        margin: Margin,
        constraints: Constraints,
    },
    /// A clickable hyperlink.
    Link {
        text: String,
        url: String,
        style: Style,
        wrap: bool,
        margin: Margin,
        constraints: Constraints,
    },
    /// Inline text made of differently styled segments.
    RichText {
        segments: Vec<(String, Style)>,
        wrap: bool,
        align: Align,
        margin: Margin,
        constraints: Constraints,
    },
    /// Invisible filler that grows to take free space.
    Spacer { grow: u16 },
    /// Opens a container; closed by the matching [`Command::EndContainer`].
    BeginContainer(ContainerArgs),
    /// Closes the innermost open container.
    EndContainer,
    /// Opens a floating layer.
    BeginOverlay { modal: bool },
    /// Closes the innermost floating layer.
    EndOverlay,
    /// Marks the widget that holds keyboard focus.
    FocusMarker(usize),
    /// Marks where an interaction slot's hit area begins.
    InteractionMarker(usize),
    /// Marks that the row container right after it lays its children out
    /// over as many lines as they need, this many blank rows apart.
    WrapMarker(u32),
}

} // verus!
