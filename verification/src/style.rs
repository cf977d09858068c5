//! Visual vocabulary shared by every widget: colors, text modifiers, styles,
//! alignment, spacing, constraints, rectangles and the color theme.
use vstd::prelude::*;

verus! {

/// A terminal color.
#[derive(Debug, Clone, Copy, PartialEq, Eq, Structural)]
pub enum Color {
    /// The terminal's default color.
    Reset,
    Black,
    Red,
    Green,
    Yellow,
    Blue,
    Magenta,
    Cyan,
    White,
    DarkGray,
    LightRed,
    LightGreen,
    LightYellow,
    LightBlue,
    LightMagenta,
    LightCyan,
    /// A 24-bit color.
    Rgb(u8, u8, u8),
    /// A 256-color palette index.
    Indexed(u8),
}

/// Approximate perceived brightness (0..=255) of a color, used to pick a
/// readable foreground on top of it.
pub open spec fn luma(c: Color) -> int {
    match c {
        Color::Rgb(r, g, b) => (299 * r + 587 * g + 114 * b) / 1000,
        Color::White | Color::LightYellow | Color::LightCyan | Color::LightGreen | Color::Yellow
        | Color::Cyan => 255,
        _ => 0,
    }
}

impl Color {
    /// Black on bright backgrounds, white on dark ones.
    pub open spec fn spec_contrast_fg(bg: Color) -> Color {
        if luma(bg) > 128 {
            Color::Black
        } else {
            Color::White
        }
    }

    /// Pick a foreground color that stays readable on `bg`.
    pub fn contrast_fg(bg: Color) -> (c: Color)
        ensures
            c == Self::spec_contrast_fg(bg),
    {
        let bright = match bg {
            Color::Rgb(r, g, b) => {
                let weighted: u32 = 299 * (r as u32) + 587 * (g as u32) + 114 * (b as u32);
                weighted / 1000 > 128
            },
            Color::White | Color::LightYellow | Color::LightCyan | Color::LightGreen
            | Color::Yellow | Color::Cyan => true,
            _ => false,
        };
        if bright {
            Color::Black
        } else {
            Color::White
        }
    }
}

/// Text modifier bit flags.
#[derive(Debug, Clone, Copy, PartialEq, Eq, Default, Structural)]
pub struct Modifiers(pub u8);

/// Bold text.
pub const BOLD: u8 = 1;
/// Dim (faint) text.
pub const DIM: u8 = 2;
/// Italic text.
pub const ITALIC: u8 = 4;
/// Underlined text.
pub const UNDERLINE: u8 = 8;
/// Reverse video.
pub const REVERSED: u8 = 16;
/// Struck-through text.
pub const STRIKETHROUGH: u8 = 32;

/// Adding one flag to no flags gives that flag; underline then bold gives both.
pub proof fn lemma_single_flags()
    ensures
        0u8 | BOLD == BOLD,
        0u8 | DIM == DIM,
        0u8 | ITALIC == ITALIC,
        0u8 | UNDERLINE == UNDERLINE,
        0u8 | REVERSED == REVERSED,
        (0u8 | UNDERLINE) | BOLD == UNDERLINE | BOLD,
        (0u8 | BOLD) | UNDERLINE == BOLD | UNDERLINE,
{
    assert(0u8 | BOLD == BOLD && 0u8 | DIM == DIM && 0u8 | ITALIC == ITALIC
        && 0u8 | UNDERLINE == UNDERLINE && 0u8 | REVERSED == REVERSED
        && (0u8 | UNDERLINE) | BOLD == UNDERLINE | BOLD
        && (0u8 | BOLD) | UNDERLINE == BOLD | UNDERLINE) by (bit_vector);
}

impl Modifiers {
    /// Whether every bit of `other` is set in `self`.
    pub open spec fn spec_contains(self, other: u8) -> bool {
        self.0 & other == other
    }

    /// Returns `true` if all bits of `other` are set.
    #[verifier::when_used_as_spec(spec_contains)]
    pub fn contains(self, other: u8) -> (r: bool)
        ensures
            r == self.spec_contains(other),
    {
        self.0 & other == other
    }
}

/// Foreground, background and modifiers of a run of text.
#[derive(Debug, Clone, Copy, PartialEq, Eq, Structural)]
pub struct Style {
    /// Foreground color; `None` inherits.
    pub fg: Option<Color>,
    /// Background color; `None` inherits.
    pub bg: Option<Color>,
    /// Modifier flags.
    pub modifiers: Modifiers,
}

/// The empty style.
pub open spec fn plain() -> Style {
    Style { fg: None, bg: None, modifiers: Modifiers(0) }
}

/// A style with only a foreground color.
pub open spec fn fg_style(c: Color) -> Style {
    Style { fg: Some(c), bg: None, modifiers: Modifiers(0) }
}

/// `s` with the modifier bits `bits` added.
pub open spec fn with_mods(s: Style, bits: u8) -> Style {
    Style { modifiers: Modifiers(s.modifiers.0 | bits), ..s }
}

impl Style {
    /// The empty style.
    pub fn new() -> (s: Style)
        ensures
            s == plain(),
    {
        Style { fg: None, bg: None, modifiers: Modifiers(0) }
    }

    /// Set the foreground color.
    pub fn fg(self, c: Color) -> (s: Style)
        ensures
            s == (Style { fg: Some(c), ..self }),
    {
        Style { fg: Some(c), ..self }
    }

    /// Set the background color.
    pub fn bg(self, c: Color) -> (s: Style)
        ensures
            s == (Style { bg: Some(c), ..self }),
    {
        Style { bg: Some(c), ..self }
    }

    /// Add the modifier bits `bits`.
    pub fn add_modifier(self, bits: u8) -> (s: Style)
        ensures
            s == with_mods(self, bits),
    {
        Style { modifiers: Modifiers(self.modifiers.0 | bits), ..self }
    }

    /// Add bold.
    pub fn bold(self) -> (s: Style)
        ensures
            s == with_mods(self, BOLD),
    {
        self.add_modifier(BOLD)
    }

    /// Add dim.
    pub fn dim(self) -> (s: Style)
        ensures
            s == with_mods(self, DIM),
    {
        self.add_modifier(DIM)
    }
}

/// Cross-axis or text alignment.
#[derive(Debug, Clone, Copy, PartialEq, Eq, Structural)]
pub enum Align {
    Start,
    Center,
    End,
}

/// Main-axis distribution of a container's children.
#[derive(Debug, Clone, Copy, PartialEq, Eq, Structural)]
pub enum Justify {
    Start,
    Center,
    End,
    SpaceBetween,
}

/// Main-axis direction of a container.
#[derive(Debug, Clone, Copy, PartialEq, Eq, Structural)]
pub enum Direction {
    Row,
    Column,
}

/// Border glyph set of a container.
#[derive(Debug, Clone, Copy, PartialEq, Eq, Structural)]
pub enum Border {
    Single,
    Double,
    Rounded,
    Thick,
}

/// Outer spacing in cells.
#[derive(Debug, Clone, Copy, PartialEq, Eq, Default, Structural)]
pub struct Margin {
    pub top: u32,
    pub right: u32,
    pub bottom: u32,
    pub left: u32,
}

/// The margin with every side zero.
pub open spec fn no_margin() -> Margin {
    Margin { top: 0, right: 0, bottom: 0, left: 0 }
}

impl Margin {
    /// Zero on every side.
    pub fn zero() -> (m: Margin)
        ensures
            m == no_margin(),
    {
        Margin { top: 0, right: 0, bottom: 0, left: 0 }
    }

    /// `value` on every side.
    pub fn all(value: u32) -> (m: Margin)
        ensures
            m == (Margin { top: value, right: value, bottom: value, left: value }),
    {
        Margin { top: value, right: value, bottom: value, left: value }
    }
}

/// Inner spacing in cells.
#[derive(Debug, Clone, Copy, PartialEq, Eq, Default, Structural)]
pub struct Padding {
    pub top: u32,
    pub right: u32,
    pub bottom: u32,
    pub left: u32,
}

/// Size limits of an element. `None` leaves a bound open.
#[derive(Debug, Clone, Copy, PartialEq, Eq, Default, Structural)]
pub struct Constraints {
    pub min_width: Option<u32>,
    pub max_width: Option<u32>,
    pub min_height: Option<u32>,
    pub max_height: Option<u32>,
    /// Width as a percentage of the parent.
    pub width_pct: Option<u8>,
    /// Height as a percentage of the parent.
    pub height_pct: Option<u8>,
}

/// Constraints with every bound open.
pub open spec fn open_constraints() -> Constraints {
    Constraints {
        min_width: None,
        max_width: None,
        min_height: None,
        max_height: None,
        width_pct: None,
        height_pct: None,
    }
}

impl Constraints {
    /// Every bound open.
    pub fn none() -> (c: Constraints)
        ensures
            c == open_constraints(),
    {
        Constraints {
            min_width: None,
            max_width: None,
            min_height: None,
            max_height: None,
            width_pct: None,
            height_pct: None,
        }
    }

    /// Fix the width to exactly `value` cells.
    pub fn w(self, value: u32) -> (c: Constraints)
        ensures
            c == (Constraints { min_width: Some(value), max_width: Some(value), width_pct: None, ..self }),
    {
        Constraints { min_width: Some(value), max_width: Some(value), width_pct: None, ..self }
    }

    /// Size the width as `pct` percent of the parent.
    pub fn w_pct(self, pct: u8) -> (c: Constraints)
        ensures
            c == (Constraints { width_pct: Some(pct), ..self }),
    {
        Constraints { width_pct: Some(pct), ..self }
    }

    /// Fix the height to exactly `value` cells.
    pub fn h(self, value: u32) -> (c: Constraints)
        ensures
            c == (Constraints { min_height: Some(value), max_height: Some(value), height_pct: None, ..self }),
    {
        Constraints { min_height: Some(value), max_height: Some(value), height_pct: None, ..self }
    }
}

/// An axis-aligned cell rectangle.
#[derive(Debug, Clone, Copy, PartialEq, Eq, Default, Structural)]
pub struct Rect {
    pub x: u32,
    pub y: u32,
    pub width: u32,
    pub height: u32,
}

/// `a + b`, capped at `u32::MAX`.
pub open spec fn sat_add(a: u32, b: u32) -> u32 {
    if a + b > u32::MAX {
        u32::MAX
    } else {
        (a + b) as u32
    }
}

/// Whether the point `(px, py)` lies inside `r` (right and bottom edges excluded).
pub open spec fn rect_contains(r: Rect, px: u32, py: u32) -> bool {
    r.x <= px < sat_add(r.x, r.width) && r.y <= py < sat_add(r.y, r.height)
}

impl Rect {
    /// One past the last column.
    pub fn right(&self) -> (r: u32)
        ensures
            r == sat_add(self.x, self.width),
    {
        self.x.saturating_add(self.width)
    }

    /// One past the last row.
    pub fn bottom(&self) -> (r: u32)
        ensures
            r == sat_add(self.y, self.height),
    {
        self.y.saturating_add(self.height)
    }

    /// Whether the rectangle covers no cell.
    pub fn is_empty(&self) -> (r: bool)
        ensures
            r == (self.width == 0 || self.height == 0),
    {
        self.width == 0 || self.height == 0
    }

    /// Whether `(px, py)` lies inside the rectangle.
    pub fn contains(&self, px: u32, py: u32) -> (r: bool)
        ensures
            r == rect_contains(*self, px, py),
    {
        px >= self.x && px < self.right() && py >= self.y && py < self.bottom()
    }
}

/// The theme's spacing scale: `xs` is the base unit, `sm` twice it.
#[derive(Debug, Clone, Copy, PartialEq, Eq, Structural)]
pub struct Spacing(pub u32);

impl Spacing {
    /// The smallest gap.
    pub fn xs(&self) -> (r: u32)
        ensures
            r == self.0,
    {
        self.0
    }

    /// Twice the base unit, capped at `u32::MAX`.
    pub fn sm(&self) -> (r: u32)
        ensures
            r == sat_add(self.0, self.0),
    {
        self.0.saturating_add(self.0)
    }
}

/// A named color slot of the theme.
#[derive(Debug, Clone, Copy, PartialEq, Eq, Structural)]
pub enum ThemeColor {
    Primary,
    Secondary,
    Accent,
    Text,
    TextDim,
    Border,
    Bg,
    Success,
    Warning,
    Error,
    Surface,
    SurfaceHover,
    SurfaceText,
    SelectedBg,
    SelectedFg,
}

/// The color palette every widget draws with.
#[derive(Debug, Clone, Copy, PartialEq, Eq, Structural)]
pub struct Theme {
    pub primary: Color,
    pub secondary: Color,
    pub accent: Color,
    pub text: Color,
    pub text_dim: Color,
    pub border: Color,
    pub bg: Color,
    pub success: Color,
    pub warning: Color,
    pub error: Color,
    pub surface: Color,
    pub surface_hover: Color,
    pub surface_text: Color,
    pub selected_bg: Color,
    pub selected_fg: Color,
    pub spacing: Spacing,
}

impl Theme {
    /// The color the token `token` names in this theme.
    pub open spec fn spec_resolve(self, token: ThemeColor) -> Color {
        match token {
            ThemeColor::Primary => self.primary,
            ThemeColor::Secondary => self.secondary,
            ThemeColor::Accent => self.accent,
            ThemeColor::Text => self.text,
            ThemeColor::TextDim => self.text_dim,
            ThemeColor::Border => self.border,
            ThemeColor::Bg => self.bg,
            ThemeColor::Success => self.success,
            ThemeColor::Warning => self.warning,
            ThemeColor::Error => self.error,
            ThemeColor::Surface => self.surface,
            ThemeColor::SurfaceHover => self.surface_hover,
            ThemeColor::SurfaceText => self.surface_text,
            ThemeColor::SelectedBg => self.selected_bg,
            ThemeColor::SelectedFg => self.selected_fg,
        }
    }

    /// Resolve a color token against this theme.
    pub fn resolve(&self, token: ThemeColor) -> (c: Color)
        ensures
            c == self.spec_resolve(token),
    {
        match token {
            ThemeColor::Primary => self.primary,
            ThemeColor::Secondary => self.secondary,
            ThemeColor::Accent => self.accent,
            ThemeColor::Text => self.text,
            ThemeColor::TextDim => self.text_dim,
            ThemeColor::Border => self.border,
            ThemeColor::Bg => self.bg,
            ThemeColor::Success => self.success,
            ThemeColor::Warning => self.warning,
            ThemeColor::Error => self.error,
            ThemeColor::Surface => self.surface,
            ThemeColor::SurfaceHover => self.surface_hover,
            ThemeColor::SurfaceText => self.surface_text,
            ThemeColor::SelectedBg => self.selected_bg,
            ThemeColor::SelectedFg => self.selected_fg,
        }
    }

    /// The dark palette.
    pub open spec fn spec_dark() -> Theme {
        Theme {
            primary: Color::Cyan,
            secondary: Color::Magenta,
            accent: Color::LightCyan,
            text: Color::White,
            text_dim: Color::DarkGray,
            border: Color::DarkGray,
            bg: Color::Black,
            success: Color::Green,
            warning: Color::Yellow,
            error: Color::Red,
            surface: Color::Indexed(236),
            surface_hover: Color::Indexed(238),
            surface_text: Color::White,
            selected_bg: Color::Cyan,
            selected_fg: Color::Black,
            spacing: Spacing(1),
        }
    }

    /// A palette for dark terminal backgrounds.
    pub fn dark() -> (t: Theme)
        ensures
            t == Self::spec_dark(),
    {
        Theme {
            primary: Color::Cyan,
            secondary: Color::Magenta,
            accent: Color::LightCyan,
            text: Color::White,
            text_dim: Color::DarkGray,
            border: Color::DarkGray,
            bg: Color::Black,
            success: Color::Green,
            warning: Color::Yellow,
            error: Color::Red,
            surface: Color::Indexed(236),
            surface_hover: Color::Indexed(238),
            surface_text: Color::White,
            selected_bg: Color::Cyan,
            selected_fg: Color::Black,
            spacing: Spacing(1),
        }
    }

    /// The light palette.
    pub open spec fn spec_light() -> Theme {
        Theme {
            primary: Color::Blue,
            secondary: Color::Magenta,
            accent: Color::LightBlue,
            text: Color::Black,
            text_dim: Color::Indexed(244),
            border: Color::Indexed(250),
            bg: Color::White,
            success: Color::Green,
            warning: Color::Yellow,
            error: Color::Red,
            surface: Color::Indexed(254),
            surface_hover: Color::Indexed(252),
            surface_text: Color::Black,
            selected_bg: Color::Blue,
            selected_fg: Color::White,
            spacing: Spacing(1),
        }
    }

    /// A palette for light terminal backgrounds.
    pub fn light() -> (t: Theme)
        ensures
            t == Self::spec_light(),
    {
        Theme {
            primary: Color::Blue,
            secondary: Color::Magenta,
            accent: Color::LightBlue,
            text: Color::Black,
            text_dim: Color::Indexed(244),
            border: Color::Indexed(250),
            bg: Color::White,
            success: Color::Green,
            warning: Color::Yellow,
            error: Color::Red,
            surface: Color::Indexed(254),
            surface_hover: Color::Indexed(252),
            surface_text: Color::Black,
            selected_bg: Color::Blue,
            selected_fg: Color::White,
            spacing: Spacing(1),
        }
    }
}

/// Terminal width classes used for responsive layouts.
#[derive(Debug, Clone, Copy, PartialEq, Eq, Structural)]
pub enum Breakpoint {
    /// Fewer than 40 columns.
    Xs,
    /// 40 to 79 columns.
    Sm,
    /// 80 to 119 columns.
    Md,
    /// 120 to 159 columns.
    Lg,
    /// 160 columns or more.
    Xl,
}

/// Which layers the debug overlay outlines.
#[derive(Debug, Clone, Copy, PartialEq, Eq, Structural)]
pub enum DebugLayer {
    /// Base tree plus every overlay and modal.
    All,
    /// Only the top-most overlay or modal.
    TopMost,
    /// Only the base tree.
    BaseOnly,
}

} // verus!
