//! Text elements and the style chain that edits the most recent one.
use vstd::prelude::*;
use crate::command::Command;
use crate::context::Context;
use crate::event::KeyCode;
use crate::context::widgets_interactive::selection::activation_codes;
use crate::unicode::{grapheme_clusters, graphemes, str_width, text_width};
use crate::style::{
    no_margin, open_constraints, with_mods, Align, Color, Constraints, Margin, Modifiers, Style,
    BOLD, DIM, ITALIC, REVERSED, STRIKETHROUGH, UNDERLINE,
};

verus! {

/// An edit the style chain applies to the most recent text element.
#[derive(Debug, Clone, Copy, PartialEq, Eq, Structural)]
pub enum TextEdit {
    /// Add modifier bits.
    Mods(u8),
    /// Set the foreground color.
    Fg(Color),
    /// Set the background color.
    Bg(Color),
    /// Dim the text; a foreground that is unset or equal to `inherited`
    /// becomes `text_dim`.
    Dim { text_dim: Color, inherited: Color },
    /// Set the flex-grow factor (plain text only).
    Grow(u16),
    /// Set the alignment (plain and rich text).
    Align(Align),
    /// Enable wrapping.
    Wrap,
    /// Enable truncation with an ellipsis (plain text only).
    Truncate,
    /// Set both width bounds.
    Width(u32),
    /// Set both height bounds.
    Height(u32),
    MinWidth(u32),
    MaxWidth(u32),
    MinHeight(u32),
    MaxHeight(u32),
    /// Set every margin side.
    MarginAll(u32),
    /// Set left and right margins.
    MarginX(u32),
    /// Set top and bottom margins.
    MarginY(u32),
    MarginTop(u32),
    MarginRight(u32),
    MarginBottom(u32),
    MarginLeft(u32),
}

/// The style of a single text run after edit `e` (dim uses the single-run rule).
pub open spec fn edit_style(s: Style, e: TextEdit) -> Style {
    match e {
        TextEdit::Mods(bits) => with_mods(s, bits),
        TextEdit::Fg(c) => Style { fg: Some(c), ..s },
        TextEdit::Bg(c) => Style { bg: Some(c), ..s },
        TextEdit::Dim { text_dim, inherited } => {
            let d = with_mods(s, DIM);
            if s.fg is None || s.fg == Some(inherited) {
                Style { fg: Some(text_dim), ..d }
            } else {
                d
            }
        },
        _ => s,
    }
}

/// The style of a link after edit `e`: dimming never recolors a link.
pub open spec fn edit_link_style(s: Style, e: TextEdit) -> Style {
    match e {
        TextEdit::Dim { .. } => with_mods(s, DIM),
        _ => edit_style(s, e),
    }
}

/// Whether every segment's foreground is unset or equal to `inherited`.
pub open spec fn all_inherited(segs: Seq<(String, Style)>, inherited: Color) -> bool {
    forall|k: int| 0 <= k < segs.len() ==> (#[trigger] segs[k].1.fg is None || segs[k].1.fg == Some(inherited))
}

/// The style of one segment of rich text after edit `e`, where `all_inh`
/// tells whether every segment had an inherited foreground.
pub open spec fn edit_segment_style(s: Style, e: TextEdit, all_inh: bool) -> Style {
    match e {
        TextEdit::Dim { text_dim, inherited } => {
            let d = with_mods(s, DIM);
            if all_inh {
                Style { fg: Some(text_dim), ..d }
            } else {
                d
            }
        },
        _ => edit_style(s, e),
    }
}

/// Constraints after edit `e`.
pub open spec fn edit_constraints(c: Constraints, e: TextEdit) -> Constraints {
    match e {
        TextEdit::Width(v) => Constraints { min_width: Some(v), max_width: Some(v), width_pct: None, ..c },
        TextEdit::Height(v) => Constraints { min_height: Some(v), max_height: Some(v), height_pct: None, ..c },
        TextEdit::MinWidth(v) => Constraints { min_width: Some(v), ..c },
        TextEdit::MaxWidth(v) => Constraints { max_width: Some(v), ..c },
        TextEdit::MinHeight(v) => Constraints { min_height: Some(v), ..c },
        TextEdit::MaxHeight(v) => Constraints { max_height: Some(v), ..c },
        _ => c,
    }
}

/// Margin after edit `e`.
pub open spec fn edit_margin(m: Margin, e: TextEdit) -> Margin {
    match e {
        TextEdit::MarginAll(v) => Margin { top: v, right: v, bottom: v, left: v },
        TextEdit::MarginX(v) => Margin { left: v, right: v, ..m },
        TextEdit::MarginY(v) => Margin { top: v, bottom: v, ..m },
        TextEdit::MarginTop(v) => Margin { top: v, ..m },
        TextEdit::MarginRight(v) => Margin { right: v, ..m },
        TextEdit::MarginBottom(v) => Margin { bottom: v, ..m },
        TextEdit::MarginLeft(v) => Margin { left: v, ..m },
        _ => m,
    }
}

/// Whether `after` is command `before` with edit `e` applied.
pub open spec fn edited(before: Command, after: Command, e: TextEdit) -> bool {
    match before {
        Command::Text { content, cursor_offset, cursor_masked, style, grow, align, wrap, truncate, margin, constraints } => {
            after == Command::Text {
                content,
                cursor_offset,
                cursor_masked,
                style: edit_style(style, e),
                grow: match e { TextEdit::Grow(g) => g, _ => grow },
                align: match e { TextEdit::Align(a) => a, _ => align },
                wrap: wrap || e is Wrap,
                truncate: truncate || e is Truncate,
                margin: edit_margin(margin, e),
                constraints: edit_constraints(constraints, e),
            }
        },
        Command::Link { text, url, style, wrap, margin, constraints } => {
            after == Command::Link {
                text,
                url,
                style: edit_link_style(style, e),
                wrap: wrap || e is Wrap,
                margin: edit_margin(margin, e),
                constraints: edit_constraints(constraints, e),
            }
        },
        Command::RichText { segments, wrap, align, margin, constraints } => {
            let all_inh = match e {
                TextEdit::Dim { inherited, .. } => all_inherited(segments@, inherited),
                _ => false,
            };
            &&& after matches Command::RichText { segments: s2, wrap: w2, align: a2, margin: m2, constraints: c2 }
            &&& s2@.len() == segments@.len()
            &&& forall|k: int| #![trigger s2@[k]] 0 <= k < s2@.len() ==> s2@[k].0 == segments@[k].0
                && s2@[k].1 == edit_segment_style(segments@[k].1, e, all_inh)
            &&& w2 == (wrap || e is Wrap)
            &&& a2 == match e { TextEdit::Align(a) => a, _ => align }
            &&& m2 == edit_margin(margin, e)
            &&& c2 == edit_constraints(constraints, e)
        },
        _ => after == before,
    }
}

/// A plain text command with default layout.
pub open spec fn is_plain_text(c: Command, content: Seq<char>, style: Style) -> bool {
    c matches Command::Text { content: t, cursor_offset, cursor_masked, style: s, grow, align, wrap, truncate, margin, constraints }
        && t@ == content && cursor_offset is None && !cursor_masked && s == style && grow == 0
        && align == Align::Start && !wrap && !truncate && margin == no_margin() && constraints == open_constraints()
}

/// The innermost explicit text color of `stack`, or `default`.
pub open spec fn inherited_fg(stack: Seq<Option<Color>>, default: Color) -> Color
    decreases stack.len(),
{
    if stack.len() == 0 {
        default
    } else {
        match stack.last() {
            Some(c) => c,
            None => inherited_fg(stack.drop_last(), default),
        }
    }
}

/// `after` is `before` with one more command appended, which becomes the
/// style-chain target, and nothing else changed.
pub open spec fn appended_text(before: Context, after: Context) -> bool {
    &&& after.commands@.len() == before.commands@.len() + 1
    &&& after.commands@.drop_last() == before.commands@
    &&& after.last_text_idx == Some(before.commands@.len() as usize)
    &&& after == (Context { commands: after.commands, last_text_idx: after.last_text_idx, ..before })
}

/// `after` is `before` with edit `e` applied to the style-chain target.
pub open spec fn edited_last(before: Context, after: Context, e: TextEdit) -> bool {
    &&& after == (Context { commands: after.commands, ..before })
    &&& after.commands@.len() == before.commands@.len()
    &&& match before.last_text_idx {
        Some(i) => {
            &&& edited(before.commands@[i as int], after.commands@[i as int], e)
            &&& forall|k: int| 0 <= k < after.commands@.len() && k != i ==> after.commands@[k] == before.commands@[k]
        },
        None => after.commands@ == before.commands@,
    }
}

fn copy_segments(segs: &Vec<(String, Style)>, e: TextEdit, all_inh: bool) -> (r: Vec<(String, Style)>)
    ensures
        r@.len() == segs@.len(),
        forall|k: int| #![trigger r@[k]] 0 <= k < r@.len() ==> r@[k].0 == segs@[k].0
            && r@[k].1 == edit_segment_style(segs@[k].1, e, all_inh),
{
    let mut out: Vec<(String, Style)> = Vec::new();
    let n = segs.len();
    let mut k: usize = 0;
    while k < n
        invariant
            n == segs@.len(),
            k <= n,
            out@.len() == k,
            forall|j: int| #![trigger out@[j]] 0 <= j < k ==> out@[j].0 == segs@[j].0
                && out@[j].1 == edit_segment_style(segs@[j].1, e, all_inh),
        decreases n - k,
    {
        let text = segs[k].0.clone();
        let style = segment_style(segs[k].1, e, all_inh);
        out.push((text, style));
        k = k + 1;
    }
    out
}

fn single_style(s: Style, e: TextEdit) -> (r: Style)
    ensures
        r == edit_style(s, e),
{
    match e {
        TextEdit::Mods(bits) => s.add_modifier(bits),
        TextEdit::Fg(c) => s.fg(c),
        TextEdit::Bg(c) => s.bg(c),
        TextEdit::Dim { text_dim, inherited } => {
            let d = s.add_modifier(DIM);
            let recolor = match s.fg {
                None => true,
                Some(c) => c == inherited,
            };
            if recolor {
                d.fg(text_dim)
            } else {
                d
            }
        },
        _ => s,
    }
}

fn segment_style(s: Style, e: TextEdit, all_inh: bool) -> (r: Style)
    ensures
        r == edit_segment_style(s, e, all_inh),
{
    match e {
        TextEdit::Dim { text_dim, .. } => {
            let d = s.add_modifier(DIM);
            if all_inh {
                d.fg(text_dim)
            } else {
                d
            }
        },
        _ => single_style(s, e),
    }
}

fn segments_all_inherited(segs: &Vec<(String, Style)>, inherited: Color) -> (r: bool)
    ensures
        r == all_inherited(segs@, inherited),
{
    let n = segs.len();
    let mut k: usize = 0;
    while k < n
        invariant
            n == segs@.len(),
            k <= n,
            forall|j: int| 0 <= j < k ==> (#[trigger] segs@[j].1.fg is None || segs@[j].1.fg == Some(inherited)),
        decreases n - k,
    {
        let ok = match segs[k].1.fg {
            None => true,
            Some(c) => c == inherited,
        };
        if !ok {
            assert(!(segs@[k as int].1.fg is None || segs@[k as int].1.fg == Some(inherited)));
            return false;
        }
        k = k + 1;
    }
    true
}

fn edit_margin_exec(m: Margin, e: TextEdit) -> (r: Margin)
    ensures
        r == edit_margin(m, e),
{
    match e {
        TextEdit::MarginAll(v) => Margin::all(v),
        TextEdit::MarginX(v) => Margin { left: v, right: v, ..m },
        TextEdit::MarginY(v) => Margin { top: v, bottom: v, ..m },
        TextEdit::MarginTop(v) => Margin { top: v, ..m },
        TextEdit::MarginRight(v) => Margin { right: v, ..m },
        TextEdit::MarginBottom(v) => Margin { bottom: v, ..m },
        TextEdit::MarginLeft(v) => Margin { left: v, ..m },
        _ => m,
    }
}

fn edit_constraints_exec(c: Constraints, e: TextEdit) -> (r: Constraints)
    ensures
        r == edit_constraints(c, e),
{
    match e {
        TextEdit::Width(v) => c.w(v),
        TextEdit::Height(v) => c.h(v),
        TextEdit::MinWidth(v) => Constraints { min_width: Some(v), ..c },
        TextEdit::MaxWidth(v) => Constraints { max_width: Some(v), ..c },
        TextEdit::MinHeight(v) => Constraints { min_height: Some(v), ..c },
        TextEdit::MaxHeight(v) => Constraints { max_height: Some(v), ..c },
        _ => c,
    }
}

fn edit_command(c: &Command, e: TextEdit) -> (r: Option<Command>)
    ensures
        match r {
            Some(after) => edited(*c, after, e),
            None => edited(*c, *c, e),
        },
{
    match c {
        Command::Text { content, cursor_offset, cursor_masked, style, grow, align, wrap, truncate, margin, constraints } => {
            Some(Command::Text {
                content: content.clone(),
                cursor_offset: *cursor_offset,
                cursor_masked: *cursor_masked,
                style: single_style(*style, e),
                grow: match e {
                    TextEdit::Grow(g) => g,
                    _ => *grow,
                },
                align: match e {
                    TextEdit::Align(a) => a,
                    _ => *align,
                },
                wrap: *wrap || matches!(e, TextEdit::Wrap),
                truncate: *truncate || matches!(e, TextEdit::Truncate),
                margin: edit_margin_exec(*margin, e),
                constraints: edit_constraints_exec(*constraints, e),
            })
        },
        Command::Link { text, url, style, wrap, margin, constraints } => {
            let st = match e {
                TextEdit::Dim { .. } => style.add_modifier(DIM),
                _ => single_style(*style, e),
            };
            Some(Command::Link {
                text: text.clone(),
                url: url.clone(),
                style: st,
                wrap: *wrap || matches!(e, TextEdit::Wrap),
                margin: edit_margin_exec(*margin, e),
                constraints: edit_constraints_exec(*constraints, e),
            })
        },
        Command::RichText { segments, wrap, align, margin, constraints } => {
            let all_inh = match e {
                TextEdit::Dim { inherited, .. } => segments_all_inherited(segments, inherited),
                _ => false,
            };
            Some(Command::RichText {
                segments: copy_segments(segments, e, all_inh),
                wrap: *wrap || matches!(e, TextEdit::Wrap),
                align: match e {
                    TextEdit::Align(a) => a,
                    _ => *align,
                },
                margin: edit_margin_exec(*margin, e),
                constraints: edit_constraints_exec(*constraints, e),
            })
        },
        _ => None,
    }
}

impl Context {
    /// Apply `e` to the style-chain target, if there is one.
    pub fn edit_last(&mut self, e: TextEdit)
        requires
            old(self).wf(),
        ensures
            final(self).wf(),
            edited_last(*old(self), *final(self), e),
    {
        match self.last_text_idx {
            Some(i) => {
                let replacement = edit_command(&self.commands[i], e);
                match replacement {
                    Some(cmd) => {
                        self.commands.set(i, cmd);
                    },
                    None => {},
                }
            },
            None => {},
        }
    }

    /// The foreground text inherits from enclosing containers.
    pub fn inherited_text_fg(&self) -> (c: Color)
        ensures
            c == inherited_fg(self.text_color_stack@, self.theme.text),
    {
        let n = self.text_color_stack.len();
        let mut k = n;
        assert(self.text_color_stack@.take(n as int) == self.text_color_stack@);
        while k > 0
            invariant
                k <= n,
                n == self.text_color_stack@.len(),
                inherited_fg(self.text_color_stack@, self.theme.text) == inherited_fg(
                    self.text_color_stack@.take(k as int),
                    self.theme.text,
                ),
            decreases k,
        {
            assert(self.text_color_stack@.take(k as int).drop_last() == self.text_color_stack@.take(k - 1));
            match self.text_color_stack[k - 1] {
                Some(c) => {
                    return c;
                },
                None => {},
            }
            k = k - 1;
        }
        self.theme.text
    }

    /// Append `cmd` and make it the style-chain target.
    fn push_text_cmd(&mut self, cmd: Command)
        requires
            old(self).wf(),
        ensures
            final(self).wf(),
            appended_text(*old(self), *final(self)),
            final(self).commands@.last() == cmd,
    {
        self.commands.push(cmd);
        self.last_text_idx = Some(self.commands.len() - 1);
        assert(self.commands@.drop_last() == old(self).commands@);
    }

    /// Render a text element in the inherited foreground color.
    pub fn text(&mut self, s: &str) -> (r: &mut Self)
        requires
            old(self).wf(),
        ensures
            r.wf(),
            appended_text(*old(self), *r),
            is_plain_text(r.commands@.last(), s@,
                Style { fg: Some(inherited_fg(old(self).text_color_stack@, old(self).theme.text)), bg: None, modifiers: Modifiers(0) }),
            *final(self) == *final(r),
    {
        let default_fg = self.inherited_text_fg();
        let style = Style::new().fg(default_fg);
        self.styled_with_cursor_privacy(s, style, None, false)
    }

    /// Render a text element with an explicit style.
    pub fn styled(&mut self, s: &str, style: Style) -> (r: &mut Self)
        requires
            old(self).wf(),
        ensures
            r.wf(),
            appended_text(*old(self), *r),
            is_plain_text(r.commands@.last(), s@, style),
            *final(self) == *final(r),
    {
        self.styled_with_cursor_privacy(s, style, None, false)
    }

    /// Render text with an optional cursor cell and cursor masking.
    pub fn styled_with_cursor_privacy(
        &mut self,
        s: &str,
        style: Style,
        cursor_offset: Option<usize>,
        cursor_masked: bool,
    ) -> (r: &mut Self)
        requires
            old(self).wf(),
        ensures
            r.wf(),
            appended_text(*old(self), *r),
            r.commands@.last() matches Command::Text { content, cursor_offset: co, cursor_masked: cm, style: st, grow, align, wrap, truncate, margin, constraints }
                && content@ == s@ && co == cursor_offset && cm == cursor_masked && st == style && grow == 0
                && align == Align::Start && !wrap && !truncate && margin == no_margin() && constraints == open_constraints(),
            *final(self) == *final(r),
    {
        self.push_text_cmd(Command::Text {
            content: s.to_owned(),
            cursor_offset,
            cursor_masked,
            style,
            grow: 0,
            align: Align::Start,
            wrap: false,
            truncate: false,
            margin: Margin::zero(),
            constraints: Constraints::none(),
        });
        self
    }

    /// Add bold to the most recent text element.
    pub fn bold(&mut self) -> (r: &mut Self)
        requires
            old(self).wf(),
        ensures
            r.wf(),
            edited_last(*old(self), *r, TextEdit::Mods(BOLD)),
            *final(self) == *final(r),
    {
        self.edit_last(TextEdit::Mods(BOLD));
        self
    }

    /// Dim the most recent text element; an inherited foreground becomes the theme's dim color.
    pub fn dim(&mut self) -> (r: &mut Self)
        requires
            old(self).wf(),
        ensures
            r.wf(),
            edited_last(*old(self), *r,
                TextEdit::Dim { text_dim: old(self).theme.text_dim, inherited: inherited_fg(old(self).text_color_stack@, old(self).theme.text) }),
            *final(self) == *final(r),
    {
        let text_dim = self.theme.text_dim;
        let inherited = self.inherited_text_fg();
        self.edit_last(TextEdit::Dim { text_dim, inherited });
        self
    }

    /// Add italic to the most recent text element.
    pub fn italic(&mut self) -> (r: &mut Self)
        requires
            old(self).wf(),
        ensures
            r.wf(),
            edited_last(*old(self), *r, TextEdit::Mods(ITALIC)),
            *final(self) == *final(r),
    {
        self.edit_last(TextEdit::Mods(ITALIC));
        self
    }

    /// Add underline to the most recent text element.
    pub fn underline(&mut self) -> (r: &mut Self)
        requires
            old(self).wf(),
        ensures
            r.wf(),
            edited_last(*old(self), *r, TextEdit::Mods(UNDERLINE)),
            *final(self) == *final(r),
    {
        self.edit_last(TextEdit::Mods(UNDERLINE));
        self
    }

    /// Add reverse video to the most recent text element.
    pub fn reversed(&mut self) -> (r: &mut Self)
        requires
            old(self).wf(),
        ensures
            r.wf(),
            edited_last(*old(self), *r, TextEdit::Mods(REVERSED)),
            *final(self) == *final(r),
    {
        self.edit_last(TextEdit::Mods(REVERSED));
        self
    }

    /// Add strikethrough to the most recent text element.
    pub fn strikethrough(&mut self) -> (r: &mut Self)
        requires
            old(self).wf(),
        ensures
            r.wf(),
            edited_last(*old(self), *r, TextEdit::Mods(STRIKETHROUGH)),
            *final(self) == *final(r),
    {
        self.edit_last(TextEdit::Mods(STRIKETHROUGH));
        self
    }

    /// Set the foreground color of the most recent text element.
    pub fn fg(&mut self, color: Color) -> (r: &mut Self)
        requires
            old(self).wf(),
        ensures
            r.wf(),
            edited_last(*old(self), *r, TextEdit::Fg(color)),
            *final(self) == *final(r),
    {
        self.edit_last(TextEdit::Fg(color));
        self
    }

    /// Set the background color of the most recent text element.
    pub fn bg(&mut self, color: Color) -> (r: &mut Self)
        requires
            old(self).wf(),
        ensures
            r.wf(),
            edited_last(*old(self), *r, TextEdit::Bg(color)),
            *final(self) == *final(r),
    {
        self.edit_last(TextEdit::Bg(color));
        self
    }

    /// Enable word wrapping on the most recent text element.
    pub fn wrap(&mut self) -> (r: &mut Self)
        requires
            old(self).wf(),
        ensures
            r.wf(),
            edited_last(*old(self), *r, TextEdit::Wrap),
            *final(self) == *final(r),
    {
        self.edit_last(TextEdit::Wrap);
        self
    }

    /// Truncate the most recent plain text with an ellipsis when it overflows.
    pub fn truncate(&mut self) -> (r: &mut Self)
        requires
            old(self).wf(),
        ensures
            r.wf(),
            edited_last(*old(self), *r, TextEdit::Truncate),
            *final(self) == *final(r),
    {
        self.edit_last(TextEdit::Truncate);
        self
    }

    /// Set the flex-grow factor of the most recent plain text element.
    pub fn grow(&mut self, value: u16) -> (r: &mut Self)
        requires
            old(self).wf(),
        ensures
            r.wf(),
            edited_last(*old(self), *r, TextEdit::Grow(value)),
            *final(self) == *final(r),
    {
        self.edit_last(TextEdit::Grow(value));
        self
    }

    /// Set the alignment of the most recent text element.
    pub fn align(&mut self, align: Align) -> (r: &mut Self)
        requires
            old(self).wf(),
        ensures
            r.wf(),
            edited_last(*old(self), *r, TextEdit::Align(align)),
            *final(self) == *final(r),
    {
        self.edit_last(TextEdit::Align(align));
        self
    }

    /// Center the most recent text element.
    pub fn text_center(&mut self) -> (r: &mut Self)
        requires
            old(self).wf(),
        ensures
            r.wf(),
            edited_last(*old(self), *r, TextEdit::Align(Align::Center)),
            *final(self) == *final(r),
    {
        self.align(Align::Center)
    }

    /// Right-align the most recent text element.
    pub fn text_right(&mut self) -> (r: &mut Self)
        requires
            old(self).wf(),
        ensures
            r.wf(),
            edited_last(*old(self), *r, TextEdit::Align(Align::End)),
            *final(self) == *final(r),
    {
        self.align(Align::End)
    }

    /// Fix the width of the most recent text element.
    pub fn w(&mut self, value: u32) -> (r: &mut Self)
        requires
            old(self).wf(),
        ensures
            r.wf(),
            edited_last(*old(self), *r, TextEdit::Width(value)),
            *final(self) == *final(r),
    {
        self.edit_last(TextEdit::Width(value));
        self
    }

    /// Fix the height of the most recent text element.
    pub fn h(&mut self, value: u32) -> (r: &mut Self)
        requires
            old(self).wf(),
        ensures
            r.wf(),
            edited_last(*old(self), *r, TextEdit::Height(value)),
            *final(self) == *final(r),
    {
        self.edit_last(TextEdit::Height(value));
        self
    }

    /// Set the minimum width of the most recent text element.
    pub fn min_w(&mut self, value: u32) -> (r: &mut Self)
        requires
            old(self).wf(),
        ensures
            r.wf(),
            edited_last(*old(self), *r, TextEdit::MinWidth(value)),
            *final(self) == *final(r),
    {
        self.edit_last(TextEdit::MinWidth(value));
        self
    }

    /// Set the maximum width of the most recent text element.
    pub fn max_w(&mut self, value: u32) -> (r: &mut Self)
        requires
            old(self).wf(),
        ensures
            r.wf(),
            edited_last(*old(self), *r, TextEdit::MaxWidth(value)),
            *final(self) == *final(r),
    {
        self.edit_last(TextEdit::MaxWidth(value));
        self
    }

    /// Set the minimum height of the most recent text element.
    pub fn min_h(&mut self, value: u32) -> (r: &mut Self)
        requires
            old(self).wf(),
        ensures
            r.wf(),
            edited_last(*old(self), *r, TextEdit::MinHeight(value)),
            *final(self) == *final(r),
    {
        self.edit_last(TextEdit::MinHeight(value));
        self
    }

    /// Set the maximum height of the most recent text element.
    pub fn max_h(&mut self, value: u32) -> (r: &mut Self)
        requires
            old(self).wf(),
        ensures
            r.wf(),
            edited_last(*old(self), *r, TextEdit::MaxHeight(value)),
            *final(self) == *final(r),
    {
        self.edit_last(TextEdit::MaxHeight(value));
        self
    }

    /// Set every margin side of the most recent text element.
    pub fn m(&mut self, value: u32) -> (r: &mut Self)
        requires
            old(self).wf(),
        ensures
            r.wf(),
            edited_last(*old(self), *r, TextEdit::MarginAll(value)),
            *final(self) == *final(r),
    {
        self.edit_last(TextEdit::MarginAll(value));
        self
    }

    /// Set the left and right margins of the most recent text element.
    pub fn mx(&mut self, value: u32) -> (r: &mut Self)
        requires
            old(self).wf(),
        ensures
            r.wf(),
            edited_last(*old(self), *r, TextEdit::MarginX(value)),
            *final(self) == *final(r),
    {
        self.edit_last(TextEdit::MarginX(value));
        self
    }

    /// Set the top and bottom margins of the most recent text element.
    pub fn my(&mut self, value: u32) -> (r: &mut Self)
        requires
            old(self).wf(),
        ensures
            r.wf(),
            edited_last(*old(self), *r, TextEdit::MarginY(value)),
            *final(self) == *final(r),
    {
        self.edit_last(TextEdit::MarginY(value));
        self
    }

    /// Set the top margin of the most recent text element.
    pub fn mt(&mut self, value: u32) -> (r: &mut Self)
        requires
            old(self).wf(),
        ensures
            r.wf(),
            edited_last(*old(self), *r, TextEdit::MarginTop(value)),
            *final(self) == *final(r),
    {
        self.edit_last(TextEdit::MarginTop(value));
        self
    }

    /// Set the right margin of the most recent text element.
    pub fn mr(&mut self, value: u32) -> (r: &mut Self)
        requires
            old(self).wf(),
        ensures
            r.wf(),
            edited_last(*old(self), *r, TextEdit::MarginRight(value)),
            *final(self) == *final(r),
    {
        self.edit_last(TextEdit::MarginRight(value));
        self
    }

    /// Set the bottom margin of the most recent text element.
    pub fn mb(&mut self, value: u32) -> (r: &mut Self)
        requires
            old(self).wf(),
        ensures
            r.wf(),
            edited_last(*old(self), *r, TextEdit::MarginBottom(value)),
            *final(self) == *final(r),
    {
        self.edit_last(TextEdit::MarginBottom(value));
        self
    }

    /// Set the left margin of the most recent text element.
    pub fn ml(&mut self, value: u32) -> (r: &mut Self)
        requires
            old(self).wf(),
        ensures
            r.wf(),
            edited_last(*old(self), *r, TextEdit::MarginLeft(value)),
            *final(self) == *final(r),
    {
        self.edit_last(TextEdit::MarginLeft(value));
        self
    }

    /// Render an invisible spacer that grows to fill free space.
    pub fn spacer(&mut self) -> (r: &mut Self)
        requires
            old(self).wf(),
        ensures
            r.wf(),
            r.commands@ == old(self).commands@.push(Command::Spacer { grow: 1 }),
            *r == (Context { commands: r.commands, last_text_idx: None, ..*old(self) }),
            *final(self) == *final(r),
    {
        self.commands.push(Command::Spacer { grow: 1 });
        self.last_text_idx = None;
        self
    }
}

impl Context {
    /// The innermost enclosing group is hovered or holds focus.
    pub open spec fn group_lit(&self) -> bool {
        self.group_stack@.len() > 0 && {
            let name = self.group_stack@.last()@;
            self.group_hovered(name) || self.group_focused(name)
        }
    }

    fn innermost_group_lit(&self) -> (r: bool)
        ensures
            r == self.group_lit(),
    {
        let n = self.group_stack.len();
        if n == 0 {
            return false;
        }
        let name = self.group_stack[n - 1].as_str();
        self.is_group_hovered(name) || self.is_group_focused(name)
    }

    /// Set the foreground of the most recent text element while the
    /// enclosing group is hovered or focused.
    pub fn group_hover_fg(&mut self, color: Color) -> (r: &mut Self)
        requires
            old(self).wf(),
        ensures
            r.wf(),
            old(self).group_lit() ==> edited_last(*old(self), *r, TextEdit::Fg(color)),
            !old(self).group_lit() ==> *r == *old(self),
            *final(self) == *final(r),
    {
        if self.innermost_group_lit() {
            self.edit_last(TextEdit::Fg(color));
        }
        self
    }

    /// Set the background of the most recent text element while the
    /// enclosing group is hovered or focused.
    pub fn group_hover_bg(&mut self, color: Color) -> (r: &mut Self)
        requires
            old(self).wf(),
        ensures
            r.wf(),
            old(self).group_lit() ==> edited_last(*old(self), *r, TextEdit::Bg(color)),
            !old(self).group_lit() ==> *r == *old(self),
            *final(self) == *final(r),
    {
        if self.innermost_group_lit() {
            self.edit_last(TextEdit::Bg(color));
        }
        self
    }

    /// Run `f` on the context when `cond` holds; chaining continues on `self`.
    pub fn with_if<F: FnOnce(&mut Context)>(&mut self, cond: bool, f: F) -> (r: &mut Self)
        requires
            forall|s: &mut Context| #[trigger] f.requires((s,)),
        ensures
            !cond ==> *r == *old(self),
            *final(self) == *final(r),
    {
        if cond {
            f(self);
        }
        self
    }

    /// Run `f` on the context; chaining continues on `self`.
    pub fn with<F: FnOnce(&mut Context)>(&mut self, f: F) -> (r: &mut Self)
        requires
            forall|s: &mut Context| #[trigger] f.requires((s,)),
        ensures
            *final(self) == *final(r),
    {
        f(self);
        self
    }
}

/// The decimal digit `d` (below ten).
pub open spec fn digit_char(d: nat) -> char {
    if d == 0 { '0' } else if d == 1 { '1' } else if d == 2 { '2' } else if d == 3 { '3' }
    else if d == 4 { '4' } else if d == 5 { '5' } else if d == 6 { '6' } else if d == 7 { '7' }
    else if d == 8 { '8' } else { '9' }
}

/// Decimal representation of `n`, without leading zeros.
pub open spec fn decimal(n: nat) -> Seq<char>
    decreases n,
{
    if n < 10 {
        seq![digit_char(n)]
    } else {
        decimal(n / 10).push(digit_char(n % 10))
    }
}

/// Decimal representation of `n`, zero-padded to at least two digits.
pub open spec fn pad2(n: nat) -> Seq<char> {
    if n < 10 { seq!['0', digit_char(n)] } else { decimal(n) }
}

/// An elapsed time of `millis` milliseconds as `HH:MM:SS.CC`, or as
/// `MM:SS.CC` when it is under an hour.
pub open spec fn clock_text(millis: nat) -> Seq<char> {
    let total_centis = millis / 10;
    let centis = total_centis % 100;
    let total_seconds = total_centis / 100;
    let seconds = total_seconds % 60;
    let minutes = (total_seconds / 60) % 60;
    let hours = total_seconds / 3600;
    let tail = pad2(minutes) + seq![':'] + pad2(seconds) + seq!['.'] + pad2(centis);
    if hours > 0 { pad2(hours) + seq![':'] + tail } else { tail }
}

pub(crate) fn digit_str(d: u128) -> (r: &'static str)
    requires
        d < 10,
    ensures
        r@ == seq![digit_char(d as nat)],
{
    proof {
        reveal_strlit("0");
        reveal_strlit("1");
        reveal_strlit("2");
        reveal_strlit("3");
        reveal_strlit("4");
        reveal_strlit("5");
        reveal_strlit("6");
        reveal_strlit("7");
        reveal_strlit("8");
        reveal_strlit("9");
    }
    match d {
        0 => "0",
        1 => "1",
        2 => "2",
        3 => "3",
        4 => "4",
        5 => "5",
        6 => "6",
        7 => "7",
        8 => "8",
        9 => "9",
        _ => "9",
    }
}

/// Append the decimal representation of `n`.
pub(crate) fn push_decimal(out: &mut String, n: u128)
    ensures
        final(out)@ == old(out)@ + decimal(n as nat),
    decreases n,
{
    if n >= 10 {
        push_decimal(out, n / 10);
    }
    out.append(digit_str(n % 10));
    proof {
        if n >= 10 {
            assert(decimal(n as nat) == decimal((n / 10) as nat).push(digit_char((n % 10) as nat)));
        }
    }
}

/// Append `n` zero-padded to two digits.
pub(crate) fn push_pad2(out: &mut String, n: u128)
    ensures
        final(out)@ == old(out)@ + pad2(n as nat),
{
    if n < 10 {
        out.append(digit_str(0));
    }
    push_decimal(out, n);
    proof {
        if n < 10 {
            assert(seq!['0'] + seq![digit_char(n as nat)] == seq!['0', digit_char(n as nat)]);
        }
    }
}

/// Format `millis` as [`clock_text`].
fn clock_string(millis: u128) -> (r: String)
    ensures
        r@ == clock_text(millis as nat),
{
    let total_centis = millis / 10;
    let centis = total_centis % 100;
    let total_seconds = total_centis / 100;
    let seconds = total_seconds % 60;
    let minutes = (total_seconds / 60) % 60;
    let hours = total_seconds / 3600;
    let mut out = String::new();
    if hours > 0 {
        push_pad2(&mut out, hours);
        out.append(":");
    }
    push_pad2(&mut out, minutes);
    out.append(":");
    push_pad2(&mut out, seconds);
    out.append(".");
    push_pad2(&mut out, centis);
    proof {
        reveal_strlit(":");
        reveal_strlit(".");
        assert(":"@ =~= seq![':']);
        assert("."@ =~= seq!['.']);
        assert(out@ =~= clock_text(millis as nat));
    }
    out
}

/// `Duration::as_millis`: the whole milliseconds in `d`. Nothing is stated
/// of the result; a duration is opaque to the verifier.
#[verifier::external_body]
fn duration_millis(d: std::time::Duration) -> u128 {
    d.as_millis()
}

impl Context {
    /// Render an elapsed time given in milliseconds, in the theme's text color.
    pub fn timer_display_millis(&mut self, millis: u128) -> (r: &mut Self)
        requires
            old(self).wf(),
        ensures
            r.wf(),
            appended_text(*old(self), *r),
            is_plain_text(r.commands@.last(), clock_text(millis as nat),
                Style { fg: Some(old(self).theme.text), bg: None, modifiers: Modifiers(0) }),
            *final(self) == *final(r),
    {
        let content = clock_string(millis);
        let style = Style::new().fg(self.theme.text);
        self.styled(content.as_str(), style)
    }

    /// Render an elapsed time as `HH:MM:SS.CC`, or `MM:SS.CC` under an hour.
    pub fn timer_display(&mut self, elapsed: std::time::Duration) -> (r: &mut Self)
        requires
            old(self).wf(),
        ensures
            r.wf(),
            appended_text(*old(self), *r),
            exists|millis: nat| is_plain_text(#[trigger] r.commands@.last(), clock_text(millis),
                Style { fg: Some(old(self).theme.text), bg: None, modifiers: Modifiers(0) }),
            *final(self) == *final(r),
    {
        let millis = duration_millis(elapsed);
        self.timer_display_millis(millis)
    }
}

/// Channel `a` weighted `num / den` mixed with channel `b` weighted the
/// rest, rounded half up.
pub open spec fn mix_channel(a: u8, b: u8, num: nat, den: nat) -> u8 {
    ((2 * (a as int * num + b as int * (den - num)) + den) / (2 * (den as int))) as u8
}

/// `to` weighted `num / den` blended with `from`: RGB colors mix channel by
/// channel; any other pair switches from `from` to `to` past the midpoint.
pub open spec fn blend(to: Color, from: Color, num: nat, den: nat) -> Color {
    match (to, from) {
        (Color::Rgb(r1, g1, b1), Color::Rgb(r2, g2, b2)) => Color::Rgb(
            mix_channel(r1, r2, num, den), mix_channel(g1, g2, num, den), mix_channel(b1, b2, num, den)),
        _ => if 2 * num > den { to } else { from },
    }
}

fn mix_channel_exec(a: u8, b: u8, num: usize, den: usize) -> (r: u8)
    requires
        0 < den,
        num <= den,
    ensures
        r == mix_channel(a, b, num as nat, den as nat),
{
    let a128 = a as u128;
    let b128 = b as u128;
    let n = num as u128;
    let d = den as u128;
    proof {
        assert(a128 * n <= 255 * n) by (nonlinear_arith)
            requires a128 <= 255, n <= d;
        assert(b128 * (d - n) <= 255 * (d - n)) by (nonlinear_arith)
            requires b128 <= 255, n <= d;
        assert(d <= 0xffff_ffff_ffff_ffff);
    }
    let total = 2 * (a128 * n + b128 * (d - n)) + d;
    let q = total / (2 * d);
    proof {
        assert(total < 512 * d) by (nonlinear_arith)
            requires total == 2 * (a128 * n + b128 * (d - n)) + d, a128 * n <= 255 * n, b128 * (d - n) <= 255 * (d - n), d > 0, n <= d;
        assert(q < 256) by (nonlinear_arith)
            requires q as int == (total as int) / (2 * (d as int)), total < 512 * d, d > 0;
    }
    q as u8
}

fn blend_exec(to: Color, from: Color, num: usize, den: usize) -> (c: Color)
    requires
        0 < den,
        num <= den,
    ensures
        c == blend(to, from, num as nat, den as nat),
{
    match (to, from) {
        (Color::Rgb(r1, g1, b1), Color::Rgb(r2, g2, b2)) => Color::Rgb(
            mix_channel_exec(r1, r2, num, den), mix_channel_exec(g1, g2, num, den), mix_channel_exec(b1, b2, num, den)),
        _ => if num > den - num { to } else { from },
    }
}

/// `a + b`, capped at `usize::MAX`.
pub open spec fn sat_add_usize(a: nat, b: nat) -> nat {
    if a + b <= usize::MAX { a + b } else { usize::MAX as nat }
}

/// Cell where cluster `k` of `clusters` starts (widths added, capped).
pub open spec fn cluster_start(clusters: Seq<Seq<char>>, k: int) -> nat
    decreases k,
{
    if k <= 0 {
        0
    } else {
        sat_add_usize(cluster_start(clusters, k - 1), text_width(clusters[k - 1]))
    }
}

/// The cell a gradient reaches its end color at: where the last cluster
/// starts, at least one.
pub open spec fn gradient_span(clusters: Seq<Seq<char>>) -> nat {
    let last = if clusters.len() == 0 { 0 } else { cluster_start(clusters, clusters.len() - 1) };
    if last == 0 { 1 } else { last }
}

/// Color of cluster `k` of a gradient from `from` to `to`.
pub open spec fn gradient_color(clusters: Seq<Seq<char>>, k: int, from: Color, to: Color) -> Color {
    let span = gradient_span(clusters);
    let at = cluster_start(clusters, k);
    blend(to, from, if at > span { span } else { at }, span)
}

/// `after` is the text `before` turned into one run per grapheme cluster,
/// each colored (foreground, or background with `is_bg`) along a gradient;
/// anything but plain text stays.
pub open spec fn is_gradient(before: Command, after: Command, is_bg: bool, from: Color, to: Color) -> bool {
    match before {
        Command::Text { content, style, wrap, align, margin, constraints, .. } => {
            let clusters = grapheme_clusters(content@);
            &&& after matches Command::RichText { segments, wrap: w2, align: a2, margin: m2, constraints: c2 }
            &&& w2 == wrap && a2 == align && m2 == margin && c2 == constraints
            &&& segments@.len() == clusters.len()
            &&& forall|k: int| #![trigger segments@[k]] 0 <= k < segments@.len() ==> segments@[k].0@ == clusters[k]
                && segments@[k].1 == (if is_bg {
                    Style { bg: Some(gradient_color(clusters, k, from, to)), ..style }
                } else {
                    Style { fg: Some(gradient_color(clusters, k, from, to)), ..style }
                })
        },
        _ => after == before,
    }
}

/// The context after a gradient on its style-chain target.
pub open spec fn gradient_applied(before: Context, after: Context, is_bg: bool, from: Color, to: Color) -> bool {
    &&& after == (Context { commands: after.commands, ..before })
    &&& after.commands@.len() == before.commands@.len()
    &&& match before.last_text_idx {
        Some(i) => {
            &&& is_gradient(before.commands@[i as int], after.commands@[i as int], is_bg, from, to)
            &&& forall|k: int| 0 <= k < after.commands@.len() && k != i ==> after.commands@[k] == before.commands@[k]
        },
        None => after.commands@ == before.commands@,
    }
}

fn gradient_segments(content: &str, style: Style, is_bg: bool, from: Color, to: Color) -> (r: Vec<(String, Style)>)
    ensures
        ({
            let clusters = grapheme_clusters(content@);
            &&& r@.len() == clusters.len()
            &&& forall|k: int| #![trigger r@[k]] 0 <= k < r@.len() ==> r@[k].0@ == clusters[k]
                && r@[k].1 == (if is_bg {
                    Style { bg: Some(gradient_color(clusters, k, from, to)), ..style }
                } else {
                    Style { fg: Some(gradient_color(clusters, k, from, to)), ..style }
                })
        }),
{
    let gs = graphemes(content);
    let ghost clusters = grapheme_clusters(content@);
    let n = gs.len();
    // Where the last cluster starts.
    let mut last_start: usize = 0;
    let mut j: usize = 0;
    while j + 1 < n
        invariant
            n == gs@.len(),
            n == clusters.len(),
            clusters == grapheme_clusters(content@),
            forall|k: int| 0 <= k < n ==> (#[trigger] gs@[k])@ == clusters[k],
            j < n || n == 0,
            j <= n,
            last_start == cluster_start(clusters, j as int),
        decreases n - j,
    {
        let w = str_width(gs[j].as_str());
        last_start = last_start.saturating_add(w);
        j = j + 1;
    }
    proof {
        if n > 0 {
            assert(j + 1 == n);
        }
    }
    let span: usize = if last_start == 0 { 1 } else { last_start };
    let mut out: Vec<(String, Style)> = Vec::new();
    let mut cell: usize = 0;
    let mut k: usize = 0;
    while k < n
        invariant
            n == gs@.len(),
            n == clusters.len(),
            clusters == grapheme_clusters(content@),
            forall|i: int| 0 <= i < n ==> (#[trigger] gs@[i])@ == clusters[i],
            span == gradient_span(clusters),
            k <= n,
            cell == cluster_start(clusters, k as int),
            out@.len() == k,
            forall|i: int| #![trigger out@[i]] 0 <= i < k ==> out@[i].0@ == clusters[i]
                && out@[i].1 == (if is_bg {
                    Style { bg: Some(gradient_color(clusters, i, from, to)), ..style }
                } else {
                    Style { fg: Some(gradient_color(clusters, i, from, to)), ..style }
                }),
        decreases n - k,
    {
        let at = if cell > span { span } else { cell };
        let color = blend_exec(to, from, at, span);
        let seg_style = if is_bg { style.bg(color) } else { style.fg(color) };
        let text = gs[k].clone();
        out.push((text, seg_style));
        let w = str_width(gs[k].as_str());
        cell = cell.saturating_add(w);
        k = k + 1;
    }
    out
}

impl Context {
    fn apply_char_gradient(&mut self, is_bg: bool, from: Color, to: Color)
        requires
            old(self).wf(),
        ensures
            final(self).wf(),
            gradient_applied(*old(self), *final(self), is_bg, from, to),
    {
        match self.last_text_idx {
            Some(i) => {
                let replacement = match &self.commands[i] {
                    Command::Text { content, style, wrap, align, margin, constraints, .. } => {
                        let segments = gradient_segments(content.as_str(), *style, is_bg, from, to);
                        Some(Command::RichText {
                            segments,
                            wrap: *wrap,
                            align: *align,
                            margin: *margin,
                            constraints: *constraints,
                        })
                    },
                    _ => None,
                };
                match replacement {
                    Some(cmd) => {
                        self.commands.set(i, cmd);
                    },
                    None => {},
                }
            },
            None => {},
        }
    }

    /// Color the most recent text along a foreground gradient from `from`
    /// (first cluster) to `to` (last cluster), splitting it into one run
    /// per grapheme cluster.
    pub fn gradient(&mut self, from: Color, to: Color) -> (r: &mut Self)
        requires
            old(self).wf(),
        ensures
            r.wf(),
            gradient_applied(*old(self), *r, false, from, to),
            *final(self) == *final(r),
    {
        self.apply_char_gradient(false, from, to);
        self
    }

    /// Like [`gradient`](Self::gradient), for the background.
    pub fn bg_gradient(&mut self, from: Color, to: Color) -> (r: &mut Self)
        requires
            old(self).wf(),
        ensures
            r.wf(),
            gradient_applied(*old(self), *r, true, from, to),
            *final(self) == *final(r),
    {
        self.apply_char_gradient(true, from, to);
        self
    }
}

/// A blend at weight zero is the start color; at full weight, the end color.
pub proof fn lemma_blend_endpoints(to: Color, from: Color, den: nat)
    requires
        den > 0,
    ensures
        blend(to, from, 0, den) == from,
        blend(to, from, den, den) == to,
{
    assert forall|a: u8, b: u8| mix_channel(a, b, 0, den) == b && mix_channel(a, b, den, den) == a by {
        assert((2 * (a as int * 0 + b as int * (den - 0)) + den) / (2 * (den as int)) == b as int) by (nonlinear_arith)
            requires den > 0;
        assert((2 * (a as int * den + b as int * (den - den)) + den) / (2 * (den as int)) == a as int) by (nonlinear_arith)
            requires den > 0;
    }
}

/// A gradient starts with `from` on the first cluster and, when the last
/// cluster starts past the first cell, ends with `to` on it.
pub proof fn lemma_gradient_endpoints(clusters: Seq<Seq<char>>, from: Color, to: Color)
    requires
        clusters.len() > 0,
    ensures
        gradient_color(clusters, 0, from, to) == from,
        cluster_start(clusters, clusters.len() - 1) > 0 ==> gradient_color(clusters, clusters.len() - 1, from, to) == to,
{
    lemma_blend_endpoints(to, from, gradient_span(clusters));
}

/// `pad2` of a number under a hundred is two digits.
pub proof fn lemma_pad2_len(n: nat)
    requires
        n < 100,
    ensures
        pad2(n).len() == 2,
{
    if n >= 10 {
        assert(decimal(n / 10).len() == 1);
    }
}

/// Under an hour the timer reads `MM:SS.CC`: eight characters, with the
/// separators in place.
pub proof fn lemma_clock_under_an_hour(millis: nat)
    requires
        millis < 3_600_000,
    ensures
        clock_text(millis).len() == 8,
        clock_text(millis)[2] == ':',
        clock_text(millis)[5] == '.',
{
    let total_centis = millis / 10;
    let total_seconds = total_centis / 100;
    assert(total_seconds < 3600);
    assert(total_seconds / 3600 == 0);
    lemma_pad2_len((total_seconds / 60) % 60);
    lemma_pad2_len(total_seconds % 60);
    lemma_pad2_len(total_centis % 100);
}


/// Style of a link: highlighted and bold when focused, highlighted when
/// hovered, else underlined in the primary color.
pub open spec fn link_style(t: crate::style::Theme, focused: bool, hovered: bool) -> Style {
    if focused {
        Style { fg: Some(t.primary), bg: Some(t.surface_hover), modifiers: Modifiers(UNDERLINE | BOLD) }
    } else if hovered {
        Style { fg: Some(t.accent), bg: Some(t.surface_hover), modifiers: Modifiers(UNDERLINE) }
    } else {
        Style { fg: Some(t.primary), bg: None, modifiers: Modifiers(UNDERLINE) }
    }
}

/// `c` is a link showing `text` that leads to `url`.
pub open spec fn is_link(c: Command, text: Seq<char>, url: Seq<char>, style: Style) -> bool {
    c matches Command::Link { text: t, url: u, style: s, wrap, margin, constraints }
        && t@ == text && u@ == url && s == style && !wrap && margin == no_margin() && constraints == open_constraints()
}

/// The link targets of a vector of strings.
pub open spec fn url_views(v: Seq<String>) -> Seq<Seq<char>> {
    Seq::new(v.len(), |k: int| v[k]@)
}

impl Context {
    /// A hyperlink showing `text`. Clicking it, or Enter/Space while it is
    /// focused, activates it: `url` is queued in `pending_urls` for the host
    /// to open. A click leaves the keys unclaimed.
    #[verifier::rlimit(100)]
    #[verifier::spinoff_prover]
    pub fn link(&mut self, text: &str, url: &str) -> (r: &mut Self)
        requires
            old(self).wf(),
        ensures
            r.wf(),
            ({
                let n = old(self).commands@.len() as int;
                let focused = old(self).next_focusable_is_focused();
                let base = old(self).spec_response_for(old(self).interaction_count as int);
                let keys = !base.clicked && focused;
                let activated = base.clicked || (keys && exists|i: int| old(self).live_press_in(i, activation_codes()));
                let m = if focused { 1int } else { 0int };
                let c = r.commands@;
                &&& c.len() == n + m + 2
                &&& c.take(n) == old(self).commands@
                &&& (focused ==> c[n] == Command::FocusMarker(old(self).focus_count))
                &&& c[n + m] == Command::InteractionMarker(old(self).interaction_count)
                &&& is_link(c[n + m + 1], text@, url@, link_style(old(self).theme, focused, base.hovered))
                &&& r.last_text_idx == Some((n + m + 1) as usize)
                &&& url_views(r.pending_urls@) == if activated { url_views(old(self).pending_urls@).push(url@) }
                    else { url_views(old(self).pending_urls@) }
                &&& r.consumed@.len() == old(self).consumed@.len()
                &&& forall|i: int| 0 <= i < r.consumed@.len() ==> #[trigger] r.consumed@[i]
                    == (old(self).consumed@[i] || (keys && old(self).live_press_in(i, activation_codes())))
                &&& *r == (Context {
                    commands: r.commands,
                    consumed: r.consumed,
                    pending_urls: r.pending_urls,
                    last_text_idx: r.last_text_idx,
                    focus_count: if old(self).focus_count < usize::MAX { (old(self).focus_count + 1) as usize } else { usize::MAX },
                    interaction_count: if old(self).interaction_count < usize::MAX { (old(self).interaction_count + 1) as usize }
                        else { usize::MAX },
                    ..*old(self)
                })
            }),
            *final(self) == *final(r),
    {
        let (focused, base) = self.open_control();
        let ghost opened = *self;
        let activated = base.clicked || self.consume_activation_keys(focused);
        proof {
            assert(activation_codes() == seq![KeyCode::Enter, KeyCode::Char(' ')]);
            assert forall|i: int| #[trigger] opened.live_press_in(i, activation_codes())
                == old(self).live_press_in(i, activation_codes()) by {}
            if exists|i: int| opened.live_press_in(i, activation_codes()) {
                let w = choose|i: int| opened.live_press_in(i, activation_codes());
                assert(old(self).live_press_in(w, activation_codes()));
            }
            if exists|i: int| old(self).live_press_in(i, activation_codes()) {
                let w = choose|i: int| old(self).live_press_in(i, activation_codes());
                assert(opened.live_press_in(w, activation_codes()));
            }
        }
        let ghost after_keys = *self;
        if activated {
            let ghost before = self.pending_urls@;
            self.pending_urls.push(url.to_owned());
            proof {
                assert(url_views(self.pending_urls@) =~= url_views(before).push(url@));
            }
        }
        let t = self.theme;
        let style = if focused {
            Style::new().fg(t.primary).bg(t.surface_hover).add_modifier(UNDERLINE).add_modifier(BOLD)
        } else if base.hovered {
            Style::new().fg(t.accent).bg(t.surface_hover).add_modifier(UNDERLINE)
        } else {
            Style::new().fg(t.primary).add_modifier(UNDERLINE)
        };
        proof {
            crate::style::lemma_single_flags();
        }
        let ghost before = self.commands@;
        self.push_text_cmd(Command::Link {
            text: text.to_owned(),
            url: url.to_owned(),
            style,
            wrap: false,
            margin: Margin::zero(),
            constraints: Constraints::none(),
        });
        proof {
            let n = old(self).commands@.len() as int;
            assert(self.commands@.drop_last() == before);
            assert forall|k: int| 0 <= k < before.len() implies self.commands@[k] == before[k] by {
                assert(self.commands@.drop_last()[k] == self.commands@[k]);
            }
            assert(self.commands@.take(n) =~= old(self).commands@);
            assert(self.consumed == after_keys.consumed);
            let m = if focused { 1int } else { 0int };
            assert(self.commands@[n + m] == before[n + m]);
            assert(before == opened.commands@);
            if focused {
                assert(self.commands@[n] == before[n]);
            }
        }
        self
    }
}


/// The number a string of decimal digits spells, most significant first.
pub open spec fn digits_value(s: Seq<char>) -> int
    decreases s.len(),
{
    if s.len() == 0 { 0 } else { digits_value(s.drop_last()) * 10 + (s.last() as int - '0' as int) }
}

/// `decimal(n)` is the base-ten numeral of `n`: every character is a
/// digit, it reads back as `n`, and it has no leading zero (but for 0).
pub proof fn lemma_decimal_reads_back(n: nat)
    ensures
        digits_value(decimal(n)) == n,
        forall|k: int| 0 <= k < decimal(n).len() ==> '0' <= #[trigger] decimal(n)[k] <= '9',
        decimal(n).len() > 0,
        n > 0 ==> decimal(n)[0] != '0',
    decreases n,
{
    if n >= 10 {
        lemma_decimal_reads_back(n / 10);
        let d = n % 10;
        assert(decimal(n) == decimal(n / 10).push(digit_char(d)));
        assert(decimal(n).drop_last() =~= decimal(n / 10));
        assert(decimal(n).last() == digit_char(d));
        assert(digit_char(d) as int - '0' as int == d);
        assert(digits_value(decimal(n)) == digits_value(decimal(n / 10)) * 10 + d);
        assert(n == (n / 10) * 10 + d);
        assert forall|k: int| 0 <= k < decimal(n).len() implies '0' <= #[trigger] decimal(n)[k] <= '9' by {
            if k < decimal(n / 10).len() {
                assert(decimal(n)[k] == decimal(n / 10)[k]);
            }
        }
        assert(decimal(n)[0] == decimal(n / 10)[0]);
    } else {
        assert(decimal(n) == seq![digit_char(n)]);
        assert(seq![digit_char(n)].drop_last() =~= Seq::<char>::empty());
        assert(digit_char(n) as int - '0' as int == n);
        assert(seq![digit_char(n)].last() == digit_char(n));
        assert(digits_value(seq![digit_char(n)]) == digits_value(Seq::<char>::empty()) * 10 + (digit_char(n) as int - '0' as int));
    }
}

} // verus!
