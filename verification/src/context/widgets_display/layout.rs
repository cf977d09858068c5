//! Containers, overlays and anchoring, separators, and named groups.
use vstd::prelude::*;
use crate::command::{Command, ContainerArgs};
use crate::context::{plain_container, plain_container_args, Context, Response};
use crate::context::widgets_display::status::{repeat, repeat_str};
use crate::context::widgets_display::text::{appended_text, is_plain_text};
use crate::style::{open_constraints, with_mods, fg_style, Align, Color, Constraints, Direction, Justify, Margin, Padding, Style, DIM};

verus! {

/// A corner, edge midpoint or the center of the screen, where anchored
/// overlays pin their content.
#[derive(Debug, Clone, Copy, PartialEq, Eq, Structural)]
pub enum Anchor {
    TopLeft,
    TopCenter,
    TopRight,
    CenterLeft,
    Center,
    CenterRight,
    BottomLeft,
    BottomCenter,
    BottomRight,
}

/// Which horizontal edge an anchor sits on: -1 left, 0 centered, 1 right.
pub open spec fn anchor_column(a: Anchor) -> int {
    match a {
        Anchor::TopLeft | Anchor::CenterLeft | Anchor::BottomLeft => -1,
        Anchor::TopCenter | Anchor::Center | Anchor::BottomCenter => 0,
        Anchor::TopRight | Anchor::CenterRight | Anchor::BottomRight => 1,
    }
}

/// Which vertical edge an anchor sits on: -1 top, 0 centered, 1 bottom.
pub open spec fn anchor_row(a: Anchor) -> int {
    match a {
        Anchor::TopLeft | Anchor::TopCenter | Anchor::TopRight => -1,
        Anchor::CenterLeft | Anchor::Center | Anchor::CenterRight => 0,
        Anchor::BottomLeft | Anchor::BottomCenter | Anchor::BottomRight => 1,
    }
}

/// Position along an axis of an edge code (-1, 0, 1).
pub open spec fn edge_align(side: int) -> Align {
    if side < 0 { Align::Start } else if side == 0 { Align::Center } else { Align::End }
}

/// Position along an axis of an edge code (-1, 0, 1).
pub open spec fn edge_justify(side: int) -> Justify {
    if side < 0 { Justify::Start } else if side == 0 { Justify::Center } else { Justify::End }
}

/// Cross-axis alignment (horizontal) and main-axis justification (vertical)
/// of the column that pins content at `a`.
pub open spec fn anchor_placement(a: Anchor) -> (Align, Justify) {
    (edge_align(anchor_column(a)), edge_justify(anchor_row(a)))
}

/// Margin that moves content anchored on `side` by `d` cells towards the
/// center: `(before, after)` along the axis. On an edge only a positive
/// inset counts; when centered, the sign picks the direction.
pub open spec fn inset(side: int, d: i32) -> (u32, u32) {
    if side < 0 {
        (if d > 0 { d as u32 } else { 0 }, 0)
    } else if side > 0 {
        (0, if d > 0 { d as u32 } else { 0 })
    } else if d > 0 {
        (d as u32, 0)
    } else if d < 0 {
        (0, (-d) as u32)
    } else {
        (0, 0)
    }
}

/// The margin that insets content anchored at `a` by `(dx, dy)` cells.
pub open spec fn anchor_margin(a: Anchor, dx: i32, dy: i32) -> Margin {
    let h = inset(anchor_column(a), dx);
    let v = inset(anchor_row(a), dy);
    Margin { top: v.0, right: h.1, bottom: v.1, left: h.0 }
}

/// Map an anchor to the wrapper column's alignment and justification.
fn anchor_to_align_justify(anchor: Anchor) -> (r: (Align, Justify))
    ensures
        r == anchor_placement(anchor),
{
    match anchor {
        Anchor::TopLeft => (Align::Start, Justify::Start),
        Anchor::TopCenter => (Align::Center, Justify::Start),
        Anchor::TopRight => (Align::End, Justify::Start),
        Anchor::CenterLeft => (Align::Start, Justify::Center),
        Anchor::Center => (Align::Center, Justify::Center),
        Anchor::CenterRight => (Align::End, Justify::Center),
        Anchor::BottomLeft => (Align::Start, Justify::End),
        Anchor::BottomCenter => (Align::Center, Justify::End),
        Anchor::BottomRight => (Align::End, Justify::End),
    }
}

/// Magnitude of a negative offset.
fn neg_magnitude(d: i32) -> (r: u32)
    requires
        d < 0,
    ensures
        r == -d,
{
    if d == i32::MIN {
        2147483648u32
    } else {
        (-d) as u32
    }
}

/// Resolve an `(dx, dy)` inset at `anchor` to a margin; positive values
/// move towards the center of the screen.
fn anchor_offset_to_margin(anchor: Anchor, dx: i32, dy: i32) -> (m: Margin)
    ensures
        m == anchor_margin(anchor, dx, dy),
{
    let mut margin = Margin::zero();
    let h: i8 = match anchor {
        Anchor::TopLeft | Anchor::CenterLeft | Anchor::BottomLeft => -1,
        Anchor::TopRight | Anchor::CenterRight | Anchor::BottomRight => 1,
        Anchor::TopCenter | Anchor::Center | Anchor::BottomCenter => 0,
    };
    if h < 0 {
        if dx > 0 {
            margin.left = dx as u32;
        }
    } else if h > 0 {
        if dx > 0 {
            margin.right = dx as u32;
        }
    } else {
        if dx > 0 {
            margin.left = dx as u32;
        } else if dx < 0 {
            margin.right = neg_magnitude(dx);
        }
    }
    let v: i8 = match anchor {
        Anchor::TopLeft | Anchor::TopCenter | Anchor::TopRight => -1,
        Anchor::BottomLeft | Anchor::BottomCenter | Anchor::BottomRight => 1,
        Anchor::CenterLeft | Anchor::Center | Anchor::CenterRight => 0,
    };
    if v < 0 {
        if dy > 0 {
            margin.top = dy as u32;
        }
    } else if v > 0 {
        if dy > 0 {
            margin.bottom = dy as u32;
        }
    } else {
        if dy > 0 {
            margin.top = dy as u32;
        } else if dy < 0 {
            margin.bottom = neg_magnitude(dy);
        }
    }
    margin
}

/// The full-size column that pins overlay content at an anchor.
pub open spec fn anchored_column(a: Anchor, margin: Margin, border_color: Color) -> ContainerArgs {
    ContainerArgs {
        align: anchor_placement(a).0,
        justify: anchor_placement(a).1,
        margin,
        grow: 1,
        ..plain_container(Direction::Column, 0, border_color)
    }
}

fn anchored_column_args(a: Anchor, margin: Margin, border_color: Color) -> (r: ContainerArgs)
    ensures
        r == anchored_column(a, margin, border_color),
{
    let (align, justify) = anchor_to_align_justify(a);
    ContainerArgs { align, justify, margin, grow: 1, ..plain_container_args(Direction::Column, 0, border_color) }
}

/// Options of a modal overlay.
#[derive(Debug, Clone, Copy, PartialEq, Eq, Structural)]
pub struct ModalOptions {
    /// Keep keyboard focus inside the modal's focusable widgets.
    pub tab_trap: bool,
}

/// The line a separator draws: wider than any terminal, clipped by layout.
pub open spec fn separator_line() -> Seq<char> {
    repeat(seq!['─'], 200)
}

/// A separator's draw command.
pub open spec fn is_separator(c: Command, style: Style) -> bool {
    is_plain_text(c, separator_line(), style)
}

impl Context {
    /// Run `f` inside a container with arguments `args` and its own
    /// interaction slot; report what hit that slot in the previous frame.
    pub(crate) fn run_container<F: FnOnce(&mut Context)>(&mut self, args: ContainerArgs, f: F) -> (r: Response)
        requires
            old(self).wf(),
            forall|s: &mut Context| #[trigger] f.requires((s,)),
            forall|s: &mut Context| #[trigger] f.ensures((s,), ()) ==> final(s).wf(),
        ensures
            final(self).wf(),
            final(self).commands@.last() == Command::EndContainer,
            final(self).last_text_idx is None,
            r == final(self).spec_response_for(old(self).interaction_count as int),
            (forall|s: &mut Context| #[trigger] f.ensures((s,), ()) ==> final(s).commands@.len() >= s.commands@.len()
                && final(s).commands@.take(s.commands@.len() as int) == s.commands@) ==>
                final(self).commands@.len() >= old(self).commands@.len() + 3
                && final(self).commands@.take(old(self).commands@.len() + 2int) == old(self).commands@.push(
                    Command::InteractionMarker(old(self).interaction_count)).push(Command::BeginContainer(args)),
            (forall|s: &mut Context| #[trigger] f.ensures((s,), ()) ==> final(s).overlay_depth == s.overlay_depth)
                ==> final(self).overlay_depth == old(self).overlay_depth,
    {
        let id = self.next_interaction_id();
        self.begin_container(args);
        self.text_color_stack.push(None);
        f(self);
        let _ = self.text_color_stack.pop();
        let ghost after = self.commands@;
        self.end_container();
        proof {
            assert(self.commands@.drop_last() == after);
        }
        self.response_for(id)
    }

    /// A vertical container: children stack top to bottom.
    pub fn col<F: FnOnce(&mut Context)>(&mut self, f: F) -> (r: Response)
        requires
            old(self).wf(),
            forall|s: &mut Context| #[trigger] f.requires((s,)),
            forall|s: &mut Context| #[trigger] f.ensures((s,), ()) ==> final(s).wf(),
        ensures
            final(self).wf(),
            final(self).commands@.last() == Command::EndContainer,
            final(self).last_text_idx is None,
            r == final(self).spec_response_for(old(self).interaction_count as int),
            (forall|s: &mut Context| #[trigger] f.ensures((s,), ()) ==> final(s).commands@.len() >= s.commands@.len()
                && final(s).commands@.take(s.commands@.len() as int) == s.commands@) ==>
                final(self).commands@.take(old(self).commands@.len() + 2int) == old(self).commands@.push(
                    Command::InteractionMarker(old(self).interaction_count)).push(
                    Command::BeginContainer(plain_container(Direction::Column, 0, old(self).theme.border))),
    {
        let args = plain_container_args(Direction::Column, 0, self.theme.border);
        self.run_container(args, f)
    }

    /// A vertical container with `gap` blank rows between children.
    pub fn col_gap<F: FnOnce(&mut Context)>(&mut self, gap: u32, f: F) -> (r: Response)
        requires
            old(self).wf(),
            forall|s: &mut Context| #[trigger] f.requires((s,)),
            forall|s: &mut Context| #[trigger] f.ensures((s,), ()) ==> final(s).wf(),
        ensures
            final(self).wf(),
            final(self).commands@.last() == Command::EndContainer,
            final(self).last_text_idx is None,
            r == final(self).spec_response_for(old(self).interaction_count as int),
            (forall|s: &mut Context| #[trigger] f.ensures((s,), ()) ==> final(s).commands@.len() >= s.commands@.len()
                && final(s).commands@.take(s.commands@.len() as int) == s.commands@) ==>
                final(self).commands@.take(old(self).commands@.len() + 2int) == old(self).commands@.push(
                    Command::InteractionMarker(old(self).interaction_count)).push(
                    Command::BeginContainer(plain_container(Direction::Column, gap as i32, old(self).theme.border))),
    {
        let args = plain_container_args(Direction::Column, gap as i32, self.theme.border);
        self.run_container(args, f)
    }

    /// A horizontal container: children are placed left to right.
    pub fn row<F: FnOnce(&mut Context)>(&mut self, f: F) -> (r: Response)
        requires
            old(self).wf(),
            forall|s: &mut Context| #[trigger] f.requires((s,)),
            forall|s: &mut Context| #[trigger] f.ensures((s,), ()) ==> final(s).wf(),
        ensures
            final(self).wf(),
            final(self).commands@.last() == Command::EndContainer,
            final(self).last_text_idx is None,
            r == final(self).spec_response_for(old(self).interaction_count as int),
            (forall|s: &mut Context| #[trigger] f.ensures((s,), ()) ==> final(s).commands@.len() >= s.commands@.len()
                && final(s).commands@.take(s.commands@.len() as int) == s.commands@) ==>
                final(self).commands@.take(old(self).commands@.len() + 2int) == old(self).commands@.push(
                    Command::InteractionMarker(old(self).interaction_count)).push(
                    Command::BeginContainer(plain_container(Direction::Row, 0, old(self).theme.border))),
    {
        let args = plain_container_args(Direction::Row, 0, self.theme.border);
        self.run_container(args, f)
    }

    /// A horizontal container with `gap` blank columns between children.
    pub fn row_gap<F: FnOnce(&mut Context)>(&mut self, gap: u32, f: F) -> (r: Response)
        requires
            old(self).wf(),
            forall|s: &mut Context| #[trigger] f.requires((s,)),
            forall|s: &mut Context| #[trigger] f.ensures((s,), ()) ==> final(s).wf(),
        ensures
            final(self).wf(),
            final(self).commands@.last() == Command::EndContainer,
            final(self).last_text_idx is None,
            r == final(self).spec_response_for(old(self).interaction_count as int),
            (forall|s: &mut Context| #[trigger] f.ensures((s,), ()) ==> final(s).commands@.len() >= s.commands@.len()
                && final(s).commands@.take(s.commands@.len() as int) == s.commands@) ==>
                final(self).commands@.take(old(self).commands@.len() + 2int) == old(self).commands@.push(
                    Command::InteractionMarker(old(self).interaction_count)).push(
                    Command::BeginContainer(plain_container(Direction::Row, gap as i32, old(self).theme.border))),
    {
        let args = plain_container_args(Direction::Row, gap as i32, self.theme.border);
        self.run_container(args, f)
    }

    /// Inline run of differently styled texts on one line; chains like a
    /// text element (`self` is returned).
    pub fn line<F: FnOnce(&mut Context)>(&mut self, f: F) -> (r: &mut Self)
        requires
            old(self).wf(),
            forall|s: &mut Context| #[trigger] f.requires((s,)),
            forall|s: &mut Context| #[trigger] f.ensures((s,), ()) ==> final(s).wf(),
        ensures
            r.wf(),
            r.commands@.last() == Command::EndContainer,
            r.last_text_idx is None,
            (forall|s: &mut Context| #[trigger] f.ensures((s,), ()) ==> final(s).commands@.len() >= s.commands@.len()
                && final(s).commands@.take(s.commands@.len() as int) == s.commands@) ==>
                r.commands@.take(old(self).commands@.len() + 2int) == old(self).commands@.push(
                    Command::InteractionMarker(old(self).interaction_count)).push(
                    Command::BeginContainer(plain_container(Direction::Row, 0, old(self).theme.border))),
            *final(self) == *final(r),
    {
        let args = plain_container_args(Direction::Row, 0, self.theme.border);
        let _ = self.run_container(args, f);
        self
    }

    /// A horizontal divider in the theme's border color, dimmed.
    pub fn separator(&mut self) -> (r: Response)
        requires
            old(self).wf(),
            old(self).commands@.len() + 1 < usize::MAX,
        ensures
            final(self).wf(),
            r == old(self).spec_response_for(old(self).interaction_count as int),
            final(self).commands@.len() == old(self).commands@.len() + 2,
            final(self).commands@.take(old(self).commands@.len() + 1int)
                == old(self).commands@.push(Command::InteractionMarker(old(self).interaction_count)),
            is_separator(final(self).commands@.last(), with_mods(fg_style(old(self).theme.border), DIM)),
            final(self).last_text_idx == Some((old(self).commands@.len() + 1) as usize),
            *final(self) == (Context {
                commands: final(self).commands,
                interaction_count: final(self).interaction_count,
                last_text_idx: final(self).last_text_idx,
                ..*old(self)
            }),
    {
        let style = Style::new().fg(self.theme.border).dim();
        self.separator_with(style)
    }

    /// A horizontal divider in `color`.
    pub fn separator_colored(&mut self, color: Color) -> (r: Response)
        requires
            old(self).wf(),
            old(self).commands@.len() + 1 < usize::MAX,
        ensures
            final(self).wf(),
            r == old(self).spec_response_for(old(self).interaction_count as int),
            final(self).commands@.len() == old(self).commands@.len() + 2,
            final(self).commands@.take(old(self).commands@.len() + 1int)
                == old(self).commands@.push(Command::InteractionMarker(old(self).interaction_count)),
            is_separator(final(self).commands@.last(), fg_style(color)),
            final(self).last_text_idx == Some((old(self).commands@.len() + 1) as usize),
            *final(self) == (Context {
                commands: final(self).commands,
                interaction_count: final(self).interaction_count,
                last_text_idx: final(self).last_text_idx,
                ..*old(self)
            }),
    {
        let style = Style::new().fg(color);
        self.separator_with(style)
    }

    fn separator_with(&mut self, style: Style) -> (r: Response)
        requires
            old(self).wf(),
            old(self).commands@.len() + 1 < usize::MAX,
        ensures
            final(self).wf(),
            r == old(self).spec_response_for(old(self).interaction_count as int),
            final(self).commands@.len() == old(self).commands@.len() + 2,
            final(self).commands@.take(old(self).commands@.len() + 1int)
                == old(self).commands@.push(Command::InteractionMarker(old(self).interaction_count)),
            is_separator(final(self).commands@.last(), style),
            final(self).last_text_idx == Some((old(self).commands@.len() + 1) as usize),
            *final(self) == (Context {
                commands: final(self).commands,
                interaction_count: final(self).interaction_count,
                last_text_idx: final(self).last_text_idx,
                ..*old(self)
            }),
    {
        let response = self.interaction();
        let ghost mid = self.commands@;
        let line = repeat_str("─", 200);
        proof {
            reveal_strlit("─");
            assert("─"@ =~= seq!['─']);
        }
        self.styled(line.as_str(), style);
        proof {
            assert(self.commands@.drop_last() == mid);
            assert(self.commands@.take(old(self).commands@.len() + 1int) == mid);
        }
        response
    }
}


/// `x + 1`, or `x` at the top of the range.
pub open spec fn sat_inc(x: usize) -> usize {
    if x < usize::MAX { (x + 1) as usize } else { usize::MAX }
}

/// The draw list right after an overlay opened on `before`: its interaction
/// marker, the overlay opening, and, for an anchored overlay, the pinning
/// column's marker and opening.
pub open spec fn overlay_opening(before: Context, modal: bool, inner: Option<ContainerArgs>) -> Seq<Command> {
    let s = before.commands@.push(Command::InteractionMarker(before.interaction_count)).push(
        Command::BeginOverlay { modal });
    match inner {
        None => s,
        Some(a) => s.push(Command::InteractionMarker(sat_inc(before.interaction_count))).push(
            Command::BeginContainer(a)),
    }
}

/// Length of [`overlay_opening`] beyond `before`'s draw list.
pub open spec fn opening_len(inner: Option<ContainerArgs>) -> int {
    if inner is Some { 4 } else { 2 }
}

impl Context {
    /// Open an overlay (modal or not), run `f` in it, optionally inside an
    /// anchoring column, and close it.
    fn overlay_impl<F: FnOnce(&mut Context)>(&mut self, modal: bool, tab_trap: bool, inner: Option<ContainerArgs>, f: F) -> (r: Response)
        requires
            old(self).wf(),
            old(self).overlay_depth < u32::MAX,
            forall|s: &mut Context| #[trigger] f.requires((s,)),
            forall|s: &mut Context| #[trigger] f.ensures((s,), ()) ==> final(s).wf(),
        ensures
            final(self).wf(),
            final(self).commands@.last() == Command::EndOverlay,
            final(self).last_text_idx is None,
            r == final(self).spec_response_for(old(self).interaction_count as int),
            modal ==> final(self).modal_focus_count == (if final(self).focus_count >= old(self).focus_count {
                final(self).focus_count - old(self).focus_count } else { 0 }),
            modal && tab_trap && final(self).modal_focus_count > 0 ==> old(self).focus_count <= final(self).focus_index
                < old(self).focus_count + final(self).modal_focus_count,
            (forall|s: &mut Context| #[trigger] f.ensures((s,), ()) ==> final(s).commands@.len() >= s.commands@.len()
                && final(s).commands@.take(s.commands@.len() as int) == s.commands@) ==>
                final(self).commands@.len() > old(self).commands@.len() + opening_len(inner)
                && final(self).commands@.take(old(self).commands@.len() + opening_len(inner))
                    == overlay_opening(*old(self), modal, inner),
            (forall|s: &mut Context| #[trigger] f.ensures((s,), ()) ==> final(s).overlay_depth == s.overlay_depth)
                ==> final(self).overlay_depth == old(self).overlay_depth,
    {
        let id = self.next_interaction_id();
        self.commands.push(Command::BeginOverlay { modal });
        self.overlay_depth = self.overlay_depth + 1;
        let start = self.focus_count;
        if modal {
            self.modal_active = true;
            self.modal_focus_start = start;
        }
        let ghost opened = self.commands@;
        let ghost opened_ctx = *self;
        match inner {
            Some(args) => {
                let _ = self.run_container(args, f);
                proof {
                    assert(opened == old(self).commands@.push(Command::InteractionMarker(old(self).interaction_count)).push(
                        Command::BeginOverlay { modal }));
                    assert(opened_ctx.interaction_count == sat_inc(old(self).interaction_count));
                }
            },
            None => {
                f(self);
            },
        }
        let ghost body_end = self.commands@;
        if modal {
            let count = if self.focus_count >= start { self.focus_count - start } else { 0 };
            self.modal_focus_count = count;
            if tab_trap && count > 0 {
                if self.focus_index < start || self.focus_index - start >= count {
                    self.focus_index = start;
                }
            }
        }
        self.overlay_depth = if self.overlay_depth > 0 { self.overlay_depth - 1 } else { 0 };
        self.commands.push(Command::EndOverlay);
        self.last_text_idx = None;
        proof {
            assert(self.commands@.drop_last() == body_end);
        }
        self.response_for(id)
    }
}

impl Context {
    /// Floating content drawn above the rest, without dimming it.
    pub fn overlay<F: FnOnce(&mut Context)>(&mut self, f: F) -> (r: Response)
        requires
            old(self).wf(),
            old(self).overlay_depth < u32::MAX,
            forall|s: &mut Context| #[trigger] f.requires((s,)),
            forall|s: &mut Context| #[trigger] f.ensures((s,), ()) ==> final(s).wf(),
        ensures
            final(self).wf(),
            final(self).commands@.last() == Command::EndOverlay,
            final(self).last_text_idx is None,
            r == final(self).spec_response_for(old(self).interaction_count as int),
            (forall|s: &mut Context| #[trigger] f.ensures((s,), ()) ==> final(s).commands@.len() >= s.commands@.len()
                && final(s).commands@.take(s.commands@.len() as int) == s.commands@) ==>
                final(self).commands@.len() > old(self).commands@.len() + opening_len(None)
                && final(self).commands@.take(old(self).commands@.len() + opening_len(None))
                    == overlay_opening(*old(self), false, None),
    {
        self.overlay_impl(false, false, None, f)
    }

    /// Content in a modal overlay over a dimmed background; focus is not trapped.
    pub fn modal<F: FnOnce(&mut Context)>(&mut self, f: F) -> (r: Response)
        requires
            old(self).wf(),
            old(self).overlay_depth < u32::MAX,
            forall|s: &mut Context| #[trigger] f.requires((s,)),
            forall|s: &mut Context| #[trigger] f.ensures((s,), ()) ==> final(s).wf(),
        ensures
            final(self).wf(),
            final(self).commands@.last() == Command::EndOverlay,
            final(self).last_text_idx is None,
            r == final(self).spec_response_for(old(self).interaction_count as int),
            final(self).modal_focus_count == (if final(self).focus_count >= old(self).focus_count {
                final(self).focus_count - old(self).focus_count } else { 0 }),
            (forall|s: &mut Context| #[trigger] f.ensures((s,), ()) ==> final(s).commands@.len() >= s.commands@.len()
                && final(s).commands@.take(s.commands@.len() as int) == s.commands@) ==>
                final(self).commands@.len() > old(self).commands@.len() + opening_len(None)
                && final(self).commands@.take(old(self).commands@.len() + opening_len(None))
                    == overlay_opening(*old(self), true, None),
    {
        self.overlay_impl(true, false, None, f)
    }

    /// A modal overlay with options; with `tab_trap` set, focus is kept on the
    /// modal's own focusable widgets.
    pub fn modal_with<F: FnOnce(&mut Context)>(&mut self, opts: ModalOptions, f: F) -> (r: Response)
        requires
            old(self).wf(),
            old(self).overlay_depth < u32::MAX,
            forall|s: &mut Context| #[trigger] f.requires((s,)),
            forall|s: &mut Context| #[trigger] f.ensures((s,), ()) ==> final(s).wf(),
        ensures
            final(self).wf(),
            final(self).commands@.last() == Command::EndOverlay,
            final(self).last_text_idx is None,
            r == final(self).spec_response_for(old(self).interaction_count as int),
            final(self).modal_focus_count == (if final(self).focus_count >= old(self).focus_count {
                final(self).focus_count - old(self).focus_count } else { 0 }),
            opts.tab_trap && final(self).modal_focus_count > 0 ==> old(self).focus_count <= final(self).focus_index
                < old(self).focus_count + final(self).modal_focus_count,
            (forall|s: &mut Context| #[trigger] f.ensures((s,), ()) ==> final(s).commands@.len() >= s.commands@.len()
                && final(s).commands@.take(s.commands@.len() as int) == s.commands@) ==>
                final(self).commands@.len() > old(self).commands@.len() + opening_len(None)
                && final(self).commands@.take(old(self).commands@.len() + opening_len(None))
                    == overlay_opening(*old(self), true, None),
            (forall|s: &mut Context| #[trigger] f.ensures((s,), ()) ==> final(s).overlay_depth == s.overlay_depth)
                ==> final(self).overlay_depth == old(self).overlay_depth,
    {
        self.overlay_impl(true, opts.tab_trap, None, f)
    }

    /// Floating content pinned at `anchor` by a full-size column.
    pub fn overlay_at<F: FnOnce(&mut Context)>(&mut self, anchor: Anchor, f: F) -> (r: Response)
        requires
            old(self).wf(),
            old(self).overlay_depth < u32::MAX,
            forall|s: &mut Context| #[trigger] f.requires((s,)),
            forall|s: &mut Context| #[trigger] f.ensures((s,), ()) ==> final(s).wf(),
        ensures
            final(self).wf(),
            final(self).commands@.last() == Command::EndOverlay,
            final(self).last_text_idx is None,
            r == final(self).spec_response_for(old(self).interaction_count as int),
            (forall|s: &mut Context| #[trigger] f.ensures((s,), ()) ==> final(s).commands@.len() >= s.commands@.len()
                && final(s).commands@.take(s.commands@.len() as int) == s.commands@) ==>
                final(self).commands@.len() > old(self).commands@.len() + opening_len(Some(anchored_column(anchor, Margin { top: 0, right: 0, bottom: 0, left: 0 }, old(self).theme.border)))
                && final(self).commands@.take(old(self).commands@.len() + opening_len(Some(anchored_column(anchor, Margin { top: 0, right: 0, bottom: 0, left: 0 }, old(self).theme.border))))
                    == overlay_opening(*old(self), false, Some(anchored_column(anchor, Margin { top: 0, right: 0, bottom: 0, left: 0 }, old(self).theme.border))),
    {
        let args = anchored_column_args(anchor, Margin::zero(), self.theme.border);
        self.overlay_impl(false, false, Some(args), f)
    }

    /// A modal overlay pinned at `anchor`.
    pub fn modal_at<F: FnOnce(&mut Context)>(&mut self, anchor: Anchor, f: F) -> (r: Response)
        requires
            old(self).wf(),
            old(self).overlay_depth < u32::MAX,
            forall|s: &mut Context| #[trigger] f.requires((s,)),
            forall|s: &mut Context| #[trigger] f.ensures((s,), ()) ==> final(s).wf(),
        ensures
            final(self).wf(),
            final(self).commands@.last() == Command::EndOverlay,
            final(self).last_text_idx is None,
            r == final(self).spec_response_for(old(self).interaction_count as int),
            final(self).modal_focus_count == (if final(self).focus_count >= old(self).focus_count {
                final(self).focus_count - old(self).focus_count } else { 0 }),
            (forall|s: &mut Context| #[trigger] f.ensures((s,), ()) ==> final(s).commands@.len() >= s.commands@.len()
                && final(s).commands@.take(s.commands@.len() as int) == s.commands@) ==>
                final(self).commands@.len() > old(self).commands@.len() + opening_len(Some(anchored_column(anchor, Margin { top: 0, right: 0, bottom: 0, left: 0 }, old(self).theme.border)))
                && final(self).commands@.take(old(self).commands@.len() + opening_len(Some(anchored_column(anchor, Margin { top: 0, right: 0, bottom: 0, left: 0 }, old(self).theme.border))))
                    == overlay_opening(*old(self), true, Some(anchored_column(anchor, Margin { top: 0, right: 0, bottom: 0, left: 0 }, old(self).theme.border))),
    {
        let args = anchored_column_args(anchor, Margin::zero(), self.theme.border);
        self.overlay_impl(true, false, Some(args), f)
    }

    /// Floating content pinned at `anchor`, inset by `(dx, dy)` cells towards
    /// the center; on an edge a negative inset counts as none.
    pub fn overlay_at_offset<F: FnOnce(&mut Context)>(&mut self, anchor: Anchor, dx: i32, dy: i32, f: F) -> (r: Response)
        requires
            old(self).wf(),
            old(self).overlay_depth < u32::MAX,
            forall|s: &mut Context| #[trigger] f.requires((s,)),
            forall|s: &mut Context| #[trigger] f.ensures((s,), ()) ==> final(s).wf(),
        ensures
            final(self).wf(),
            final(self).commands@.last() == Command::EndOverlay,
            final(self).last_text_idx is None,
            r == final(self).spec_response_for(old(self).interaction_count as int),
            (forall|s: &mut Context| #[trigger] f.ensures((s,), ()) ==> final(s).commands@.len() >= s.commands@.len()
                && final(s).commands@.take(s.commands@.len() as int) == s.commands@) ==>
                final(self).commands@.len() > old(self).commands@.len() + opening_len(Some(anchored_column(anchor, anchor_margin(anchor, dx, dy), old(self).theme.border)))
                && final(self).commands@.take(old(self).commands@.len() + opening_len(Some(anchored_column(anchor, anchor_margin(anchor, dx, dy), old(self).theme.border))))
                    == overlay_opening(*old(self), false, Some(anchored_column(anchor, anchor_margin(anchor, dx, dy), old(self).theme.border))),
    {
        let margin = anchor_offset_to_margin(anchor, dx, dy);
        let args = anchored_column_args(anchor, margin, self.theme.border);
        self.overlay_impl(false, false, Some(args), f)
    }

    /// A modal overlay pinned at `anchor`, inset by `(dx, dy)` cells.
    pub fn modal_at_offset<F: FnOnce(&mut Context)>(&mut self, anchor: Anchor, dx: i32, dy: i32, f: F) -> (r: Response)
        requires
            old(self).wf(),
            old(self).overlay_depth < u32::MAX,
            forall|s: &mut Context| #[trigger] f.requires((s,)),
            forall|s: &mut Context| #[trigger] f.ensures((s,), ()) ==> final(s).wf(),
        ensures
            final(self).wf(),
            final(self).commands@.last() == Command::EndOverlay,
            final(self).last_text_idx is None,
            r == final(self).spec_response_for(old(self).interaction_count as int),
            final(self).modal_focus_count == (if final(self).focus_count >= old(self).focus_count {
                final(self).focus_count - old(self).focus_count } else { 0 }),
            (forall|s: &mut Context| #[trigger] f.ensures((s,), ()) ==> final(s).commands@.len() >= s.commands@.len()
                && final(s).commands@.take(s.commands@.len() as int) == s.commands@) ==>
                final(self).commands@.len() > old(self).commands@.len() + opening_len(Some(anchored_column(anchor, anchor_margin(anchor, dx, dy), old(self).theme.border)))
                && final(self).commands@.take(old(self).commands@.len() + opening_len(Some(anchored_column(anchor, anchor_margin(anchor, dx, dy), old(self).theme.border))))
                    == overlay_opening(*old(self), true, Some(anchored_column(anchor, anchor_margin(anchor, dx, dy), old(self).theme.border))),
    {
        let margin = anchor_offset_to_margin(anchor, dx, dy);
        let args = anchored_column_args(anchor, margin, self.theme.border);
        self.overlay_impl(true, false, Some(args), f)
    }

}

impl Context {
    /// The group called `name` is under the mouse cursor.
    pub open spec fn group_hovered(&self, name: Seq<char>) -> bool {
        self.mouse_pos is Some && exists|i: int|
            0 <= i < self.hovered_groups@.len() && #[trigger] self.hovered_groups@[i]@ == name
    }

    /// The group called `name` holds the focused widget.
    pub open spec fn group_focused(&self, name: Seq<char>) -> bool {
        self.prev_focus_count > 0 && {
            let k = self.focus_index % self.prev_focus_count;
            &&& k < self.prev_focus_groups@.len()
            &&& self.prev_focus_groups@[k as int] matches Some(g)
            &&& g@ == name
        }
    }

    /// Whether the named group is under the mouse cursor.
    pub fn is_group_hovered(&self, name: &str) -> (r: bool)
        ensures
            r == self.group_hovered(name@),
    {
        if self.mouse_pos.is_none() {
            return false;
        }
        let target = name.to_owned();
        let n = self.hovered_groups.len();
        let mut i: usize = 0;
        while i < n
            invariant
                n == self.hovered_groups@.len(),
                i <= n,
                target@ == name@,
                self.mouse_pos is Some,
                forall|j: int| 0 <= j < i ==> #[trigger] self.hovered_groups@[j]@ != name@,
            decreases n - i,
        {
            if self.hovered_groups[i] == target {
                assert(self.hovered_groups@[i as int]@ == name@);
                return true;
            }
            i = i + 1;
        }
        false
    }

    /// Whether the named group holds the focused widget.
    pub fn is_group_focused(&self, name: &str) -> (r: bool)
        ensures
            r == self.group_focused(name@),
    {
        if self.prev_focus_count == 0 {
            return false;
        }
        let k = self.focus_index % self.prev_focus_count;
        if k >= self.prev_focus_groups.len() {
            return false;
        }
        match &self.prev_focus_groups[k] {
            Some(g) => {
                let target = name.to_owned();
                *g == target
            },
            None => false,
        }
    }
}

/// A screen-stack change requested from inside a screen.
#[derive(Debug, Clone)]
pub enum ScreenNav {
    Push(String),
    Pop,
    Reset,
}

impl Context {
    /// Queue a screen navigation; it takes effect when the enclosing screen
    /// closure returns.
    fn queue_screen_nav(&mut self, nav: ScreenNav)
        requires
            old(self).screen_nav_depth > 0,
        ensures
            final(self).pending_screen_nav@ == old(self).pending_screen_nav@.push(nav),
            *final(self) == (Context { pending_screen_nav: final(self).pending_screen_nav, ..*old(self) }),
    {
        self.pending_screen_nav.push(nav);
    }

    /// Request pushing screen `name` onto the active screen stack. Only valid
    /// inside a screen closure.
    pub fn push_screen(&mut self, name: &str)
        requires
            old(self).screen_nav_depth > 0,
        ensures
            final(self).pending_screen_nav@.len() == old(self).pending_screen_nav@.len() + 1,
            final(self).pending_screen_nav@.drop_last() == old(self).pending_screen_nav@,
            final(self).pending_screen_nav@.last() matches ScreenNav::Push(s) && s@ == name@,
            *final(self) == (Context { pending_screen_nav: final(self).pending_screen_nav, ..*old(self) }),
    {
        let s = name.to_owned();
        self.queue_screen_nav(ScreenNav::Push(s));
        proof {
            assert(self.pending_screen_nav@.drop_last() == old(self).pending_screen_nav@);
        }
    }

    /// Request popping the current screen (the root stays). Only valid
    /// inside a screen closure.
    pub fn pop_screen(&mut self)
        requires
            old(self).screen_nav_depth > 0,
        ensures
            final(self).pending_screen_nav@ == old(self).pending_screen_nav@.push(ScreenNav::Pop),
            *final(self) == (Context { pending_screen_nav: final(self).pending_screen_nav, ..*old(self) }),
    {
        self.queue_screen_nav(ScreenNav::Pop);
    }

    /// Request resetting the screen stack to its root. Only valid inside a
    /// screen closure.
    pub fn reset_screen(&mut self)
        requires
            old(self).screen_nav_depth > 0,
        ensures
            final(self).pending_screen_nav@ == old(self).pending_screen_nav@.push(ScreenNav::Reset),
            *final(self) == (Context { pending_screen_nav: final(self).pending_screen_nav, ..*old(self) }),
    {
        self.queue_screen_nav(ScreenNav::Reset);
    }
}

/// Whether a run of commands holds a hyperlink.
pub open spec fn has_link(cmds: Seq<Command>) -> bool {
    exists|k: int| 0 <= k < cmds.len() && #[trigger] cmds[k] is Link
}

/// The text runs of `cmds` (plain text and link text), in order, with their
/// styles; other commands contribute nothing.
pub open spec fn text_runs(cmds: Seq<Command>) -> Seq<(Seq<char>, Style)>
    decreases cmds.len(),
{
    if cmds.len() == 0 {
        Seq::empty()
    } else {
        let prev = text_runs(cmds.drop_last());
        match cmds.last() {
            Command::Text { content, style, .. } => prev.push((content@, style)),
            Command::Link { text, style, .. } => prev.push((text@, style)),
            _ => prev,
        }
    }
}

/// The row that keeps a wrapped line with links interactive.
pub open spec fn wrap_row() -> ContainerArgs {
    ContainerArgs {
        border_style: Style { fg: None, bg: None, modifiers: crate::style::Modifiers(0) },
        ..plain_container(Direction::Row, 0, Color::Reset)
    }
}

/// `c` is a wrapping rich text holding `runs`.
pub open spec fn is_wrapped_runs(c: Command, runs: Seq<(Seq<char>, Style)>) -> bool {
    &&& c matches Command::RichText { segments, wrap, align, margin, constraints }
    &&& wrap && align == Align::Start && margin == crate::style::no_margin() && constraints == open_constraints()
    &&& segments@.len() == runs.len()
    &&& forall|k: int| #![trigger segments@[k]] 0 <= k < runs.len() ==> segments@[k].0@ == runs[k].0 && segments@[k].1 == runs[k].1
}

/// What `line_wrap` leaves once `f` drew `drawn` (the draw list at `f`'s
/// return), the list having had `n0` commands before.
pub open spec fn line_wrapped(drawn: Seq<Command>, n0: int, after: Seq<Command>) -> bool {
    let kids = drawn.subrange(n0, drawn.len() as int);
    if has_link(kids) {
        after == drawn.take(n0).push(Command::WrapMarker(0)).push(Command::BeginContainer(wrap_row())) + kids.push(Command::EndContainer)
    } else {
        &&& after.len() == n0 + 1
        &&& after.take(n0) == drawn.take(n0)
        &&& is_wrapped_runs(after.last(), text_runs(kids))
    }
}

fn split_runs(kids: &Vec<Command>) -> (r: (Vec<(String, Style)>, bool))
    ensures
        r.1 == has_link(kids@),
        r.0@.len() == text_runs(kids@).len(),
        forall|k: int| #![trigger r.0@[k]] 0 <= k < r.0@.len() ==> r.0@[k].0@ == text_runs(kids@)[k].0
            && r.0@[k].1 == text_runs(kids@)[k].1,
{
    let mut segs: Vec<(String, Style)> = Vec::new();
    let mut link = false;
    let n = kids.len();
    let mut k: usize = 0;
    while k < n
        invariant
            n == kids@.len(),
            k <= n,
            link == has_link(kids@.take(k as int)),
            segs@.len() == text_runs(kids@.take(k as int)).len(),
            forall|j: int| #![trigger segs@[j]] 0 <= j < segs@.len() ==> segs@[j].0@ == text_runs(kids@.take(k as int))[j].0
                && segs@[j].1 == text_runs(kids@.take(k as int))[j].1,
        decreases n - k,
    {
        let ghost pre = kids@.take(k as int);
        let ghost next = kids@.take(k as int + 1);
        proof {
            assert(next.drop_last() == pre);
            assert(next.last() == kids@[k as int]);
        }
        match &kids[k] {
            Command::Text { content, style, .. } => {
                segs.push((content.clone(), *style));
            },
            Command::Link { text, style, .. } => {
                segs.push((text.clone(), *style));
                link = true;
            },
            _ => {},
        }
        proof {
            if has_link(next) && !has_link(pre) {
                let w = choose|w: int| 0 <= w < next.len() && next[w] is Link;
                if w < pre.len() {
                    assert(pre[w] == next[w]);
                }
            }
            if has_link(pre) {
                let w = choose|w: int| 0 <= w < pre.len() && pre[w] is Link;
                assert(next[w] == pre[w]);
            }
        }
        k = k + 1;
    }
    proof {
        assert(kids@.take(n as int) == kids@);
    }
    (segs, link)
}

impl Context {
    /// Inline text runs that wrap at word boundaries across lines, keeping
    /// each run's style. Runs `f`; when it drew no hyperlink, what it drew
    /// becomes one wrapping rich text; otherwise it is kept, in a row that
    /// wraps (a wrap marker, then the row).
    pub fn line_wrap<F: FnOnce(&mut Context)>(&mut self, f: F) -> (r: &mut Self)
        requires
            old(self).wf(),
            forall|s: &mut Context| #[trigger] f.requires((s,)),
            forall|s: &mut Context| #[trigger] f.ensures((s,), ()) ==> final(s).wf()
                && final(s).commands@.len() >= s.commands@.len(),
        ensures
            r.wf(),
            r.last_text_idx is None,
            exists|s: &mut Context| *s == *old(self) && #[trigger] f.ensures((s,), ())
                && line_wrapped(final(s).commands@, old(self).commands@.len() as int, r.commands@),
            *final(self) == *final(r),
    {
        let start = self.commands.len();
        let ghost before = *self;
        f(self);
        self.wrap_from(start);
        self
    }

    /// Turn what was drawn from `start` on into one wrapping line: one rich
    /// text when it holds no hyperlink, else the same commands in a row.
    pub(crate) fn wrap_from(&mut self, start: usize)
        requires
            old(self).wf(),
            start <= old(self).commands@.len(),
        ensures
            final(self).wf(),
            final(self).last_text_idx is None,
            line_wrapped(old(self).commands@, start as int, final(self).commands@),
            *final(self) == (Context { commands: final(self).commands, last_text_idx: None, ..*old(self) }),
    {
        let ghost drawn = self.commands@;
        self.last_text_idx = None;
        let kids = self.commands.split_off(start);
        let (segments, link) = split_runs(&kids);
        proof {
            assert(kids@ == drawn.subrange(start as int, drawn.len() as int));
            assert(self.commands@ == drawn.take(start as int));
        }
        if link {
            let mut row = plain_container_args(Direction::Row, 0, Color::Reset);
            row.border_style = Style::new();
            assert(row == wrap_row());
            self.commands.push(Command::WrapMarker(0));
            self.commands.push(Command::BeginContainer(row));
            let ghost opened = self.commands@;
            let mut kids = kids;
            let ghost kv = kids@;
            self.commands.append(&mut kids);
            assert(self.commands@ == opened + kv);
            self.commands.push(Command::EndContainer);
            proof {
                assert(self.commands@ =~= drawn.take(start as int).push(Command::WrapMarker(0))
                    .push(Command::BeginContainer(wrap_row())) + kv.push(Command::EndContainer));
            }
        } else {
            self.commands.push(Command::RichText {
                segments,
                wrap: true,
                align: Align::Start,
                margin: Margin::zero(),
                constraints: Constraints::none(),
            });
            proof {
                assert(self.commands@.take(start as int) =~= drawn.take(start as int));
            }
        }
        proof {
            assert(line_wrapped(drawn, start as int, self.commands@));
        }
    }
}

/// Cells towards the right (or down) that an inset of `d` moves content
/// anchored on `side` (-1, 0, 1): towards the center from an edge, only for
/// a positive inset; either way when centered.
pub open spec fn inset_shift(side: int, d: i32) -> int {
    let pos: int = if d > 0 { d as int } else { 0 };
    if side < 0 { pos } else if side > 0 { -pos } else { d as int }
}

/// An anchored offset moves content by `(dx, dy)` towards the center of the
/// screen (a negative offset on an edge is ignored), and sets at most one
/// margin on each axis.
pub proof fn lemma_anchor_offset_insets(a: Anchor, dx: i32, dy: i32)
    ensures
        anchor_margin(a, dx, dy).left as int - anchor_margin(a, dx, dy).right as int == inset_shift(anchor_column(a), dx),
        anchor_margin(a, dx, dy).top as int - anchor_margin(a, dx, dy).bottom as int == inset_shift(anchor_row(a), dy),
        anchor_margin(a, dx, dy).left == 0 || anchor_margin(a, dx, dy).right == 0,
        anchor_margin(a, dx, dy).top == 0 || anchor_margin(a, dx, dy).bottom == 0,
{
}

} // verus!
