//! Buttons, checkboxes and toggle switches.
use vstd::prelude::*;
use crate::command::{Command, ContainerArgs};
use crate::context::{plain_container, plain_container_args, Context, Response};
use crate::context::widgets_display::status::{added, grew_by};
use crate::context::widgets_display::text::is_plain_text;
use crate::context::widgets_interactive::collections::{or_else, WidgetColors};
use crate::event::KeyCode;
use crate::style::{sat_add, Color, Direction, Modifiers, Style, Theme, BOLD};

verus! {

/// The keys that activate a focused button, checkbox or switch.
pub open spec fn activation_codes() -> Seq<KeyCode> {
    seq![KeyCode::Enter, KeyCode::Char(' ')]
}

/// A pending Enter or Space press exists.
pub open spec fn activation_pending(c: Context) -> bool {
    exists|i: int| c.live_press_in(i, activation_codes())
}

/// The row a control draws in.
pub open spec fn control_row(gap: i32, bg: Option<Color>, border_color: Color) -> ContainerArgs {
    ContainerArgs { bg_color: bg, ..plain_container(Direction::Row, gap, border_color) }
}

fn control_row_args(gap: i32, bg: Option<Color>, border_color: Color) -> (r: ContainerArgs)
    ensures
        r == control_row(gap, bg, border_color),
{
    ContainerArgs { bg_color: bg, ..plain_container_args(Direction::Row, gap, border_color) }
}

/// Style of a button's label.
pub open spec fn button_style(t: Theme, colors: WidgetColors, focused: bool, hovered: bool) -> Style {
    if focused {
        Style { fg: Some(or_else(colors.accent, t.accent)), bg: None, modifiers: Modifiers(BOLD) }
    } else if hovered {
        Style { fg: Some(or_else(colors.accent, t.accent)), bg: None, modifiers: Modifiers(0) }
    } else {
        Style { fg: Some(or_else(colors.fg, t.text)), bg: None, modifiers: Modifiers(0) }
    }
}

/// Background of a button's row.
pub open spec fn button_bg(t: Theme, colors: WidgetColors, focused: bool, hovered: bool) -> Option<Color> {
    if colors.bg is Some || hovered || focused { Some(or_else(colors.bg, t.surface_hover)) } else { None }
}

/// `[ label ]`.
pub open spec fn bracketed(label: Seq<char>) -> Seq<char> {
    seq!['[', ' '] + label + seq![' ', ']']
}

/// `▸ ` in front of `s` when focused.
pub open spec fn focus_mark(s: Seq<char>, focused: bool) -> Seq<char> {
    if focused { seq!['▸', ' '] + s } else { s }
}

/// `s` made bold when `bold` holds.
pub open spec fn bold_if(s: Style, bold: bool) -> Style {
    if bold { Style { modifiers: Modifiers(s.modifiers.0 | BOLD), ..s } } else { s }
}

/// The commands a control left after `before`: an optional focus marker,
/// its interaction marker, a row holding `k` runs checked by `runs_ok`,
/// and the row's end.
pub open spec fn control_frame(before: Context, after: Context, focused: bool, row: ContainerArgs, k: int) -> bool {
    let m = if focused { 1int } else { 0int };
    &&& grew_by(before, after, m + 3 + k)
    &&& (focused ==> added(before, after, 0) == Command::FocusMarker(before.focus_count))
    &&& added(before, after, m) == Command::InteractionMarker(before.interaction_count)
    &&& added(before, after, m + 1) == Command::BeginContainer(row)
    &&& added(before, after, m + 2 + k) == Command::EndContainer
}

impl Context {
    /// Open a control: register it as focusable, reserve its interaction
    /// slot, and report what hit the slot last frame (with `focused` set).
    pub(crate) fn open_control(&mut self) -> (r: (bool, Response))
        requires
            old(self).wf(),
        ensures
            final(self).wf(),
            r.0 == old(self).next_focusable_is_focused(),
            r.1 == (Response { focused: r.0, ..old(self).spec_response_for(old(self).interaction_count as int) }),
            r.0 ==> final(self).commands@ == old(self).commands@.push(Command::FocusMarker(old(self).focus_count)).push(
                Command::InteractionMarker(old(self).interaction_count)),
            !r.0 ==> final(self).commands@ == old(self).commands@.push(Command::InteractionMarker(old(self).interaction_count)),
            *final(self) == (Context {
                commands: final(self).commands,
                focus_count: sat_inc_usize(old(self).focus_count),
                interaction_count: sat_inc_usize(old(self).interaction_count),
                ..*old(self)
            }),
    {
        let focused = self.register_focusable();
        let id = self.next_interaction_id();
        let resp = self.response_for(id);
        (focused, Response { focused, ..resp })
    }

    /// Draw a control's row holding one or two runs, then close it.
    fn control_body(&mut self, row: ContainerArgs, a: &str, a_style: Style, b: Option<(&str, Style)>)
        requires
            old(self).wf(),
            old(self).commands@.len() + 4 < usize::MAX,
        ensures
            final(self).wf(),
            ({
                let k = if b is Some { 2int } else { 1int };
                let n = old(self).commands@.len() as int;
                &&& final(self).commands@.len() == n + 2 + k
                &&& final(self).commands@.take(n) == old(self).commands@
                &&& final(self).commands@[n] == Command::BeginContainer(row)
                &&& is_plain_text(final(self).commands@[n + 1], a@, a_style)
                &&& (b matches Some((bt, bs)) ==> is_plain_text(final(self).commands@[n + 2], bt@, bs))
                &&& final(self).commands@[n + 1 + k] == Command::EndContainer
            }),
            *final(self) == (Context { commands: final(self).commands, last_text_idx: None, ..*old(self) }),
    {
        let ghost n = self.commands@.len() as int;
        self.begin_container(row);
        let ghost s1 = self.commands@;
        self.styled(a, a_style);
        let ghost s2 = self.commands@;
        match b {
            Some((bt, bs)) => {
                self.styled(bt, bs);
            },
            None => {},
        }
        let ghost s3 = self.commands@;
        self.end_container();
        proof {
            assert(s2.drop_last() == s1);
            assert(self.commands@.drop_last() == s3);
            if b is Some {
                assert(s3.drop_last() == s2);
            }
            assert forall|j: int| 0 <= j < n + 2 implies self.commands@[j] == s2[j] by {
                assert(self.commands@[j] == s3[j]);
                if b is Some {
                    assert(s3[j] == s2[j]);
                }
            }
            assert forall|j: int| 0 <= j < n + 1 implies s2[j] == s1[j] by {}
            assert(self.commands@.take(n) =~= old(self).commands@) by {
                assert forall|j: int| 0 <= j < n implies self.commands@[j] == old(self).commands@[j] by {
                    assert(self.commands@[j] == s2[j]);
                    assert(s2[j] == s1[j]);
                }
            }
            assert(self.commands@[n] == s1[n]);
        }
    }
}

/// `x + 1`, or `x` at the top of the range.
pub open spec fn sat_inc_usize(x: usize) -> usize {
    if x < usize::MAX { (x + 1) as usize } else { usize::MAX }
}

fn bracket(label: &str) -> (r: String)
    ensures
        r@ == bracketed(label@),
{
    let mut t = String::new();
    t.append("[ ");
    t.append(label);
    t.append(" ]");
    proof {
        reveal_strlit("[ ");
        reveal_strlit(" ]");
        assert(t@ =~= bracketed(label@));
    }
    t
}

fn mark_focus(s: &str, focused: bool) -> (r: String)
    ensures
        r@ == focus_mark(s@, focused),
{
    let mut t = String::new();
    if focused {
        t.append("▸ ");
    }
    t.append(s);
    proof {
        reveal_strlit("▸ ");
        assert(t@ =~= focus_mark(s@, focused));
    }
    t
}

impl Context {
    /// A button in custom colors: `[ label ]`. Enter or Space (when
    /// focused) or a click on it activates it, reported as `clicked`.
    #[verifier::rlimit(100)]
    #[verifier::spinoff_prover]
    pub fn button_colored(&mut self, label: &str, colors: &WidgetColors) -> (r: Response)
        requires
            old(self).wf(),
            old(self).commands@.len() + 6 < usize::MAX,
        ensures
            final(self).wf(),
            ({
                let t = old(self).theme;
                let focused = old(self).next_focusable_is_focused();
                let base = old(self).spec_response_for(old(self).interaction_count as int);
                let keys = !base.clicked && focused;
                let m = if focused { 1int } else { 0int };
                &&& r == Response { focused, clicked: base.clicked || (keys && activation_pending(*old(self))), ..base }
                &&& final(self).consumed@.len() == old(self).consumed@.len()
                &&& forall|i: int| 0 <= i < final(self).consumed@.len() ==> #[trigger] final(self).consumed@[i]
                    == (old(self).consumed@[i] || (keys && old(self).live_press_in(i, activation_codes())))
                &&& control_frame(*old(self), *final(self), focused,
                    control_row(0, button_bg(t, *colors, focused, base.hovered), or_else(colors.border, t.border)), 1)
                &&& is_plain_text(added(*old(self), *final(self), m + 2), bracketed(label@),
                    button_style(t, *colors, focused, base.hovered))
                &&& *final(self) == (Context {
                    commands: final(self).commands,
                    consumed: final(self).consumed,
                    focus_count: sat_inc_usize(old(self).focus_count),
                    interaction_count: sat_inc_usize(old(self).interaction_count),
                    last_text_idx: None,
                    ..*old(self)
                })
            }),
    {
        let ghost n0 = self.commands@.len() as int;
        let (focused, resp) = self.open_control();
        let ghost opened = *self;
        let activated = resp.clicked || self.consume_activation_keys(focused);
        proof {
            assert forall|i: int| #[trigger] opened.live_press_in(i, activation_codes())
                == old(self).live_press_in(i, activation_codes()) by {}
            assert(activation_codes() == seq![KeyCode::Enter, KeyCode::Char(' ')]);
            if !resp.clicked && focused && activated {
                let w = choose|i: int| opened.live_press_in(i, seq![KeyCode::Enter, KeyCode::Char(' ')]);
                assert(old(self).live_press_in(w, activation_codes()));
            }
            if !resp.clicked && focused && activation_pending(*old(self)) {
                let w = choose|i: int| old(self).live_press_in(i, activation_codes());
                assert(opened.live_press_in(w, seq![KeyCode::Enter, KeyCode::Char(' ')]));
            }
        }
        let t = self.theme;
        let accent = match colors.accent { Some(c) => c, None => t.accent };
        let style = if focused {
            Style::new().fg(accent).bold()
        } else if resp.hovered {
            Style::new().fg(accent)
        } else {
            Style::new().fg(match colors.fg { Some(c) => c, None => t.text })
        };
        let bg = if colors.bg.is_some() || resp.hovered || focused {
            Some(match colors.bg { Some(c) => c, None => t.surface_hover })
        } else {
            None
        };
        let row = control_row_args(0, bg, match colors.border { Some(c) => c, None => t.border });
        let text = bracket(label);
        let ghost before_body = *self;
        self.control_body(row, text.as_str(), style, None);
        proof {
            crate::style::lemma_single_flags();
            let m = if focused { 1int } else { 0int };
            assert(before_body.commands@.len() == n0 + m + 1);
            assert forall|j: int| 0 <= j < n0 + m + 1 implies self.commands@[j] == before_body.commands@[j] by {
                assert(self.commands@.take(n0 + m + 1)[j] == before_body.commands@[j]);
            }
            assert(self.commands@.take(n0) =~= old(self).commands@);
            assert(self.commands@[n0 + m] == before_body.commands@[n0 + m]);
            if focused {
                assert(self.commands@[n0] == before_body.commands@[n0]);
            }
        }
        Response { clicked: activated, ..resp }
    }

    /// A button in the theme's colors; see [`button_colored`](Self::button_colored).
    pub fn button(&mut self, label: &str) -> (r: Response)
        requires
            old(self).wf(),
            old(self).commands@.len() + 6 < usize::MAX,
        ensures
            final(self).wf(),
            ({
                let t = old(self).theme;
                let colors = WidgetColors { fg: None, bg: None, border: None, accent: None };
                let focused = old(self).next_focusable_is_focused();
                let base = old(self).spec_response_for(old(self).interaction_count as int);
                let keys = !base.clicked && focused;
                let m = if focused { 1int } else { 0int };
                &&& r == Response { focused, clicked: base.clicked || (keys && activation_pending(*old(self))), ..base }
                &&& final(self).consumed@.len() == old(self).consumed@.len()
                &&& forall|i: int| 0 <= i < final(self).consumed@.len() ==> #[trigger] final(self).consumed@[i]
                    == (old(self).consumed@[i] || (keys && old(self).live_press_in(i, activation_codes())))
                &&& control_frame(*old(self), *final(self), focused,
                    control_row(0, button_bg(t, colors, focused, base.hovered), t.border), 1)
                &&& is_plain_text(added(*old(self), *final(self), m + 2), bracketed(label@),
                    button_style(t, colors, focused, base.hovered))
                &&& *final(self) == (Context {
                    commands: final(self).commands,
                    consumed: final(self).consumed,
                    focus_count: sat_inc_usize(old(self).focus_count),
                    interaction_count: sat_inc_usize(old(self).interaction_count),
                    last_text_idx: None,
                    ..*old(self)
                })
            }),
    {
        let colors = WidgetColors::theme_default();
        self.button_colored(label, &colors)
    }
}

/// Style of a checkbox mark or switch: the success color when set.
pub open spec fn mark_style(t: Theme, colors: WidgetColors, set: bool) -> Style {
    if set {
        Style { fg: Some(or_else(colors.accent, t.success)), bg: None, modifiers: Modifiers(0) }
    } else {
        Style { fg: Some(or_else(colors.fg, t.text_dim)), bg: None, modifiers: Modifiers(0) }
    }
}

impl Context {
    /// A checkbox in custom colors: `[x]` or `[ ]` and the label. Enter or
    /// Space (when focused) or a click flips `checked`.
    #[verifier::rlimit(100)]
    #[verifier::spinoff_prover]
    pub fn checkbox_colored(&mut self, label: &str, checked: &mut bool, colors: &WidgetColors) -> (r: Response)
        requires
            old(self).wf(),
            old(self).commands@.len() + 6 < usize::MAX,
        ensures
            final(self).wf(),
            ({
                let t = old(self).theme;
                let colors = *colors;
                let focused = old(self).next_focusable_is_focused();
                let base = old(self).spec_response_for(old(self).interaction_count as int);
                let flip = base.clicked || (focused && activation_pending(*old(self)));
                let now = *old(checked) != flip;
                let m = if focused { 1int } else { 0int };
                &&& *final(checked) == now
                &&& r == Response { focused, changed: flip, ..base }
                &&& final(self).consumed@.len() == old(self).consumed@.len()
                &&& forall|i: int| 0 <= i < final(self).consumed@.len() ==> #[trigger] final(self).consumed@[i]
                    == (old(self).consumed@[i] || (focused && old(self).live_press_in(i, activation_codes())))
                &&& control_frame(*old(self), *final(self), focused,
                    control_row(#[verifier::truncate] (t.spacing.0 as i32), if base.hovered || focused { Some(t.surface_hover) } else { None },
                        or_else(colors.border, t.border)), 2)
                &&& is_plain_text(added(*old(self), *final(self), m + 2), focus_mark(if now { seq!['[', 'x', ']'] } else { seq!['[', ' ', ']'] }, focused), bold_if(mark_style(t, colors, now), focused))
                &&& is_plain_text(added(*old(self), *final(self), m + 3), label@, bold_if(Style { fg: Some(or_else(colors.fg, t.text)), bg: None, modifiers: Modifiers(0) }, focused))
                &&& *final(self) == (Context {
                    commands: final(self).commands,
                    consumed: final(self).consumed,
                    focus_count: sat_inc_usize(old(self).focus_count),
                    interaction_count: sat_inc_usize(old(self).interaction_count),
                    last_text_idx: None,
                    ..*old(self)
                })
            }),
    {
        let ghost n0 = self.commands@.len() as int;
        let (focused, resp) = self.open_control();
        let ghost opened = *self;
        let keyed = self.consume_activation_keys(focused);
        proof {
            assert forall|i: int| #[trigger] opened.live_press_in(i, activation_codes())
                == old(self).live_press_in(i, activation_codes()) by {}
            assert(activation_codes() == seq![KeyCode::Enter, KeyCode::Char(' ')]);
            if focused && keyed {
                let w = choose|i: int| opened.live_press_in(i, seq![KeyCode::Enter, KeyCode::Char(' ')]);
                assert(old(self).live_press_in(w, activation_codes()));
            }
            if focused && activation_pending(*old(self)) {
                let w = choose|i: int| old(self).live_press_in(i, activation_codes());
                assert(opened.live_press_in(w, seq![KeyCode::Enter, KeyCode::Char(' ')]));
            }
        }
        let flip = resp.clicked || keyed;
        if flip {
            *checked = !*checked;
        }
        let now = *checked;
        let t = self.theme;
        let bg = if resp.hovered || focused { Some(t.surface_hover) } else { None };
        let border = match colors.border { Some(c) => c, None => t.border };
        let mark_st = if now {
            Style::new().fg(match colors.accent { Some(c) => c, None => t.success })
        } else {
            Style::new().fg(match colors.fg { Some(c) => c, None => t.text_dim })
        };
        let label_st = Style::new().fg(match colors.fg { Some(c) => c, None => t.text });
        let row = control_row_args(#[verifier::truncate] (t.spacing.xs() as i32), bg, border);
        let marker: &str = if now { "[x]" } else { "[ ]" };
        proof {
            reveal_strlit("[x]");
            reveal_strlit("[ ]");
            assert("[x]"@ =~= seq!['[', 'x', ']']);
            assert("[ ]"@ =~= seq!['[', ' ', ']']);
        }
        let first = mark_focus(marker, focused);
        let first_st = if focused { mark_st.bold() } else { mark_st };
        let second_st = if focused { label_st.bold() } else { label_st };
        let ghost before_body = *self;
        self.control_body(row, first.as_str(), first_st, Some((label, second_st)));
        proof {
            crate::style::lemma_single_flags();
            let m = if focused { 1int } else { 0int };
            assert(before_body.commands@.len() == n0 + m + 1);
            assert forall|j: int| 0 <= j < n0 + m + 1 implies self.commands@[j] == before_body.commands@[j] by {
                assert(self.commands@.take(n0 + m + 1)[j] == before_body.commands@[j]);
            }
            assert(self.commands@.take(n0) =~= old(self).commands@);
            assert(self.commands@[n0 + m] == before_body.commands@[n0 + m]);
            if focused {
                assert(self.commands@[n0] == before_body.commands@[n0]);
            }
        }
        Response { changed: flip, ..resp }
    }

    /// A checkbox in the theme's colors; see [`checkbox_colored`](Self::checkbox_colored).
    pub fn checkbox(&mut self, label: &str, checked: &mut bool) -> (r: Response)
        requires
            old(self).wf(),
            old(self).commands@.len() + 6 < usize::MAX,
        ensures
            final(self).wf(),
            ({
                let t = old(self).theme;
                let colors = WidgetColors { fg: None, bg: None, border: None, accent: None };
                let focused = old(self).next_focusable_is_focused();
                let base = old(self).spec_response_for(old(self).interaction_count as int);
                let flip = base.clicked || (focused && activation_pending(*old(self)));
                let now = *old(checked) != flip;
                let m = if focused { 1int } else { 0int };
                &&& *final(checked) == now
                &&& r == Response { focused, changed: flip, ..base }
                &&& final(self).consumed@.len() == old(self).consumed@.len()
                &&& forall|i: int| 0 <= i < final(self).consumed@.len() ==> #[trigger] final(self).consumed@[i]
                    == (old(self).consumed@[i] || (focused && old(self).live_press_in(i, activation_codes())))
                &&& control_frame(*old(self), *final(self), focused,
                    control_row(#[verifier::truncate] (t.spacing.0 as i32), if base.hovered || focused { Some(t.surface_hover) } else { None },
                        or_else(colors.border, t.border)), 2)
                &&& is_plain_text(added(*old(self), *final(self), m + 2), focus_mark(if now { seq!['[', 'x', ']'] } else { seq!['[', ' ', ']'] }, focused), bold_if(mark_style(t, colors, now), focused))
                &&& is_plain_text(added(*old(self), *final(self), m + 3), label@, bold_if(Style { fg: Some(or_else(colors.fg, t.text)), bg: None, modifiers: Modifiers(0) }, focused))
                &&& *final(self) == (Context {
                    commands: final(self).commands,
                    consumed: final(self).consumed,
                    focus_count: sat_inc_usize(old(self).focus_count),
                    interaction_count: sat_inc_usize(old(self).interaction_count),
                    last_text_idx: None,
                    ..*old(self)
                })
            }),
    {
        let colors = WidgetColors::theme_default();
        self.checkbox_colored(label, checked, &colors)
    }

    /// An on/off switch in custom colors: the label and `●━━ ON` or
    /// `━━● OFF`. Enter or Space (when focused) or a click flips `on`.
    #[verifier::rlimit(100)]
    #[verifier::spinoff_prover]
    pub fn toggle_colored(&mut self, label: &str, on: &mut bool, colors: &WidgetColors) -> (r: Response)
        requires
            old(self).wf(),
            old(self).commands@.len() + 6 < usize::MAX,
        ensures
            final(self).wf(),
            ({
                let t = old(self).theme;
                let colors = *colors;
                let focused = old(self).next_focusable_is_focused();
                let base = old(self).spec_response_for(old(self).interaction_count as int);
                let flip = base.clicked || (focused && activation_pending(*old(self)));
                let now = *old(on) != flip;
                let m = if focused { 1int } else { 0int };
                &&& *final(on) == now
                &&& r == Response { focused, changed: flip, ..base }
                &&& final(self).consumed@.len() == old(self).consumed@.len()
                &&& forall|i: int| 0 <= i < final(self).consumed@.len() ==> #[trigger] final(self).consumed@[i]
                    == (old(self).consumed@[i] || (focused && old(self).live_press_in(i, activation_codes())))
                &&& control_frame(*old(self), *final(self), focused,
                    control_row(#[verifier::truncate] (sat_add(t.spacing.0, t.spacing.0) as i32), if base.hovered || focused { Some(t.surface_hover) } else { None },
                        or_else(colors.border, t.border)), 2)
                &&& is_plain_text(added(*old(self), *final(self), m + 2), focus_mark(label@, focused), bold_if(Style { fg: Some(or_else(colors.fg, t.text)), bg: None, modifiers: Modifiers(0) }, focused))
                &&& is_plain_text(added(*old(self), *final(self), m + 3), if now { seq!['●', '━', '━', ' ', 'O', 'N'] } else { seq!['━', '━', '●', ' ', 'O', 'F', 'F'] }, bold_if(mark_style(t, colors, now), focused))
                &&& *final(self) == (Context {
                    commands: final(self).commands,
                    consumed: final(self).consumed,
                    focus_count: sat_inc_usize(old(self).focus_count),
                    interaction_count: sat_inc_usize(old(self).interaction_count),
                    last_text_idx: None,
                    ..*old(self)
                })
            }),
    {
        let ghost n0 = self.commands@.len() as int;
        let (focused, resp) = self.open_control();
        let ghost opened = *self;
        let keyed = self.consume_activation_keys(focused);
        proof {
            assert forall|i: int| #[trigger] opened.live_press_in(i, activation_codes())
                == old(self).live_press_in(i, activation_codes()) by {}
            assert(activation_codes() == seq![KeyCode::Enter, KeyCode::Char(' ')]);
            if focused && keyed {
                let w = choose|i: int| opened.live_press_in(i, seq![KeyCode::Enter, KeyCode::Char(' ')]);
                assert(old(self).live_press_in(w, activation_codes()));
            }
            if focused && activation_pending(*old(self)) {
                let w = choose|i: int| old(self).live_press_in(i, activation_codes());
                assert(opened.live_press_in(w, seq![KeyCode::Enter, KeyCode::Char(' ')]));
            }
        }
        let flip = resp.clicked || keyed;
        if flip {
            *on = !*on;
        }
        let now = *on;
        let t = self.theme;
        let bg = if resp.hovered || focused { Some(t.surface_hover) } else { None };
        let border = match colors.border { Some(c) => c, None => t.border };
        let mark_st = if now {
            Style::new().fg(match colors.accent { Some(c) => c, None => t.success })
        } else {
            Style::new().fg(match colors.fg { Some(c) => c, None => t.text_dim })
        };
        let label_st = Style::new().fg(match colors.fg { Some(c) => c, None => t.text });
        let row = control_row_args(#[verifier::truncate] (t.spacing.sm() as i32), bg, border);
        let switch: &str = if now { "●━━ ON" } else { "━━● OFF" };
        proof {
            reveal_strlit("●━━ ON");
            reveal_strlit("━━● OFF");
            assert("●━━ ON"@ =~= seq!['●', '━', '━', ' ', 'O', 'N']);
            assert("━━● OFF"@ =~= seq!['━', '━', '●', ' ', 'O', 'F', 'F']);
        }
        let first = mark_focus(label, focused);
        let first_st = if focused { label_st.bold() } else { label_st };
        let second_st = if focused { mark_st.bold() } else { mark_st };
        let ghost before_body = *self;
        self.control_body(row, first.as_str(), first_st, Some((switch, second_st)));
        proof {
            crate::style::lemma_single_flags();
            let m = if focused { 1int } else { 0int };
            assert(before_body.commands@.len() == n0 + m + 1);
            assert forall|j: int| 0 <= j < n0 + m + 1 implies self.commands@[j] == before_body.commands@[j] by {
                assert(self.commands@.take(n0 + m + 1)[j] == before_body.commands@[j]);
            }
            assert(self.commands@.take(n0) =~= old(self).commands@);
            assert(self.commands@[n0 + m] == before_body.commands@[n0 + m]);
            if focused {
                assert(self.commands@[n0] == before_body.commands@[n0]);
            }
        }
        Response { changed: flip, ..resp }
    }

    /// A switch in the theme's colors; see [`toggle_colored`](Self::toggle_colored).
    pub fn toggle(&mut self, label: &str, on: &mut bool) -> (r: Response)
        requires
            old(self).wf(),
            old(self).commands@.len() + 6 < usize::MAX,
        ensures
            final(self).wf(),
            ({
                let t = old(self).theme;
                let colors = WidgetColors { fg: None, bg: None, border: None, accent: None };
                let focused = old(self).next_focusable_is_focused();
                let base = old(self).spec_response_for(old(self).interaction_count as int);
                let flip = base.clicked || (focused && activation_pending(*old(self)));
                let now = *old(on) != flip;
                let m = if focused { 1int } else { 0int };
                &&& *final(on) == now
                &&& r == Response { focused, changed: flip, ..base }
                &&& final(self).consumed@.len() == old(self).consumed@.len()
                &&& forall|i: int| 0 <= i < final(self).consumed@.len() ==> #[trigger] final(self).consumed@[i]
                    == (old(self).consumed@[i] || (focused && old(self).live_press_in(i, activation_codes())))
                &&& control_frame(*old(self), *final(self), focused,
                    control_row(#[verifier::truncate] (sat_add(t.spacing.0, t.spacing.0) as i32), if base.hovered || focused { Some(t.surface_hover) } else { None },
                        or_else(colors.border, t.border)), 2)
                &&& is_plain_text(added(*old(self), *final(self), m + 2), focus_mark(label@, focused), bold_if(Style { fg: Some(or_else(colors.fg, t.text)), bg: None, modifiers: Modifiers(0) }, focused))
                &&& is_plain_text(added(*old(self), *final(self), m + 3), if now { seq!['●', '━', '━', ' ', 'O', 'N'] } else { seq!['━', '━', '●', ' ', 'O', 'F', 'F'] }, bold_if(mark_style(t, colors, now), focused))
                &&& *final(self) == (Context {
                    commands: final(self).commands,
                    consumed: final(self).consumed,
                    focus_count: sat_inc_usize(old(self).focus_count),
                    interaction_count: sat_inc_usize(old(self).interaction_count),
                    last_text_idx: None,
                    ..*old(self)
                })
            }),
    {
        let colors = WidgetColors::theme_default();
        self.toggle_colored(label, on, &colors)
    }
}

/// Look of a button drawn by [`Context::button_with`].
#[derive(Debug, Clone, Copy, PartialEq, Eq, Structural)]
pub enum ButtonVariant {
    /// `[ label ]` in the text color.
    Default,
    /// Call to action: the background in the primary color.
    Primary,
    /// Destructive action: the background in the error color.
    Danger,
    /// Secondary action: a rounded border.
    Outline,
}

/// Label text of a button variant.
pub open spec fn variant_text(v: ButtonVariant, label: Seq<char>) -> Seq<char> {
    if v == ButtonVariant::Default { bracketed(label) } else { seq![' '] + label + seq![' '] }
}

/// Label style of a button variant.
pub open spec fn variant_style(t: Theme, v: ButtonVariant, focused: bool, hovered: bool) -> Style {
    let bold = Modifiers(BOLD);
    let none = Modifiers(0);
    match v {
        ButtonVariant::Default | ButtonVariant::Outline => if focused {
            Style { fg: Some(t.primary), bg: None, modifiers: bold }
        } else if hovered {
            Style { fg: Some(t.accent), bg: None, modifiers: none }
        } else {
            Style { fg: Some(t.text), bg: None, modifiers: none }
        },
        ButtonVariant::Primary => if focused {
            Style { fg: Some(t.bg), bg: Some(t.primary), modifiers: bold }
        } else if hovered {
            Style { fg: Some(t.bg), bg: Some(t.accent), modifiers: none }
        } else {
            Style { fg: Some(t.bg), bg: Some(t.primary), modifiers: none }
        },
        ButtonVariant::Danger => if focused {
            Style { fg: Some(t.bg), bg: Some(t.error), modifiers: bold }
        } else if hovered {
            Style { fg: Some(t.bg), bg: Some(t.warning), modifiers: none }
        } else {
            Style { fg: Some(t.bg), bg: Some(t.error), modifiers: none }
        },
    }
}

/// The centered row a button variant draws in.
pub open spec fn variant_row(t: Theme, v: ButtonVariant, focused: bool, hovered: bool) -> ContainerArgs {
    let outline_color = if focused { t.primary } else if hovered { t.accent } else { t.border };
    ContainerArgs {
        align: crate::style::Align::Center,
        justify: crate::style::Justify::Center,
        border: if v == ButtonVariant::Outline { Some(crate::style::Border::Rounded) } else { None },
        border_style: if v == ButtonVariant::Outline {
            Style { fg: Some(outline_color), bg: None, modifiers: Modifiers(0) }
        } else {
            Style { fg: None, bg: None, modifiers: Modifiers(0) }
        },
        bg_color: if hovered || focused { Some(t.surface_hover) } else { None },
        ..plain_container(Direction::Row, 0, t.border)
    }
}

fn pad_spaces(label: &str) -> (r: String)
    ensures
        r@ == seq![' '] + label@ + seq![' '],
{
    let mut t = String::new();
    t.append(" ");
    t.append(label);
    t.append(" ");
    proof {
        reveal_strlit(" ");
        assert(t@ =~= seq![' '] + label@ + seq![' ']);
    }
    t
}

fn variant_parts(t: Theme, variant: ButtonVariant, label: &str, focused: bool, hovered: bool) -> (r: (String, Style, ContainerArgs))
    ensures
        r.0@ == variant_text(variant, label@),
        r.1 == variant_style(t, variant, focused, hovered),
        r.2 == variant_row(t, variant, focused, hovered),
{
    proof {
        crate::style::lemma_single_flags();
    }
    let (text, style) = match variant {
        ButtonVariant::Default | ButtonVariant::Outline => {
            let st = if focused {
                Style::new().fg(t.primary).bold()
            } else if hovered {
                Style::new().fg(t.accent)
            } else {
                Style::new().fg(t.text)
            };
            let text = if variant == ButtonVariant::Default { bracket(label) } else { pad_spaces(label) };
            (text, st)
        },
        ButtonVariant::Primary => {
            let st = if focused {
                Style::new().fg(t.bg).bg(t.primary).bold()
            } else if hovered {
                Style::new().fg(t.bg).bg(t.accent)
            } else {
                Style::new().fg(t.bg).bg(t.primary)
            };
            (pad_spaces(label), st)
        },
        ButtonVariant::Danger => {
            let st = if focused {
                Style::new().fg(t.bg).bg(t.error).bold()
            } else if hovered {
                Style::new().fg(t.bg).bg(t.warning)
            } else {
                Style::new().fg(t.bg).bg(t.error)
            };
            (pad_spaces(label), st)
        },
    };
    let outline_color = if focused { t.primary } else if hovered { t.accent } else { t.border };
    let is_outline = variant == ButtonVariant::Outline;
    let row = ContainerArgs {
        align: crate::style::Align::Center,
        justify: crate::style::Justify::Center,
        border: if is_outline { Some(crate::style::Border::Rounded) } else { None },
        border_style: if is_outline { Style::new().fg(outline_color) } else { Style::new() },
        bg_color: if hovered || focused { Some(t.surface_hover) } else { None },
        ..plain_container_args(Direction::Row, 0, t.border)
    };
    (text, style, row)
}

impl Context {
    /// A button in one of the variant looks; activation as for
    /// [`button`](Self::button).
    #[verifier::rlimit(100)]
    #[verifier::spinoff_prover]
    pub fn button_with(&mut self, label: &str, variant: ButtonVariant) -> (r: Response)
        requires
            old(self).wf(),
            old(self).commands@.len() + 6 < usize::MAX,
        ensures
            final(self).wf(),
            ({
                let t = old(self).theme;
                let focused = old(self).next_focusable_is_focused();
                let base = old(self).spec_response_for(old(self).interaction_count as int);
                let keys = !base.clicked && focused;
                let m = if focused { 1int } else { 0int };
                &&& r == Response { focused, clicked: base.clicked || (keys && activation_pending(*old(self))), ..base }
                &&& final(self).consumed@.len() == old(self).consumed@.len()
                &&& forall|i: int| 0 <= i < final(self).consumed@.len() ==> #[trigger] final(self).consumed@[i]
                    == (old(self).consumed@[i] || (keys && old(self).live_press_in(i, activation_codes())))
                &&& control_frame(*old(self), *final(self), focused, variant_row(t, variant, focused, base.hovered), 1)
                &&& is_plain_text(added(*old(self), *final(self), m + 2), variant_text(variant, label@),
                    variant_style(t, variant, focused, base.hovered))
                &&& *final(self) == (Context {
                    commands: final(self).commands,
                    consumed: final(self).consumed,
                    focus_count: sat_inc_usize(old(self).focus_count),
                    interaction_count: sat_inc_usize(old(self).interaction_count),
                    last_text_idx: None,
                    ..*old(self)
                })
            }),
    {
        let ghost n0 = self.commands@.len() as int;
        let (focused, resp) = self.open_control();
        let ghost opened = *self;
        let activated = resp.clicked || self.consume_activation_keys(focused);
        proof {
            assert forall|i: int| #[trigger] opened.live_press_in(i, activation_codes())
                == old(self).live_press_in(i, activation_codes()) by {}
            assert(activation_codes() == seq![KeyCode::Enter, KeyCode::Char(' ')]);
            if !resp.clicked && focused && activated {
                let w = choose|i: int| opened.live_press_in(i, seq![KeyCode::Enter, KeyCode::Char(' ')]);
                assert(old(self).live_press_in(w, activation_codes()));
            }
            if !resp.clicked && focused && activation_pending(*old(self)) {
                let w = choose|i: int| old(self).live_press_in(i, activation_codes());
                assert(opened.live_press_in(w, seq![KeyCode::Enter, KeyCode::Char(' ')]));
            }
        }
        let (text, style, row) = variant_parts(self.theme, variant, label, focused, resp.hovered);
        let ghost before_body = *self;
        self.control_body(row, text.as_str(), style, None);
        proof {
            crate::style::lemma_single_flags();
            let m = if focused { 1int } else { 0int };
            assert(before_body.commands@.len() == n0 + m + 1);
            assert forall|j: int| 0 <= j < n0 + m + 1 implies self.commands@[j] == before_body.commands@[j] by {
                assert(self.commands@.take(n0 + m + 1)[j] == before_body.commands@[j]);
            }
            assert(self.commands@.take(n0) =~= old(self).commands@);
            assert(self.commands@[n0 + m] == before_body.commands@[n0 + m]);
            if focused {
                assert(self.commands@[n0] == before_body.commands@[n0]);
            }
        }
        Response { clicked: activated, ..resp }
    }
}


} // verus!
