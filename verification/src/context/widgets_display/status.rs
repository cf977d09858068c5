//! Status widgets: badges, key hints, stats, dividers, alerts and the yes/no
//! confirmation row.
use vstd::prelude::*;
use crate::command::Command;
use crate::command::ContainerArgs;
use crate::context::{no_response, plain_container, plain_container_args, Context, Response};
use crate::context::widgets_display::layout::sat_inc;
use crate::context::widgets_interactive::selection::{activation_codes, activation_pending, bracketed, button_bg, button_style, control_row, sat_inc_usize};
use crate::context::widgets_interactive::collections::WidgetColors;
use crate::context::widgets_display::text::{appended_text, inherited_fg, is_plain_text};
use crate::event::{Event, KeyCode, KeyEventKind};
use crate::style::{fg_style, with_mods, no_margin, Padding, open_constraints, sat_add, Align, Color, Direction, Justify, Modifiers, Rect, Style, Theme, BOLD, DIM, REVERSED};
use crate::unicode::{str_width, text_width};

verus! {

/// `s` repeated `n` times.
pub open spec fn repeat(s: Seq<char>, n: nat) -> Seq<char>
    decreases n,
{
    if n == 0 {
        Seq::empty()
    } else {
        repeat(s, (n - 1) as nat) + s
    }
}

/// `s` repeated `n` times.
pub fn repeat_str(s: &str, n: usize) -> (r: String)
    ensures
        r@ == repeat(s@, n as nat),
{
    let mut out = String::new();
    let mut k: usize = 0;
    while k < n
        invariant
            k <= n,
            out@ == repeat(s@, k as nat),
        decreases n - k,
    {
        out.append(s);
        k = k + 1;
    }
    out
}

/// `label` padded with one space on each side.
pub open spec fn padded(label: Seq<char>) -> Seq<char> {
    seq![' '] + label + seq![' ']
}

/// `label` padded with one space on each side.
pub fn pad_label(label: &str) -> (r: String)
    ensures
        r@ == padded(label@),
{
    let mut t = String::new();
    t.append(" ");
    t.append(label);
    t.append(" ");
    proof {
        reveal_strlit(" ");
        assert(t@ == padded(label@));
    }
    t
}

/// `after`'s draw list is `before`'s with `n` more commands.
pub open spec fn grew_by(before: Context, after: Context, n: int) -> bool {
    &&& after.commands@.len() == before.commands@.len() + n
    &&& after.commands@.take(before.commands@.len() as int) == before.commands@
}

/// The command `k` places after the end of `before`'s draw list.
pub open spec fn added(before: Context, after: Context, k: int) -> Command {
    after.commands@[before.commands@.len() + k]
}


/// Progress of the confirmation row while it handles input.
#[derive(Debug, Clone, Copy, PartialEq, Eq, Structural)]
pub struct ConfirmState {
    /// Which answer is highlighted.
    pub is_yes: bool,
    /// The answer written back to the caller.
    pub result: bool,
    /// The question was answered this frame.
    pub clicked: bool,
}

/// The keys the focused confirmation row reacts to (and claims).
pub open spec fn confirm_codes() -> Seq<KeyCode> {
    seq![KeyCode::Char('y'), KeyCode::Char('n'), KeyCode::Tab, KeyCode::BackTab, KeyCode::Left, KeyCode::Right, KeyCode::Enter]
}

/// One key press applied to the confirmation row.
pub open spec fn spec_confirm_step(st: ConfirmState, code: KeyCode) -> ConfirmState {
    match code {
        KeyCode::Char('y') => ConfirmState { is_yes: true, result: true, clicked: true },
        KeyCode::Char('n') => ConfirmState { is_yes: false, result: false, clicked: true },
        KeyCode::Tab | KeyCode::BackTab | KeyCode::Left | KeyCode::Right =>
            ConfirmState { is_yes: !st.is_yes, result: !st.is_yes, clicked: st.clicked },
        KeyCode::Enter => ConfirmState { is_yes: st.is_yes, result: st.is_yes, clicked: true },
        _ => st,
    }
}

/// The unclaimed key presses among the first `n` events applied in order.
pub open spec fn confirm_keys(events: Seq<Event>, consumed: Seq<bool>, n: nat, init: ConfirmState) -> ConfirmState
    decreases n,
{
    if n == 0 {
        init
    } else {
        let prev = confirm_keys(events, consumed, (n - 1) as nat, init);
        if consumed[n - 1] {
            prev
        } else {
            match events[n - 1] {
                Event::Key(k) => if k.kind == KeyEventKind::Press {
                    spec_confirm_step(prev, k.code)
                } else {
                    prev
                },
                _ => prev,
            }
        }
    }
}

/// A left click on `[Yes]` or `[No]`, when no key answered first. The row's
/// previous-frame rectangle (slot `id`) locates it; without one it is
/// assumed to start at the origin.
pub open spec fn confirm_click(st: ConfirmState, click: Option<(u32, u32)>, hits: Seq<Rect>, id: int, q_width: u32) -> ConfirmState {
    if st.clicked {
        st
    } else {
        match click {
            None => st,
            Some((mx, my)) => {
                let known = 0 <= id < hits.len();
                let row_x: int = if known { hits[id].x as int } else { 0 };
                let in_row = if known && hits[id].height > 0 {
                    hits[id].y <= my < sat_add(hits[id].y, hits[id].height)
                } else {
                    true
                };
                let yes_start = row_x + q_width + 1;
                let no_start = yes_start + 6;
                if !in_row {
                    st
                } else if yes_start <= mx < yes_start + 5 {
                    ConfirmState { is_yes: true, result: true, clicked: true }
                } else if no_start <= mx < no_start + 4 {
                    ConfirmState { is_yes: false, result: false, clicked: true }
                } else {
                    st
                }
            },
        }
    }
}

/// Style of `[Yes]`.
pub open spec fn yes_style(t: Theme, is_yes: bool, focused: bool) -> Style {
    if is_yes {
        if focused {
            Style { fg: Some(t.bg), bg: Some(t.success), modifiers: Modifiers(BOLD) }
        } else {
            Style { fg: Some(t.success), bg: None, modifiers: Modifiers(BOLD) }
        }
    } else {
        fg_style(t.text_dim)
    }
}

/// Style of `[No]`.
pub open spec fn no_style(t: Theme, is_yes: bool, focused: bool) -> Style {
    if !is_yes {
        if focused {
            Style { fg: Some(t.bg), bg: Some(t.error), modifiers: Modifiers(BOLD) }
        } else {
            Style { fg: Some(t.error), bg: None, modifiers: Modifiers(BOLD) }
        }
    } else {
        fg_style(t.text_dim)
    }
}

fn confirm_handles(code: KeyCode) -> (r: bool)
    ensures
        r == confirm_codes().contains(code),
{
    let r = match code {
        KeyCode::Char(c) => c == 'y' || c == 'n',
        KeyCode::Tab | KeyCode::BackTab | KeyCode::Left | KeyCode::Right | KeyCode::Enter => true,
        _ => false,
    };
    proof {
        let cs = confirm_codes();
        if r {
            if code == KeyCode::Char('y') { assert(cs[0] == code); }
            if code == KeyCode::Char('n') { assert(cs[1] == code); }
            if code == KeyCode::Tab { assert(cs[2] == code); }
            if code == KeyCode::BackTab { assert(cs[3] == code); }
            if code == KeyCode::Left { assert(cs[4] == code); }
            if code == KeyCode::Right { assert(cs[5] == code); }
            if code == KeyCode::Enter { assert(cs[6] == code); }
        } else {
            assert forall|k: int| 0 <= k < cs.len() implies cs[k] != code by {}
        }
    }
    r
}

fn confirm_step(st: ConfirmState, code: KeyCode) -> (r: ConfirmState)
    ensures
        r == spec_confirm_step(st, code),
{
    match code {
        KeyCode::Char(c) => {
            if c == 'y' {
                ConfirmState { is_yes: true, result: true, clicked: true }
            } else if c == 'n' {
                ConfirmState { is_yes: false, result: false, clicked: true }
            } else {
                st
            }
        },
        KeyCode::Tab | KeyCode::BackTab | KeyCode::Left | KeyCode::Right =>
            ConfirmState { is_yes: !st.is_yes, result: !st.is_yes, clicked: st.clicked },
        KeyCode::Enter => ConfirmState { is_yes: st.is_yes, result: st.is_yes, clicked: true },
        _ => st,
    }
}

fn confirm_hit(st: ConfirmState, click: Option<(u32, u32)>, hits: &Vec<Rect>, id: usize, q_width: u32) -> (r: ConfirmState)
    ensures
        r == confirm_click(st, click, hits@, id as int, q_width),
{
    if st.clicked {
        return st;
    }
    match click {
        None => st,
        Some((mx, my)) => {
            let known = id < hits.len();
            let row_x: u64 = if known { hits[id].x as u64 } else { 0 };
            let in_row = if known && hits[id].height > 0 {
                my >= hits[id].y && my < hits[id].bottom()
            } else {
                true
            };
            let yes_start: u64 = row_x + q_width as u64 + 1;
            let no_start: u64 = yes_start + 6;
            let x = mx as u64;
            if !in_row {
                st
            } else if x >= yes_start && x < yes_start + 5 {
                ConfirmState { is_yes: true, result: true, clicked: true }
            } else if x >= no_start && x < no_start + 4 {
                ConfirmState { is_yes: false, result: false, clicked: true }
            } else {
                st
            }
        },
    }
}

fn yes_style_exec(t: Theme, is_yes: bool, focused: bool) -> (s: Style)
    ensures
        s == yes_style(t, is_yes, focused),
{
    proof {
        crate::style::lemma_single_flags();
    }
    if is_yes {
        if focused {
            Style::new().fg(t.bg).bg(t.success).add_modifier(BOLD)
        } else {
            Style::new().fg(t.success).add_modifier(BOLD)
        }
    } else {
        Style::new().fg(t.text_dim)
    }
}

fn no_style_exec(t: Theme, is_yes: bool, focused: bool) -> (s: Style)
    ensures
        s == no_style(t, is_yes, focused),
{
    proof {
        crate::style::lemma_single_flags();
    }
    if !is_yes {
        if focused {
            Style::new().fg(t.bg).bg(t.error).add_modifier(BOLD)
        } else {
            Style::new().fg(t.error).add_modifier(BOLD)
        }
    } else {
        Style::new().fg(t.text_dim)
    }
}

impl Context {
    /// Render a badge in the theme's primary color.
    pub fn badge(&mut self, label: &str) -> (r: Response)
        requires
            old(self).wf(),
            old(self).commands@.len() < usize::MAX,
        ensures
            final(self).wf(),
            r == no_response(),
            appended_text(*old(self), *final(self)),
            is_plain_text(final(self).commands@.last(), padded(label@), Style {
                fg: Some(Color::spec_contrast_fg(old(self).theme.primary)),
                bg: Some(old(self).theme.primary),
                modifiers: Modifiers(0),
            }),
    {
        let color = self.theme.primary;
        self.badge_colored(label, color)
    }

    /// Render a badge on a custom background with a contrasting foreground.
    pub fn badge_colored(&mut self, label: &str, color: Color) -> (r: Response)
        requires
            old(self).wf(),
            old(self).commands@.len() < usize::MAX,
        ensures
            final(self).wf(),
            r == no_response(),
            appended_text(*old(self), *final(self)),
            is_plain_text(final(self).commands@.last(), padded(label@), Style {
                fg: Some(Color::spec_contrast_fg(color)),
                bg: Some(color),
                modifiers: Modifiers(0),
            }),
    {
        let fg = Color::contrast_fg(color);
        let text = pad_label(label);
        self.styled(text.as_str(), Style::new().fg(fg).bg(color));
        Response::none()
    }

    /// Render a keyboard shortcut hint in reverse video.
    pub fn key_hint(&mut self, key: &str) -> (r: Response)
        requires
            old(self).wf(),
            old(self).commands@.len() < usize::MAX,
        ensures
            final(self).wf(),
            r == no_response(),
            appended_text(*old(self), *final(self)),
            is_plain_text(final(self).commands@.last(), padded(key@), Style {
                fg: Some(old(self).theme.text_dim),
                bg: None,
                modifiers: Modifiers(REVERSED),
            }),
    {
        let text = pad_label(key);
        let dim = self.theme.text_dim;
        let ghost n = self.commands@.len();
        self.text(text.as_str());
        self.reversed();
        self.fg(dim);
        proof {
            crate::style::lemma_single_flags();
            assert(self.commands@.drop_last() == old(self).commands@);
        }
        Response::none()
    }

    /// Render a dim label above a bold value.
    pub fn stat(&mut self, label: &str, value: &str) -> (r: Response)
        requires
            old(self).wf(),
            old(self).commands@.len() + 5 < usize::MAX,
        ensures
            final(self).wf(),
            r == no_response(),
            grew_by(*old(self), *final(self), 5),
            added(*old(self), *final(self), 0) == Command::InteractionMarker(old(self).interaction_count),
            added(*old(self), *final(self), 1) == Command::BeginContainer(plain_container(Direction::Column, 0, old(self).theme.border)),
            is_plain_text(added(*old(self), *final(self), 2), label@,
                Style { fg: Some(old(self).theme.text_dim), bg: None, modifiers: Modifiers(DIM) }),
            is_plain_text(added(*old(self), *final(self), 3), value@,
                Style { fg: Some(inherited_fg(old(self).text_color_stack@, old(self).theme.text)), bg: None, modifiers: Modifiers(BOLD) }),
            added(*old(self), *final(self), 4) == Command::EndContainer,
            *final(self) == (Context {
                commands: final(self).commands,
                interaction_count: final(self).interaction_count,
                last_text_idx: None,
                ..*old(self)
            }),
    {
        let color = self.inherited_text_fg();
        self.stat_colored_impl(label, value, color)
    }

    /// Render a dim label above a bold value in `color`.
    pub fn stat_colored(&mut self, label: &str, value: &str, color: Color) -> (r: Response)
        requires
            old(self).wf(),
            old(self).commands@.len() + 5 < usize::MAX,
        ensures
            final(self).wf(),
            r == no_response(),
            grew_by(*old(self), *final(self), 5),
            added(*old(self), *final(self), 0) == Command::InteractionMarker(old(self).interaction_count),
            added(*old(self), *final(self), 1) == Command::BeginContainer(plain_container(Direction::Column, 0, old(self).theme.border)),
            is_plain_text(added(*old(self), *final(self), 2), label@,
                Style { fg: Some(old(self).theme.text_dim), bg: None, modifiers: Modifiers(DIM) }),
            is_plain_text(added(*old(self), *final(self), 3), value@,
                Style { fg: Some(color), bg: None, modifiers: Modifiers(BOLD) }),
            added(*old(self), *final(self), 4) == Command::EndContainer,
            *final(self) == (Context {
                commands: final(self).commands,
                interaction_count: final(self).interaction_count,
                last_text_idx: None,
                ..*old(self)
            }),
    {
        self.stat_colored_impl(label, value, color)
    }

    fn stat_colored_impl(&mut self, label: &str, value: &str, color: Color) -> (r: Response)
        requires
            old(self).wf(),
            old(self).commands@.len() + 5 < usize::MAX,
        ensures
            final(self).wf(),
            r == no_response(),
            grew_by(*old(self), *final(self), 5),
            added(*old(self), *final(self), 0) == Command::InteractionMarker(old(self).interaction_count),
            added(*old(self), *final(self), 1) == Command::BeginContainer(plain_container(Direction::Column, 0, old(self).theme.border)),
            is_plain_text(added(*old(self), *final(self), 2), label@,
                Style { fg: Some(old(self).theme.text_dim), bg: None, modifiers: Modifiers(DIM) }),
            is_plain_text(added(*old(self), *final(self), 3), value@,
                Style { fg: Some(color), bg: None, modifiers: Modifiers(BOLD) }),
            added(*old(self), *final(self), 4) == Command::EndContainer,
            *final(self) == (Context {
                commands: final(self).commands,
                interaction_count: final(self).interaction_count,
                last_text_idx: None,
                ..*old(self)
            }),
    {
        let ghost n = self.commands@.len();
        let id = self.open_group(Direction::Column, 0);
        let ghost s1 = self.commands@;
        self.text(label);
        self.dim();
        let ghost s2 = self.commands@;
        proof {
            crate::style::lemma_single_flags();
            assert(s2.drop_last() == s1);
        }
        self.styled(value, Style::new().fg(color).bold());
        let ghost s3 = self.commands@;
        proof {
            crate::style::lemma_single_flags();
            assert(s3.drop_last() == s2);
        }
        let _ = self.close_group(id);
        proof {
            assert(self.commands@.drop_last() == s3);
            assert(s1 == old(self).commands@.push(Command::InteractionMarker(id)).push(
                Command::BeginContainer(plain_container(Direction::Column, 0, old(self).theme.border))));
            assert forall|k: int| 0 <= k < n implies self.commands@[k] == old(self).commands@[k] by {
                assert(self.commands@[k] == s3[k]);
                assert(s3[k] == s2[k]);
                assert(s2[k] == s1[k]);
            }
            assert(self.commands@.take(n as int) =~= old(self).commands@);
            assert(self.commands@[n as int] == s1[n as int]);
            assert(self.commands@[n as int + 1] == s1[n as int + 1]);
        }
        Response::none()
    }

    /// Yes/No confirmation row. Returns a response with `clicked` set when
    /// the question was answered this frame; `result` holds the answer.
    pub fn confirm(&mut self, question: &str, result: &mut bool) -> (r: Response)
        requires
            old(self).wf(),
            old(self).commands@.len() + 9 < usize::MAX,
        ensures
            final(self).wf(),
            ({
                let focused = old(self).next_focusable_is_focused();
                let keyed = if focused {
                    confirm_keys(old(self).events@, old(self).consumed@, old(self).events@.len() as nat,
                        ConfirmState { is_yes: *old(result), result: *old(result), clicked: false })
                } else {
                    ConfirmState { is_yes: *old(result), result: *old(result), clicked: false }
                };
                let id = old(self).interaction_count;
                let st = confirm_click(keyed, old(self).click_pos, old(self).prev_hit_map@, id as int,
                    #[verifier::truncate] (text_width(question@) as u32));
                let t = old(self).theme;
                let inh = inherited_fg(old(self).text_color_stack@, t.text);
                let m = if focused { 1int } else { 0int };
                &&& *final(result) == st.result
                &&& r == Response { focused, clicked: st.clicked, changed: st.clicked,
                    ..old(self).spec_response_for(id as int) }
                &&& forall|i: int| 0 <= i < final(self).consumed@.len() ==> #[trigger] final(self).consumed@[i]
                    == (old(self).consumed@[i] || (focused && old(self).live_press_in(i, confirm_codes())))
                &&& final(self).consumed@.len() == old(self).consumed@.len()
                &&& grew_by(*old(self), *final(self), 8 + m)
                &&& (focused ==> added(*old(self), *final(self), 0) == Command::FocusMarker(old(self).focus_count))
                &&& added(*old(self), *final(self), m) == Command::InteractionMarker(id)
                &&& added(*old(self), *final(self), m + 1) == Command::BeginContainer(plain_container(Direction::Row, 0, t.border))
                &&& is_plain_text(added(*old(self), *final(self), m + 2), question@, fg_style(inh))
                &&& is_plain_text(added(*old(self), *final(self), m + 3), seq![' '], fg_style(inh))
                &&& is_plain_text(added(*old(self), *final(self), m + 4), "[Yes]"@, yes_style(t, st.is_yes, focused))
                &&& is_plain_text(added(*old(self), *final(self), m + 5), seq![' '], fg_style(inh))
                &&& is_plain_text(added(*old(self), *final(self), m + 6), "[No]"@, no_style(t, st.is_yes, focused))
                &&& added(*old(self), *final(self), m + 7) == Command::EndContainer
                &&& *final(self) == (Context {
                    commands: final(self).commands,
                    consumed: final(self).consumed,
                    interaction_count: final(self).interaction_count,
                    focus_count: final(self).focus_count,
                    last_text_idx: None,
                    ..*old(self)
                })
            }),
    {
        let ghost n = self.commands@.len();
        let focused = self.register_focusable();
        let ghost after_focus = *self;
        let mut st = ConfirmState { is_yes: *result, result: *result, clicked: false };
        if focused {
            st = self.confirm_handle_keys(st);
        }
        let ghost after_keys = *self;
        let q_width = #[verifier::truncate] (str_width(question) as u32);
        let id = self.interaction_count;
        st = confirm_hit(st, self.click_pos, &self.prev_hit_map, id, q_width);
        *result = st.result;
        let t = self.theme;
        let ys = yes_style_exec(t, st.is_yes, focused);
        let ns = no_style_exec(t, st.is_yes, focused);
        let gid = self.open_group(Direction::Row, 0);
        let ghost s1 = self.commands@;
        self.text(question);
        let ghost s2 = self.commands@;
        self.text(" ");
        let ghost s3 = self.commands@;
        self.styled("[Yes]", ys);
        let ghost s4 = self.commands@;
        self.text(" ");
        let ghost s5 = self.commands@;
        self.styled("[No]", ns);
        let ghost s6 = self.commands@;
        let resp = self.close_group(gid);
        proof {
            reveal_strlit(" ");
            assert(" "@ =~= seq![' ']);
            assert(s2.drop_last() == s1);
            assert(s3.drop_last() == s2);
            assert(s4.drop_last() == s3);
            assert(s5.drop_last() == s4);
            assert(s6.drop_last() == s5);
            assert(self.commands@.drop_last() == s6);
            let m = if focused { 1int } else { 0int };
            assert forall|k: int| 0 <= k < n + m + 2 implies self.commands@[k] == s1[k] by {
                assert(self.commands@[k] == s6[k]);
                assert(s6[k] == s5[k]);
                assert(s5[k] == s4[k]);
                assert(s4[k] == s3[k]);
                assert(s3[k] == s2[k]);
                assert(s2[k] == s1[k]);
            }
            assert forall|k: int| 0 <= k < n implies self.commands@[k] == old(self).commands@[k] by {
                assert(s1[k] == after_focus.commands@[k]);
            }
            assert(self.commands@.take(n as int) =~= old(self).commands@);
            assert(s1[n + m] == Command::InteractionMarker(id));
            assert(s1[n + m + 1] == Command::BeginContainer(plain_container(Direction::Row, 0, t.border)));
            if focused {
                assert(s1[n as int] == Command::FocusMarker(old(self).focus_count));
            }
        }
        Response { focused, clicked: st.clicked, changed: st.clicked, ..resp }
    }

    fn confirm_handle_keys(&mut self, init: ConfirmState) -> (st: ConfirmState)
        requires
            old(self).wf(),
        ensures
            final(self).wf(),
            st == confirm_keys(old(self).events@, old(self).consumed@, old(self).events@.len() as nat, init),
            forall|i: int| 0 <= i < final(self).consumed@.len() ==> #[trigger] final(self).consumed@[i]
                == (old(self).consumed@[i] || old(self).live_press_in(i, confirm_codes())),
            final(self).consumed@.len() == old(self).consumed@.len(),
            *final(self) == (Context { consumed: final(self).consumed, ..*old(self) }),
    {
        let n = self.events.len();
        let mut st = init;
        let mut i: usize = 0;
        while i < n
            invariant
                n == self.events@.len(),
                i <= n,
                self.wf(),
                self.consumed@.len() == n,
                *self == (Context { consumed: self.consumed, ..*old(self) }),
                st == confirm_keys(old(self).events@, old(self).consumed@, i as nat, init),
                forall|j: int| 0 <= j < n ==> #[trigger] self.consumed@[j] == (old(self).consumed@[j]
                    || (j < i && old(self).live_press_in(j, confirm_codes()))),
            decreases n - i,
        {
            if !self.consumed[i] {
                match &self.events[i] {
                    Event::Key(k) => {
                        if k.kind == KeyEventKind::Press {
                            let handled = confirm_handles(k.code);
                            st = confirm_step(st, k.code);
                            if handled {
                                self.consumed.set(i, true);
                            }
                        }
                    },
                    _ => {},
                }
            }
            i = i + 1;
        }
        st
    }
}

/// Direction of a stat's change.
#[derive(Debug, Clone, Copy, PartialEq, Eq, Structural)]
pub enum Trend {
    Up,
    Down,
}

/// Severity of an alert banner.
#[derive(Debug, Clone, Copy, PartialEq, Eq, Structural)]
pub enum AlertLevel {
    Info,
    Success,
    Warning,
    Error,
}

/// Columns a divider's rule takes on each side of its label: the width
/// left after the label and one space around it, split evenly, the right
/// side taking the odd cell.
pub open spec fn divider_sides(width: u32, label_width: u32) -> (nat, nat) {
    let total: nat = if width >= label_width + 2 { (width - label_width - 2) as nat } else { 0 };
    let left = total / 2;
    (left, (total - left) as nat)
}

/// Arrow and color of a trend.
pub open spec fn trend_mark(t: Trend, theme: Theme) -> (Seq<char>, Color) {
    match t {
        Trend::Up => (seq![' ', '↑'], theme.success),
        Trend::Down => (seq![' ', '↓'], theme.error),
    }
}

/// Icon (padded with a space on each side) and color of an alert level.
pub open spec fn alert_mark(l: AlertLevel, theme: Theme) -> (Seq<char>, Color) {
    match l {
        AlertLevel::Info => (seq![' ', 'ℹ', ' '], theme.accent),
        AlertLevel::Success => (seq![' ', '✓', ' '], theme.success),
        AlertLevel::Warning => (seq![' ', '⚠', ' '], theme.warning),
        AlertLevel::Error => (seq![' ', '✕', ' '], theme.error),
    }
}

/// The keys that dismiss a focused alert.
pub open spec fn dismiss_codes() -> Seq<KeyCode> {
    seq![KeyCode::Enter, KeyCode::Char('x')]
}

fn trend_mark_exec(t: Trend, theme: Theme) -> (r: (&'static str, Color))
    ensures
        r.0@ == trend_mark(t, theme).0,
        r.1 == trend_mark(t, theme).1,
{
    proof {
        reveal_strlit(" ↑");
        reveal_strlit(" ↓");
    }
    match t {
        Trend::Up => (" ↑", theme.success),
        Trend::Down => (" ↓", theme.error),
    }
}

fn alert_mark_exec(l: AlertLevel, theme: Theme) -> (r: (&'static str, Color))
    ensures
        r.0@ == alert_mark(l, theme).0,
        r.1 == alert_mark(l, theme).1,
{
    proof {
        reveal_strlit(" ℹ ");
        reveal_strlit(" ✓ ");
        reveal_strlit(" ⚠ ");
        reveal_strlit(" ✕ ");
    }
    match l {
        AlertLevel::Info => (" ℹ ", theme.accent),
        AlertLevel::Success => (" ✓ ", theme.success),
        AlertLevel::Warning => (" ⚠ ", theme.warning),
        AlertLevel::Error => (" ✕ ", theme.error),
    }
}

impl Context {
    /// A horizontal rule with `label` centered in it.
    pub fn divider_text(&mut self, label: &str) -> (r: Response)
        requires
            old(self).wf(),
            old(self).commands@.len() + 6 < usize::MAX,
            (#[verifier::truncate] (text_width(label@) as u32)) + 2 <= u32::MAX,
        ensures
            final(self).wf(),
            r == no_response(),
            ({
                let t = old(self).theme;
                let sides = divider_sides(old(self).area_width, #[verifier::truncate] (text_width(label@) as u32));
                &&& grew_by(*old(self), *final(self), 6)
                &&& added(*old(self), *final(self), 0) == Command::InteractionMarker(old(self).interaction_count)
                &&& added(*old(self), *final(self), 1) == Command::BeginContainer(plain_container(Direction::Row, 0, t.border))
                &&& is_plain_text(added(*old(self), *final(self), 2), repeat(seq!['─'], sides.0), fg_style(t.border))
                &&& is_plain_text(added(*old(self), *final(self), 3), padded(label@), fg_style(t.text))
                &&& is_plain_text(added(*old(self), *final(self), 4), repeat(seq!['─'], sides.1), fg_style(t.border))
                &&& added(*old(self), *final(self), 5) == Command::EndContainer
            }),
            *final(self) == (Context {
                commands: final(self).commands,
                interaction_count: final(self).interaction_count,
                last_text_idx: None,
                ..*old(self)
            }),
    {
        let w = self.width();
        let label_len = #[verifier::truncate] (str_width(label) as u32);
        let total = w.saturating_sub(label_len + 2);
        let left_len = total / 2;
        let right_len = total - left_len;
        let left = repeat_str("─", left_len as usize);
        let right = repeat_str("─", right_len as usize);
        let label_text = pad_label(label);
        let t = self.theme;
        proof {
            reveal_strlit("─");
            assert("─"@ =~= seq!['─']);
        }
        let ghost n = self.commands@.len();
        let id = self.open_group(Direction::Row, 0);
        let ghost s1 = self.commands@;
        self.styled(left.as_str(), Style::new().fg(t.border));
        let ghost s2 = self.commands@;
        self.styled(label_text.as_str(), Style::new().fg(t.text));
        let ghost s3 = self.commands@;
        self.styled(right.as_str(), Style::new().fg(t.border));
        let ghost s4 = self.commands@;
        let _ = self.close_group(id);
        proof {
            assert(s2.drop_last() == s1);
            assert(s3.drop_last() == s2);
            assert(s4.drop_last() == s3);
            assert(self.commands@.drop_last() == s4);
            assert forall|k: int| 0 <= k < n + 2 implies self.commands@[k] == s1[k] by {
                assert(self.commands@[k] == s4[k]);
                assert(s4[k] == s3[k]);
                assert(s3[k] == s2[k]);
                assert(s2[k] == s1[k]);
            }
            assert(s1 == old(self).commands@.push(Command::InteractionMarker(id)).push(
                Command::BeginContainer(plain_container(Direction::Row, 0, t.border))));
            assert forall|k: int| 0 <= k < n implies self.commands@[k] == old(self).commands@[k] by {
                assert(self.commands@[k] == s1[k]);
            }
            assert(self.commands@[n as int] == s1[n as int]);
            assert(self.commands@[n as int + 1] == s1[n as int + 1]);
            assert(self.commands@.take(n as int) =~= old(self).commands@);
        }
        Response::none()
    }

    /// [`divider_text`](Self::divider_text) where the label's width leaves
    /// room for its padding in a `u32`; `None`, drawing nothing, otherwise.
    pub fn divider_text_checked(&mut self, label: &str) -> (r: Option<Response>)
        requires
            old(self).wf(),
            old(self).commands@.len() + 6 < usize::MAX,
        ensures
            final(self).wf(),
            r is None <==> (#[verifier::truncate] (text_width(label@) as u32)) + 2 > u32::MAX,
            r is None ==> *final(self) == *old(self),
            r matches Some(resp) ==> resp == no_response() && grew_by(*old(self), *final(self), 6),
    {
        let w = #[verifier::truncate] (str_width(label) as u32);
        if w > u32::MAX - 2 {
            return None;
        }
        Some(self.divider_text(label))
    }

    /// A dim label above a bold value followed by a trend arrow.
    pub fn stat_trend(&mut self, label: &str, value: &str, trend: Trend) -> (r: Response)
        requires
            old(self).wf(),
            old(self).commands@.len() + 9 < usize::MAX,
        ensures
            final(self).wf(),
            r == no_response(),
            ({
                let t = old(self).theme;
                let id = old(self).interaction_count;
                let inh = inherited_fg(old(self).text_color_stack@, t.text);
                &&& grew_by(*old(self), *final(self), 9)
                &&& added(*old(self), *final(self), 0) == Command::InteractionMarker(id)
                &&& added(*old(self), *final(self), 1) == Command::BeginContainer(plain_container(Direction::Column, 0, t.border))
                &&& is_plain_text(added(*old(self), *final(self), 2), label@,
                    Style { fg: Some(t.text_dim), bg: None, modifiers: Modifiers(DIM) })
                &&& added(*old(self), *final(self), 3) == Command::InteractionMarker(sat_inc(id))
                &&& added(*old(self), *final(self), 4) == Command::BeginContainer(plain_container(Direction::Row, 0, t.border))
                &&& is_plain_text(added(*old(self), *final(self), 5), value@,
                    Style { fg: Some(inh), bg: None, modifiers: Modifiers(BOLD) })
                &&& is_plain_text(added(*old(self), *final(self), 6), trend_mark(trend, t).0, fg_style(trend_mark(trend, t).1))
                &&& added(*old(self), *final(self), 7) == Command::EndContainer
                &&& added(*old(self), *final(self), 8) == Command::EndContainer
            }),
            *final(self) == (Context {
                commands: final(self).commands,
                interaction_count: final(self).interaction_count,
                last_text_idx: None,
                ..*old(self)
            }),
    {
        let t = self.theme;
        let inh = self.inherited_text_fg();
        let (arrow, color) = trend_mark_exec(trend, t);
        let ghost n = self.commands@.len();
        let col = self.open_group(Direction::Column, 0);
        let ghost s1 = self.commands@;
        self.styled(label, Style::new().fg(t.text_dim).dim());
        let ghost s2 = self.commands@;
        let row = self.open_group(Direction::Row, 0);
        let ghost s3 = self.commands@;
        self.styled(value, Style::new().fg(inh).bold());
        let ghost s4 = self.commands@;
        self.styled(arrow, Style::new().fg(color));
        let ghost s5 = self.commands@;
        let _ = self.close_group(row);
        let ghost s6 = self.commands@;
        let _ = self.close_group(col);
        proof {
            crate::style::lemma_single_flags();
            assert(s2.drop_last() == s1);
            assert(s4.drop_last() == s3);
            assert(s5.drop_last() == s4);
            assert(s6.drop_last() == s5);
            assert(self.commands@.drop_last() == s6);
            assert forall|k: int| 0 <= k < n + 5 implies self.commands@[k] == s3[k] by {
                assert(self.commands@[k] == s6[k]);
                assert(s6[k] == s5[k]);
                assert(s5[k] == s4[k]);
                assert(s4[k] == s3[k]);
            }
            assert(s3 == s2.push(Command::InteractionMarker(row)).push(
                Command::BeginContainer(plain_container(Direction::Row, 0, t.border))));
            assert forall|k: int| 0 <= k < n + 3 implies s3[k] == s2[k] by {}
            assert forall|k: int| 0 <= k < n + 2 implies s2[k] == s1[k] by {}
            assert(s1 == old(self).commands@.push(Command::InteractionMarker(col)).push(
                Command::BeginContainer(plain_container(Direction::Column, 0, t.border))));
            assert forall|k: int| 0 <= k < n implies self.commands@[k] == old(self).commands@[k] by {
                assert(self.commands@[k] == s1[k]);
            }
            assert(self.commands@[n as int] == s1[n as int]);
            assert(self.commands@[n as int + 1] == s1[n as int + 1]);
            assert(self.commands@[n as int + 3] == s3[n as int + 3]);
            assert(self.commands@[n as int + 4] == s3[n as int + 4]);
            assert(self.commands@.take(n as int) =~= old(self).commands@);
        }
        Response::none()
    }

    /// Open the centered column of an empty-state placeholder and draw its
    /// title and dimmed description; the column stays open.
    fn open_empty_state(&mut self, title: &str, description: &str)
        requires
            old(self).wf(),
            old(self).commands@.len() + 4 < usize::MAX,
        ensures
            final(self).wf(),
            ({
                let t = old(self).theme;
                let inh = inherited_fg(old(self).text_color_stack@, t.text);
                &&& grew_by(*old(self), *final(self), 4)
                &&& added(*old(self), *final(self), 0) == Command::InteractionMarker(old(self).interaction_count)
                &&& added(*old(self), *final(self), 1) == Command::BeginContainer(centered_column(t.border))
                &&& centered_text(added(*old(self), *final(self), 2), title@, fg_style(inh))
                &&& centered_text(added(*old(self), *final(self), 3), description@,
                    Style { fg: Some(t.text_dim), bg: None, modifiers: Modifiers(DIM) })
            }),
            *final(self) == (Context {
                commands: final(self).commands,
                interaction_count: sat_inc_usize(old(self).interaction_count),
                last_text_idx: final(self).last_text_idx,
                ..*old(self)
            }),
    {
        let t = self.theme;
        let inh = self.inherited_text_fg();
        let ghost n = self.commands@.len();
        let id = self.next_interaction_id();
        let args = centered_column_args(t.border);
        self.begin_container(args);
        let ghost s1 = self.commands@;
        self.styled(title, Style::new().fg(inh));
        self.align(Align::Center);
        let ghost s2 = self.commands@;
        self.styled(description, Style::new().fg(t.text_dim).dim());
        self.align(Align::Center);
        let ghost s3 = self.commands@;
        proof {
            crate::style::lemma_single_flags();
            assert(s2.drop_last() == s1);
            assert(s3.drop_last() == s2);
            assert forall|k: int| 0 <= k < n + 2 implies s3[k] == s1[k] by {
                assert(s3[k] == s2[k]);
                assert(s2[k] == s1[k]);
            }
            assert forall|k: int| 0 <= k < n implies s3[k] == old(self).commands@[k] by {
                assert(s3[k] == s1[k]);
            }
            assert(s3[n as int] == s1[n as int]);
            assert(s3[n as int + 1] == s1[n as int + 1]);
            assert(s3.take(n as int) =~= old(self).commands@);
        }
    }

    /// A centered placeholder: `title`, and `description` dimmed below it.
    pub fn empty_state(&mut self, title: &str, description: &str) -> (r: Response)
        requires
            old(self).wf(),
            old(self).commands@.len() + 5 < usize::MAX,
        ensures
            final(self).wf(),
            r == no_response(),
            ({
                let t = old(self).theme;
                let inh = inherited_fg(old(self).text_color_stack@, t.text);
                &&& grew_by(*old(self), *final(self), 5)
                &&& added(*old(self), *final(self), 0) == Command::InteractionMarker(old(self).interaction_count)
                &&& added(*old(self), *final(self), 1) == Command::BeginContainer(centered_column(t.border))
                &&& centered_text(added(*old(self), *final(self), 2), title@, fg_style(inh))
                &&& centered_text(added(*old(self), *final(self), 3), description@,
                    Style { fg: Some(t.text_dim), bg: None, modifiers: Modifiers(DIM) })
                &&& added(*old(self), *final(self), 4) == Command::EndContainer
            }),
            *final(self) == (Context {
                commands: final(self).commands,
                interaction_count: final(self).interaction_count,
                last_text_idx: None,
                ..*old(self)
            }),
    {
        self.open_empty_state(title, description);
        let ghost opened = self.commands@;
        self.end_container();
        proof {
            let n = old(self).commands@.len() as int;
            assert forall|k: int| 0 <= k < n + 4 implies self.commands@[k] == opened[k] by {
                assert(self.commands@.drop_last()[k] == self.commands@[k]);
            }
            assert(self.commands@.take(n) =~= old(self).commands@) by {
                assert forall|k: int| 0 <= k < n implies self.commands@[k] == old(self).commands@[k] by {
                    assert(opened.take(n)[k] == opened[k]);
                }
            }
        }
        Response::none()
    }
}

impl Context {
    /// An empty-state placeholder with an action button below the text; the
    /// response is clicked (and changed) when the button was activated.
    #[verifier::rlimit(100)]
    #[verifier::spinoff_prover]
    pub fn empty_state_action(&mut self, title: &str, description: &str, action_label: &str) -> (r: Response)
        requires
            old(self).wf(),
            old(self).commands@.len() + 11 < usize::MAX,
        ensures
            final(self).wf(),
            ({
                let t = old(self).theme;
                let n = old(self).commands@.len() as int;
                let c = final(self).commands@;
                let inh = inherited_fg(old(self).text_color_stack@, t.text);
                let colors = WidgetColors { fg: None, bg: None, border: None, accent: None };
                let focused = old(self).next_focusable_is_focused();
                let base = old(self).spec_response_for(sat_inc_usize(old(self).interaction_count) as int);
                let keys = !base.clicked && focused;
                let clicked = base.clicked || (keys && activation_pending(*old(self)));
                let m = if focused { 1int } else { 0int };
                &&& r == Response { clicked, changed: clicked, ..no_response() }
                &&& final(self).consumed@.len() == old(self).consumed@.len()
                &&& forall|i: int| 0 <= i < final(self).consumed@.len() ==> #[trigger] final(self).consumed@[i]
                    == (old(self).consumed@[i] || (keys && old(self).live_press_in(i, activation_codes())))
                &&& c.len() == n + m + 9
                &&& c.take(n) == old(self).commands@
                &&& c[n] == Command::InteractionMarker(old(self).interaction_count)
                &&& c[n + 1] == Command::BeginContainer(centered_column(t.border))
                &&& centered_text(c[n + 2], title@, fg_style(inh))
                &&& centered_text(c[n + 3], description@, Style { fg: Some(t.text_dim), bg: None, modifiers: Modifiers(DIM) })
                &&& (focused ==> c[n + 4] == Command::FocusMarker(old(self).focus_count))
                &&& c[n + m + 4] == Command::InteractionMarker(sat_inc_usize(old(self).interaction_count))
                &&& c[n + m + 5] == Command::BeginContainer(control_row(0, button_bg(t, colors, focused, base.hovered), t.border))
                &&& is_plain_text(c[n + m + 6], bracketed(action_label@), button_style(t, colors, focused, base.hovered))
                &&& c[n + m + 7] == Command::EndContainer
                &&& c[n + m + 8] == Command::EndContainer
                &&& *final(self) == (Context {
                    commands: final(self).commands,
                    consumed: final(self).consumed,
                    focus_count: sat_inc_usize(old(self).focus_count),
                    interaction_count: sat_inc_usize(sat_inc_usize(old(self).interaction_count)),
                    last_text_idx: None,
                    ..*old(self)
                })
            }),
    {
        self.open_empty_state(title, description);
        let ghost opened = *self;
        let b = self.button(action_label);
        let ghost pressed = self.commands@;
        self.end_container();
        proof {
            let n = old(self).commands@.len() as int;
            let c = self.commands@;
            let m = if opened.next_focusable_is_focused() { 1int } else { 0int };
            assert(forall|i: int| #[trigger] opened.live_press_in(i, activation_codes())
                == old(self).live_press_in(i, activation_codes()));
            if activation_pending(opened) {
                let w = choose|i: int| opened.live_press_in(i, activation_codes());
                assert(old(self).live_press_in(w, activation_codes()));
            }
            if activation_pending(*old(self)) {
                let w = choose|i: int| old(self).live_press_in(i, activation_codes());
                assert(opened.live_press_in(w, activation_codes()));
            }
            assert forall|k: int| 0 <= k < n + m + 8 implies c[k] == pressed[k] by {
                assert(c.drop_last()[k] == c[k]);
            }
            assert forall|k: int| 0 <= k < n + 4 implies pressed[k] == opened.commands@[k] by {
                assert(pressed.take(n + 4)[k] == pressed[k]);
            }
            assert(c.take(n) =~= old(self).commands@) by {
                assert forall|k: int| 0 <= k < n implies c[k] == old(self).commands@[k] by {
                    assert(opened.commands@.take(n)[k] == opened.commands@[k]);
                }
            }
        }
        let clicked = b.clicked;
        Response { clicked, changed: clicked, ..Response::none() }
    }
}

/// A text command like [`is_plain_text`], with flex-grow `g`.
pub open spec fn grown_text(c: Command, content: Seq<char>, style: Style, g: u16) -> bool {
    c matches Command::Text { content: t, cursor_offset, cursor_masked, style: s, grow, align, wrap, truncate, margin, constraints }
        && t@ == content && cursor_offset is None && !cursor_masked && s == style && grow == g
        && align == Align::Start && !wrap && !truncate && margin == no_margin() && constraints == open_constraints()
}

impl Context {
    /// An alert banner: a colored icon, the message, and a dismiss mark.
    /// When focused, Enter or `x` dismisses it (reported as a click).
    #[verifier::rlimit(100)]
    #[verifier::spinoff_prover]
    pub fn alert(&mut self, message: &str, level: AlertLevel) -> (r: Response)
        requires
            old(self).wf(),
            old(self).commands@.len() + 10 < usize::MAX,
        ensures
            final(self).wf(),
            ({
                let t = old(self).theme;
                let focused = old(self).next_focusable_is_focused();
                let dismissed = focused && exists|i: int| old(self).live_press_in(i, dismiss_codes());
                let id = old(self).interaction_count;
                let inh = inherited_fg(old(self).text_color_stack@, t.text);
                let mark = alert_mark(level, t);
                let m = if focused { 1int } else { 0int };
                let base = old(self).spec_response_for(id as int);
                &&& r == Response { focused, clicked: base.clicked || dismissed, ..base }
                &&& forall|i: int| 0 <= i < final(self).consumed@.len() ==> #[trigger] final(self).consumed@[i]
                    == (old(self).consumed@[i] || (focused && old(self).live_press_in(i, dismiss_codes())))
                &&& final(self).consumed@.len() == old(self).consumed@.len()
                &&& grew_by(*old(self), *final(self), 9 + m)
                &&& (focused ==> added(*old(self), *final(self), 0) == Command::FocusMarker(old(self).focus_count))
                &&& added(*old(self), *final(self), m) == Command::InteractionMarker(id)
                &&& added(*old(self), *final(self), m + 1) == Command::BeginContainer(plain_container(Direction::Column, 0, t.border))
                &&& added(*old(self), *final(self), m + 2) == Command::InteractionMarker(sat_inc(id))
                &&& added(*old(self), *final(self), m + 3) == Command::BeginContainer(plain_container(Direction::Row, 0, t.border))
                &&& is_plain_text(added(*old(self), *final(self), m + 4), mark.0,
                    Style { fg: Some(mark.1), bg: None, modifiers: Modifiers(BOLD) })
                &&& grown_text(added(*old(self), *final(self), m + 5), message@, fg_style(inh), 1)
                &&& is_plain_text(added(*old(self), *final(self), m + 6), seq![' ', '[', '×', ']', ' '],
                    Style { fg: Some(t.text_dim), bg: None, modifiers: Modifiers(DIM) })
                &&& added(*old(self), *final(self), m + 7) == Command::EndContainer
                &&& added(*old(self), *final(self), m + 8) == Command::EndContainer
            }),
            *final(self) == (Context {
                commands: final(self).commands,
                consumed: final(self).consumed,
                interaction_count: final(self).interaction_count,
                focus_count: final(self).focus_count,
                last_text_idx: None,
                ..*old(self)
            }),
    {
        let t = self.theme;
        let (icon, color) = alert_mark_exec(level, t);
        let ghost n = self.commands@.len();
        let focused = self.register_focusable();
        let ghost after_focus = *self;
        proof {
            assert forall|i: int| #[trigger] after_focus.live_press_in(i, dismiss_codes())
                == old(self).live_press_in(i, dismiss_codes()) by {}
        }
        let dismissed = self.claim_pair(focused, KeyCode::Enter, KeyCode::Char('x'));
        proof {
            assert(dismiss_codes() == seq![KeyCode::Enter, KeyCode::Char('x')]);
            if dismissed {
                let w = choose|i: int| after_focus.live_press_in(i, seq![KeyCode::Enter, KeyCode::Char('x')]);
                assert(old(self).live_press_in(w, dismiss_codes()));
            }
            if focused && exists|i: int| old(self).live_press_in(i, dismiss_codes()) {
                let w = choose|i: int| old(self).live_press_in(i, dismiss_codes());
                assert(after_focus.live_press_in(w, seq![KeyCode::Enter, KeyCode::Char('x')]));
            }
            assert(dismissed == (focused && exists|i: int| old(self).live_press_in(i, dismiss_codes())));
        }
        let inh = self.inherited_text_fg();
        let col = self.open_group(Direction::Column, 0);
        let ghost s1 = self.commands@;
        let row = self.open_group(Direction::Row, 0);
        let ghost s2 = self.commands@;
        self.styled(icon, Style::new().fg(color).bold());
        let ghost s3 = self.commands@;
        self.styled(message, Style::new().fg(inh));
        self.grow(1);
        let ghost s4 = self.commands@;
        self.styled(" [×] ", Style::new().fg(t.text_dim).dim());
        let ghost s5 = self.commands@;
        let _ = self.close_group(row);
        let ghost s6 = self.commands@;
        let resp = self.close_group(col);
        proof {
            reveal_strlit(" [×] ");
            assert(" [×] "@ =~= seq![' ', '[', '×', ']', ' ']);
            crate::style::lemma_single_flags();
            let m = if focused { 1int } else { 0int };
            assert(s3.drop_last() == s2);
            assert(s4.drop_last() == s3);
            assert(s5.drop_last() == s4);
            assert(s6.drop_last() == s5);
            assert(self.commands@.drop_last() == s6);
            assert(s2 == s1.push(Command::InteractionMarker(row)).push(
                Command::BeginContainer(plain_container(Direction::Row, 0, t.border))));
            assert forall|k: int| 0 <= k < n + m + 4 implies self.commands@[k] == s2[k] by {
                assert(self.commands@[k] == s6[k]);
                assert(s6[k] == s5[k]);
                assert(s5[k] == s4[k]);
                assert(s4[k] == s3[k]);
                assert(s3[k] == s2[k]);
            }
            assert forall|k: int| 0 <= k < n + m + 2 implies s2[k] == s1[k] by {}
            assert forall|k: int| 0 <= k < n implies self.commands@[k] == old(self).commands@[k] by {
                assert(self.commands@[k] == s2[k]);
                assert(s2[k] == s1[k]);
            }
            assert(self.commands@.take(n as int) =~= old(self).commands@);
            assert(self.commands@[n + m] == s1[n + m]);
            assert(self.commands@[n + m + 1] == s1[n + m + 1]);
            assert(self.commands@[n + m + 2] == s2[n + m + 2]);
            assert(self.commands@[n + m + 3] == s2[n + m + 3]);
            if focused {
                assert(self.commands@[n as int] == s1[n as int]);
            }
        }
        Response { focused, clicked: resp.clicked || dismissed, ..resp }
    }
}

/// A column that centers its content on both axes.
pub open spec fn centered_column(border_color: Color) -> ContainerArgs {
    ContainerArgs { align: Align::Center, justify: Justify::Center, ..plain_container(Direction::Column, 0, border_color) }
}

fn centered_column_args(border_color: Color) -> (r: ContainerArgs)
    ensures
        r == centered_column(border_color),
{
    ContainerArgs { align: Align::Center, justify: Justify::Center, ..plain_container_args(Direction::Column, 0, border_color) }
}

/// A plain text command, but centered.
pub open spec fn centered_text(c: Command, content: Seq<char>, style: Style) -> bool {
    c matches Command::Text { content: t, cursor_offset, cursor_masked, style: s, grow, align, wrap, truncate, margin, constraints }
        && t@ == content && cursor_offset is None && !cursor_masked && s == style && grow == 0
        && align == Align::Center && !wrap && !truncate && margin == no_margin() && constraints == open_constraints()
}

/// A divider's rule fills the row: both sides, the label and its two
/// spaces add up to the width, and the right side is the longer by at
/// most one cell.
pub proof fn lemma_divider_fills_row(width: u32, label_width: u32)
    requires
        label_width + 2 <= width,
    ensures
        divider_sides(width, label_width).0 + divider_sides(width, label_width).1 + label_width + 2 == width,
        divider_sides(width, label_width).1 == divider_sides(width, label_width).0
            || divider_sides(width, label_width).1 == divider_sides(width, label_width).0 + 1,
{
}

/// While the confirmation row handles keys, the answer written back always
/// matches the highlighted button.
pub proof fn lemma_confirm_answer_tracks_highlight(events: Seq<Event>, consumed: Seq<bool>, n: nat, init: ConfirmState)
    requires
        n <= events.len(),
        n <= consumed.len(),
        init.result == init.is_yes,
    ensures
        confirm_keys(events, consumed, n, init).result == confirm_keys(events, consumed, n, init).is_yes,
    decreases n,
{
    if n > 0 {
        lemma_confirm_answer_tracks_highlight(events, consumed, (n - 1) as nat, init);
    }
}

/// A click on the row keeps the answer matching the highlighted button.
pub proof fn lemma_confirm_click_tracks_highlight(st: ConfirmState, click: Option<(u32, u32)>, hits: Seq<Rect>, id: int, q_width: u32)
    requires
        st.result == st.is_yes,
    ensures
        confirm_click(st, click, hits, id, q_width).result == confirm_click(st, click, hits, id, q_width).is_yes,
{
}


/// The widest display width among the keys of `items`; 0 when empty.
pub open spec fn widest_key(items: Seq<(&str, &str)>) -> nat
    decreases items.len(),
{
    if items.len() == 0 {
        0
    } else {
        let w = text_width(items.last().0@);
        let m = widest_key(items.drop_last());
        if w > m { w } else { m }
    }
}

/// `key` right-aligned in a column `width` cells wide.
pub open spec fn right_aligned(key: Seq<char>, width: nat) -> Seq<char> {
    repeat(seq![' '], (width - text_width(key)) as nat) + key
}

/// Interaction slot `k` after `start`, counting up until the counter is full.
pub open spec fn slot_after(start: usize, k: int) -> usize {
    if start + k < usize::MAX { (start + k) as usize } else { usize::MAX }
}

/// `c[at..at + 6]` is one definition row: the key right-aligned and dimmed,
/// two spaces, then the value.
pub open spec fn is_definition_row(c: Seq<Command>, at: int, id: usize, key: Seq<char>, value: Seq<char>,
    t: Theme, inh: Color) -> bool {
    &&& c[at] == Command::InteractionMarker(id)
    &&& c[at + 1] == Command::BeginContainer(plain_container(Direction::Row, 0, t.border))
    &&& is_plain_text(c[at + 2], key, with_mods(fg_style(t.text_dim), DIM))
    &&& is_plain_text(c[at + 3], seq![' ', ' '], fg_style(inh))
    &&& is_plain_text(c[at + 4], value, fg_style(inh))
    &&& c[at + 5] == Command::EndContainer
}

fn widest_key_exec(items: &[(&str, &str)]) -> (r: usize)
    ensures
        r == widest_key(items@),
{
    let mut m: usize = 0;
    let mut i: usize = 0;
    while i < items.len()
        invariant
            i <= items@.len(),
            m == widest_key(items@.take(i as int)),
        decreases items@.len() - i,
    {
        proof {
            assert(items@.take(i + 1).drop_last() == items@.take(i as int));
        }
        let w = str_width(items[i].0);
        if w > m {
            m = w;
        }
        i = i + 1;
    }
    proof {
        assert(items@.take(items@.len() as int) == items@);
    }
    m
}

fn right_align(key: &str, width: usize) -> (r: String)
    requires
        text_width(key@) <= width,
    ensures
        r@ == right_aligned(key@, width as nat),
{
    let pad = width - str_width(key);
    proof {
        reveal_strlit(" ");
        assert(" "@ =~= seq![' ']);
    }
    let mut out = repeat_str(" ", pad);
    out.append(key);
    out
}

impl Context {
    /// Key/value pairs in two columns: keys right-aligned to the widest key
    /// and dimmed, two spaces, then the value.
    pub fn definition_list(&mut self, items: &[(&str, &str)]) -> (r: Response)
        requires
            old(self).wf(),
            old(self).commands@.len() + 3 + 6 * items@.len() < usize::MAX,
        ensures
            final(self).wf(),
            r == no_response(),
            ({
                let n = old(self).commands@.len() as int;
                let t = old(self).theme;
                let w = widest_key(items@);
                let inh = inherited_fg(old(self).text_color_stack@, t.text);
                let c = final(self).commands@;
                &&& grew_by(*old(self), *final(self), 3 + 6 * items@.len() as int)
                &&& c[n] == Command::InteractionMarker(old(self).interaction_count)
                &&& c[n + 1] == Command::BeginContainer(plain_container(Direction::Column, 0, t.border))
                &&& forall|k: int| 0 <= k < items@.len() ==> is_definition_row(c, n + 2 + 6 * k,
                    slot_after(old(self).interaction_count, 1 + k),
                    right_aligned((#[trigger] items@[k]).0@, w), items@[k].1@, t, inh)
                &&& c[n + 2 + 6 * items@.len()] == Command::EndContainer
                &&& final(self).interaction_count == slot_after(old(self).interaction_count, 1 + items@.len() as int)
            }),
            *final(self) == (Context {
                commands: final(self).commands,
                interaction_count: final(self).interaction_count,
                last_text_idx: None,
                ..*old(self)
            }),
    {
        let w = widest_key_exec(items);
        let t = self.theme;
        let key_style = Style::new().fg(t.text_dim).dim();
        proof {
            reveal_strlit("  ");
            assert("  "@ =~= seq![' ', ' ']);
        }
        let ghost n = self.commands@.len() as int;
        let ghost inh = inherited_fg(self.text_color_stack@, t.text);
        let outer = self.open_group(Direction::Column, 0);
        let mut i: usize = 0;
        while i < items.len()
            invariant
                self.wf(),
                i <= items@.len(),
                n == old(self).commands@.len(),
                n + 3 + 6 * items@.len() < usize::MAX,
                w == widest_key(items@),
                t == old(self).theme,
                key_style == with_mods(fg_style(t.text_dim), DIM),
                inh == inherited_fg(old(self).text_color_stack@, t.text),
                "  "@ == seq![' ', ' '],
                self.commands@.len() == n + 2 + 6 * i,
                self.commands@.take(n) == old(self).commands@,
                self.commands@[n] == Command::InteractionMarker(old(self).interaction_count),
                self.commands@[n + 1] == Command::BeginContainer(plain_container(Direction::Column, 0, t.border)),
                forall|k: int| 0 <= k < i ==> is_definition_row(self.commands@, n + 2 + 6 * k,
                    slot_after(old(self).interaction_count, 1 + k),
                    right_aligned((#[trigger] items@[k]).0@, w as nat), items@[k].1@, t, inh),
                self.interaction_count == slot_after(old(self).interaction_count, 1 + i),
                *self == (Context {
                    commands: self.commands,
                    interaction_count: self.interaction_count,
                    last_text_idx: self.last_text_idx,
                    ..*old(self)
                }),
            decreases items@.len() - i,
        {
            let (key, value) = items[i];
            proof {
                assert(text_width(key@) <= widest_key(items@)) by {
                    lemma_widest_key_bounds(items@, i as int);
                }
            }
            let padded_key = right_align(key, w);
            let ghost before = self.commands@;
            let id = self.open_group(Direction::Row, 0);
            let ghost s1 = self.commands@;
            self.styled(padded_key.as_str(), key_style);
            let ghost s2 = self.commands@;
            self.text("  ");
            let ghost s3 = self.commands@;
            self.text(value);
            let ghost s4 = self.commands@;
            let _ = self.close_group(id);
            proof {
                let c = self.commands@;
                let at = n + 2 + 6 * i;
                assert(s2.drop_last() == s1);
                assert(s3.drop_last() == s2);
                assert(s4.drop_last() == s3);
                assert(c.drop_last() == s4);
                assert(s1 == before.push(Command::InteractionMarker(id)).push(
                    Command::BeginContainer(plain_container(Direction::Row, 0, t.border))));
                assert forall|k: int| 0 <= k < before.len() + 2 implies c[k] == s1[k] by {
                    assert(c[k] == s4[k]);
                    assert(s4[k] == s3[k]);
                    assert(s3[k] == s2[k]);
                    assert(s2[k] == s1[k]);
                }
                assert forall|k: int| 0 <= k < before.len() implies c[k] == before[k] by {
                    assert(c[k] == s1[k]);
                }
                assert(c[at + 2] == s2.last());
                assert(c[at + 3] == s3.last());
                assert(c[at + 4] == s4.last());
                assert(self.commands@.take(n) =~= old(self).commands@) by {
                    assert forall|k: int| 0 <= k < n implies self.commands@[k] == old(self).commands@[k] by {
                        assert(before.take(n)[k] == before[k]);
                    }
                }
                assert(is_definition_row(c, at, slot_after(old(self).interaction_count, 1 + i),
                    right_aligned(items@[i as int].0@, w as nat), items@[i as int].1@, t, inh));
                assert forall|k: int| 0 <= k <= i implies is_definition_row(self.commands@, n + 2 + 6 * k,
                    slot_after(old(self).interaction_count, 1 + k),
                    right_aligned((#[trigger] items@[k]).0@, w as nat), items@[k].1@, t, inh) by {
                    if k < i {
                        assert(is_definition_row(before, n + 2 + 6 * k,
                            slot_after(old(self).interaction_count, 1 + k),
                            right_aligned(items@[k].0@, w as nat), items@[k].1@, t, inh));
                        assert(n + 2 + 6 * k + 5 < before.len()) by (nonlinear_arith)
                            requires k < i, before.len() == n + 2 + 6 * i;
                    }
                }
            }
            i = i + 1;
        }
        let _ = self.close_group(outer);
        proof {
            assert(self.commands@.take(n) =~= old(self).commands@) by {
                assert forall|k: int| 0 <= k < n implies self.commands@[k] == old(self).commands@[k] by {
                    assert(self.commands@.drop_last()[k] == self.commands@[k]);
                }
            }
        }
        Response::none()
    }
}

/// Every key is at most as wide as the widest.
proof fn lemma_widest_key_bounds(items: Seq<(&str, &str)>, i: int)
    requires
        0 <= i < items.len(),
    ensures
        text_width(items[i].0@) <= widest_key(items),
    decreases items.len(),
{
    if i < items.len() - 1 {
        lemma_widest_key_bounds(items.drop_last(), i);
    }
}


/// The header an accordion draws from `at`: its own slot `id` holding a line
/// (slot `id + 1`) with the icon and the title, both in `color`, the title bold.
pub open spec fn is_accordion_header(c: Seq<Command>, at: int, id: usize, icon: Seq<char>, title: Seq<char>,
    color: Color, border: Color) -> bool {
    &&& c[at] == Command::InteractionMarker(id)
    &&& c[at + 1] == Command::BeginContainer(plain_container(Direction::Column, 0, border))
    &&& c[at + 2] == Command::InteractionMarker(sat_inc_usize(id))
    &&& c[at + 3] == Command::BeginContainer(plain_container(Direction::Row, 0, border))
    &&& is_plain_text(c[at + 4], icon, fg_style(color))
    &&& is_plain_text(c[at + 5], seq![' '] + title, with_mods(fg_style(color), BOLD))
    &&& c[at + 6] == Command::EndContainer
    &&& c[at + 7] == Command::EndContainer
}

/// The container an open accordion's body is drawn in, indented by `indent`.
pub open spec fn accordion_body(indent: u32, border: Color) -> ContainerArgs {
    ContainerArgs {
        padding: Padding { top: 0, right: 0, bottom: 0, left: indent },
        ..plain_container(Direction::Column, 0, border)
    }
}

impl Context {
    /// Draw an accordion header (see [`is_accordion_header`]) and report
    /// what hit its slot last frame.
    fn accordion_header(&mut self, icon: &str, title: &str, color: Color) -> (r: Response)
        requires
            old(self).wf(),
            old(self).commands@.len() + 8 < usize::MAX,
        ensures
            final(self).wf(),
            r == old(self).spec_response_for(old(self).interaction_count as int),
            final(self).commands@.len() == old(self).commands@.len() + 8,
            final(self).commands@.take(old(self).commands@.len() as int) == old(self).commands@,
            is_accordion_header(final(self).commands@, old(self).commands@.len() as int, old(self).interaction_count,
                icon@, title@, color, old(self).theme.border),
            *final(self) == (Context {
                commands: final(self).commands,
                interaction_count: sat_inc_usize(sat_inc_usize(old(self).interaction_count)),
                last_text_idx: None,
                ..*old(self)
            }),
    {
        proof {
            reveal_strlit(" ");
            assert(" "@ =~= seq![' ']);
            crate::style::lemma_single_flags();
        }
        let mut title_text = String::new();
        title_text.append(" ");
        title_text.append(title);
        let ghost s0 = self.commands@;
        let outer = self.open_group(Direction::Column, 0);
        let inner = self.open_group(Direction::Row, 0);
        let ghost s1 = self.commands@;
        self.styled(icon, Style::new().fg(color));
        let ghost s2 = self.commands@;
        self.styled(title_text.as_str(), Style::new().fg(color).bold());
        let ghost s3 = self.commands@;
        let _ = self.close_group(inner);
        let ghost s4 = self.commands@;
        let resp = self.close_group(outer);
        proof {
            let c = self.commands@;
            let n = s0.len() as int;
            assert(s2.drop_last() == s1);
            assert(s3.drop_last() == s2);
            assert(s4.drop_last() == s3);
            assert(c.drop_last() == s4);
            assert forall|k: int| 0 <= k < s1.len() implies c[k] == s1[k] by {
                assert(c[k] == s4[k]);
                assert(s4[k] == s3[k]);
                assert(s3[k] == s2[k]);
                assert(s2[k] == s1[k]);
            }
            assert(c[n + 4] == s2.last());
            assert(c[n + 5] == s3.last());
            assert(c[n + 6] == s4.last());
            assert(c.take(n) =~= s0);
        }
        resp
    }
}

/// `c` starts with what `before` had, then the focus marker when the
/// accordion holds focus, then its header.
pub open spec fn accordion_drawn(c: Seq<Command>, before: Context, shown: bool, title: Seq<char>) -> bool {
    let n = before.commands@.len() as int;
    let focused = before.next_focusable_is_focused();
    let m = if focused { 1int } else { 0int };
    let t = before.theme;
    &&& c.len() >= n + m + 8
    &&& c.take(n) == before.commands@
    &&& (focused ==> c[n] == Command::FocusMarker(before.focus_count))
    &&& is_accordion_header(c, n + m, before.interaction_count,
        if shown { seq!['▾'] } else { seq!['▸'] }, title, if focused { t.primary } else { t.text }, t.border)
}

impl Context {
    /// A collapsible section: a header with `▾` (open) or `▸` (closed) and
    /// the title, then, while `open`, the body `f` indented. Enter or Space
    /// (when focused) or a click on the header flips `open`; the icon shows
    /// the state after the key and before the click.
    #[verifier::rlimit(100)]
    #[verifier::spinoff_prover]
    pub fn accordion<F: FnOnce(&mut Context)>(&mut self, title: &str, open: &mut bool, f: F) -> (r: Response)
        requires
            old(self).wf(),
            old(self).commands@.len() + 9 < usize::MAX,
            forall|s: &mut Context| #[trigger] f.requires((s,)),
            forall|s: &mut Context| #[trigger] f.ensures((s,), ()) ==> final(s).wf(),
        ensures
            final(self).wf(),
            ({
                let t = old(self).theme;
                let n = old(self).commands@.len() as int;
                let focused = old(self).next_focusable_is_focused();
                let base = old(self).spec_response_for(old(self).interaction_count as int);
                let keyed = focused && activation_pending(*old(self));
                let shown = *old(open) != keyed;
                let m = if focused { 1int } else { 0int };
                let color = if focused { t.primary } else { t.text };
                let c = final(self).commands@;
                &&& *final(open) == (shown != base.clicked)
                &&& r == Response { focused, changed: *final(open) != *old(open), ..base }
                &&& (!*final(open) ==> {
                    &&& accordion_drawn(c, *old(self), shown, title@)
                    &&& c.len() == n + m + 8
                    &&& final(self).consumed@.len() == old(self).consumed@.len()
                    &&& forall|i: int| 0 <= i < final(self).consumed@.len() ==> #[trigger] final(self).consumed@[i]
                        == (old(self).consumed@[i] || (focused && old(self).live_press_in(i, activation_codes())))
                    &&& *final(self) == (Context {
                        commands: final(self).commands,
                        consumed: final(self).consumed,
                        focus_count: sat_inc_usize(old(self).focus_count),
                        interaction_count: sat_inc_usize(sat_inc_usize(old(self).interaction_count)),
                        last_text_idx: None,
                        ..*old(self)
                    })
                })
                &&& (*final(open) ==> {
                    &&& c.last() == Command::EndContainer
                    &&& ((forall|s: &mut Context| #[trigger] f.ensures((s,), ()) ==> final(s).commands@.len() >= s.commands@.len()
                        && final(s).commands@.take(s.commands@.len() as int) == s.commands@) ==> {
                        &&& accordion_drawn(c, *old(self), shown, title@)
                        &&& c.len() >= n + m + 11
                        &&& c[n + m + 8] == Command::InteractionMarker(sat_inc_usize(sat_inc_usize(old(self).interaction_count)))
                        &&& c[n + m + 9] == Command::BeginContainer(accordion_body(sat_add(t.spacing.0, t.spacing.0), t.border))
                    })
                })
            }),
    {
        let t = self.theme;
        let ghost n = self.commands@.len() as int;
        let focused = self.register_focusable();
        let ghost registered = *self;
        let keyed = self.consume_activation_keys(focused);
        proof {
            assert forall|i: int| #[trigger] registered.live_press_in(i, activation_codes())
                == old(self).live_press_in(i, activation_codes()) by {}
            assert(activation_codes() == seq![KeyCode::Enter, KeyCode::Char(' ')]);
            if focused && keyed {
                let w = choose|i: int| registered.live_press_in(i, seq![KeyCode::Enter, KeyCode::Char(' ')]);
                assert(old(self).live_press_in(w, activation_codes()));
            }
            if focused && activation_pending(*old(self)) {
                let w = choose|i: int| old(self).live_press_in(i, activation_codes());
                assert(registered.live_press_in(w, seq![KeyCode::Enter, KeyCode::Char(' ')]));
            }
        }
        let old_open = *open;
        if keyed {
            *open = !*open;
        }
        let shown = *open;
        let icon: &str = if shown { "▾" } else { "▸" };
        proof {
            reveal_strlit("▾");
            reveal_strlit("▸");
            reveal_strlit(" ");
            assert("▾"@ =~= seq!['▾']);
            assert("▸"@ =~= seq!['▸']);
            assert(" "@ =~= seq![' ']);
        }
        let color = if focused { t.primary } else { t.text };
        let ghost s0 = self.commands@;
        let resp = self.accordion_header(icon, title, color);
        let ghost header = self.commands@;
        proof {
            let m = if focused { 1int } else { 0int };
            assert(s0.len() == n + m);
            assert forall|k: int| 0 <= k < s0.len() implies header[k] == s0[k] by {
                assert(header.take(s0.len() as int)[k] == header[k]);
            }
            assert(header.take(n) =~= old(self).commands@) by {
                assert forall|k: int| 0 <= k < n implies header[k] == old(self).commands@[k] by {
                    assert(header[k] == s0[k]);
                    if focused {
                        assert(s0.drop_last() == old(self).commands@);
                        assert(s0.drop_last()[k] == s0[k]);
                    }
                }
            }
            if focused {
                assert(header[n] == s0[n]);
            }
        }
        let mut response = resp;
        if response.clicked {
            *open = !*open;
        }
        if *open {
            let indent = t.spacing.sm();
            let args = ContainerArgs {
                padding: Padding { top: 0, right: 0, bottom: 0, left: indent },
                ..plain_container_args(Direction::Column, 0, t.border)
            };
            let ghost before_body = self.commands@;
            let ghost bl = self.commands@.len() as int;
            let _ = self.run_container(args, f);
            proof {
                let ic2 = sat_inc_usize(sat_inc_usize(old(self).interaction_count));
                assert forall|c2: Seq<Command>| #[trigger] c2.take(bl + 2) == before_body.push(Command::InteractionMarker(ic2)).push(
                    Command::BeginContainer(args)) && c2.len() >= bl + 2 implies c2[bl] == Command::InteractionMarker(ic2)
                    && c2[bl + 1] == Command::BeginContainer(args) && c2.take(n) == old(self).commands@
                    && forall|k: int| 0 <= k < bl ==> c2[k] == header[k] by {
                    assert forall|k: int| 0 <= k < bl implies c2[k] == header[k] by {
                        assert(c2.take(bl + 2)[k] == c2[k]);
                    }
                    assert(c2.take(bl + 2)[bl] == c2[bl]);
                    assert(c2.take(bl + 2)[bl + 1] == c2[bl + 1]);
                    assert forall|k: int| 0 <= k < n implies c2[k] == old(self).commands@[k] by {
                        assert(c2.take(bl + 2)[k] == c2[k]);
                        assert(header.take(n)[k] == header[k]);
                    }
                    assert(c2.take(n) =~= old(self).commands@);
                }
            }
        }
        response.focused = focused;
        response.changed = *open != old_open;
        response
    }
}


/// Enter answers what is highlighted: it keeps the highlight, answers yes
/// exactly when Yes is highlighted, and marks the dialog answered; so with
/// No highlighted the answer is no, and after Tab (or an arrow) it is the
/// other answer.
pub proof fn lemma_confirm_enter_answers_highlight(st: ConfirmState)
    ensures
        spec_confirm_step(st, KeyCode::Enter).is_yes == st.is_yes,
        spec_confirm_step(st, KeyCode::Enter).result == st.is_yes,
        spec_confirm_step(st, KeyCode::Enter).clicked,
        spec_confirm_step(spec_confirm_step(st, KeyCode::Tab), KeyCode::Enter).result == !st.is_yes,
        spec_confirm_step(spec_confirm_step(st, KeyCode::Tab), KeyCode::Tab).is_yes == st.is_yes,
{
}


/// `y` answers yes and `n` answers no, whatever was highlighted, and mark
/// the dialog answered; Tab flips the highlight without answering.
pub proof fn lemma_confirm_letters(st: ConfirmState)
    ensures
        spec_confirm_step(st, KeyCode::Char('y')).result && spec_confirm_step(st, KeyCode::Char('y')).clicked,
        spec_confirm_step(st, KeyCode::Char('y')).is_yes,
        !spec_confirm_step(st, KeyCode::Char('n')).result && spec_confirm_step(st, KeyCode::Char('n')).clicked,
        !spec_confirm_step(st, KeyCode::Char('n')).is_yes,
        spec_confirm_step(st, KeyCode::Tab).is_yes == !st.is_yes,
        spec_confirm_step(st, KeyCode::Tab).clicked == st.clicked,
        spec_confirm_step(st, KeyCode::Char('x')) == st,
{
}

} // verus!
