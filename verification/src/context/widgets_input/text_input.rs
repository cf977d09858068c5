//! The single-line text input widget.
use vstd::prelude::*;
use crate::command::{Command, ContainerArgs};
use crate::context::{plain_container, plain_container_args, Context, Response};
use crate::context::widgets_display::layout::sat_inc;
use crate::context::widgets_interactive::collections::{or_else, WidgetColors};
use crate::context::widgets_input::input_keys::{
    input_claims, input_events, input_step, model_of, shown, InputModel,
};
use crate::context::widgets_input::input_state::{cluster_count, grapheme_count, matching, TextInputState};
use crate::event::{KeyCode, KeyEvent};
use crate::context::widgets_input::input_keys::input_key;
use crate::context::widgets_input::input_view::{input_view, render_input};
use crate::style::{no_margin, open_constraints, Align, Border, Color, Direction, Modifiers, Padding, Style, Theme, DIM};

verus! {

/// The model once the frame's input is handled: an empty value closes the
/// dropdown, and the highlight stays on a shown completion.
pub open spec fn settled(st: InputModel, sugg: Seq<Seq<char>>) -> InputModel {
    let a = if st.0.len() == 0 { (st.0, st.1, false, 0, st.4) } else { st };
    let m = shown(a, sugg);
    if m.len() > 0 && a.3 > m.len() - 1 { (a.0, a.1, a.2, m.len() - 1, a.4) } else { a }
}

/// The model an input starts the frame with: the cursor kept within the value.
pub open spec fn start_model(s: TextInputState) -> InputModel {
    let count = cluster_count(s.value@) as int;
    (s.value@, if s.cursor <= count { s.cursor as int } else { count }, s.show_suggestions, s.suggestion_index as int, false)
}

/// A bordered box with `pad` cells of padding left and right.
pub open spec fn framed_box(border_color: Color, pad: u32, theme_border: Color) -> ContainerArgs {
    ContainerArgs {
        border: Some(Border::Rounded),
        border_style: Style { fg: Some(border_color), bg: None, modifiers: Modifiers(0) },
        padding: Padding { top: 0, right: pad, bottom: 0, left: pad },
        ..plain_container(Direction::Column, 0, theme_border)
    }
}

fn framed_box_args(border_color: Color, pad: u32, theme_border: Color) -> (r: ContainerArgs)
    ensures
        r == framed_box(border_color, pad, theme_border),
{
    ContainerArgs {
        border: Some(Border::Rounded),
        border_style: Style::new().fg(border_color),
        padding: Padding { top: 0, right: pad, bottom: 0, left: pad },
        ..plain_container_args(Direction::Column, 0, theme_border)
    }
}

/// Border color of an input.
pub open spec fn input_border(t: Theme, colors: WidgetColors, focused: bool, has_error: bool) -> Color {
    if focused {
        or_else(colors.accent, t.primary)
    } else if has_error {
        or_else(colors.accent, t.error)
    } else {
        or_else(colors.border, t.border)
    }
}

/// Style of an input's text.
pub open spec fn input_style(t: Theme, colors: WidgetColors, empty: bool, focused: bool) -> Style {
    if empty && !focused {
        Style { fg: Some(or_else(colors.fg, t.text_dim)), bg: None, modifiers: Modifiers(DIM) }
    } else {
        Style { fg: Some(or_else(colors.fg, t.text)), bg: None, modifiers: Modifiers(0) }
    }
}

/// The input line's command.
pub open spec fn is_input_line(c: Command, content: Seq<char>, style: Style, co: Option<nat>, masked: bool) -> bool {
    c matches Command::Text { content: t, cursor_offset, cursor_masked, style: s, grow, align, wrap, truncate, margin, constraints }
        && t@ == content && s == style && cursor_masked == masked
        && (match cursor_offset { Some(x) => co == Some(x as nat), None => co is None })
        && grow == 0 && align == Align::Start && !wrap && !truncate && margin == no_margin() && constraints == open_constraints()
}

/// A text command with `content` in `style`.
pub open spec fn is_line(c: Command, content: Seq<char>, style: Style) -> bool {
    c matches Command::Text { content: t, cursor_offset, cursor_masked, style: s, grow, align, wrap, truncate, margin, constraints }
        && t@ == content && cursor_offset is None && !cursor_masked && s == style
        && grow == 0 && align == Align::Start && !wrap && !truncate && margin == no_margin() && constraints == open_constraints()
}

/// First completion shown in the dropdown window around `idx`.
pub open spec fn window_start(idx: int) -> int {
    if idx > 4 { idx - 4 } else { 0 }
}

/// One past the last completion shown.
pub open spec fn window_end(idx: int, len: int) -> int {
    if window_start(idx) + 5 < len { window_start(idx) + 5 } else { len }
}

/// Style of completion `k` of the dropdown.
pub open spec fn suggestion_style(t: Theme, colors: WidgetColors, highlighted: bool) -> Style {
    if highlighted {
        Style { fg: Some(or_else(colors.fg, t.selected_fg)), bg: Some(or_else(colors.accent, t.selected_bg)), modifiers: Modifiers(0) }
    } else {
        Style { fg: Some(or_else(colors.fg, t.text)), bg: None, modifiers: Modifiers(0) }
    }
}

/// Commands from `base` on are the dropdown rows for `items[lo..hi]`.
pub open spec fn suggestion_rows(cmds: Seq<Command>, base: int, items: Seq<Seq<char>>, lo: int, hi: int, idx: int,
    t: Theme, colors: WidgetColors) -> bool {
    forall|k: int| lo <= k < hi ==> is_line(#[trigger] cmds[base + k - lo], items[k], suggestion_style(t, colors, k == idx))
}

impl Context {
    /// Feed the frame's unclaimed events to a focused input.
    fn input_handle_events(&mut self, state: &mut TextInputState) -> (submitted: bool)
        requires
            old(self).wf(),
        ensures
            final(self).wf(),
            model_of(*final(state), submitted) == input_events(old(self).events@, old(self).consumed@,
                old(self).events@.len() as nat, model_of(*old(state), false), old(state).suggestion_views(), old(state).max_length),
            forall|i: int| 0 <= i < final(self).consumed@.len() ==> #[trigger] final(self).consumed@[i]
                == (old(self).consumed@[i] || input_claims(old(self).events@, old(self).consumed@, i,
                    model_of(*old(state), false), old(state).suggestion_views(), old(state).max_length)),
            final(self).consumed@.len() == old(self).consumed@.len(),
            *final(self) == (Context { consumed: final(self).consumed, ..*old(self) }),
            final(state).suggestions == old(state).suggestions,
            final(state).placeholder == old(state).placeholder,
            final(state).max_length == old(state).max_length,
            final(state).masked == old(state).masked,
            final(state).validation_error == old(state).validation_error,
    {
        let ghost init = model_of(*old(state), false);
        let ghost sugg = old(state).suggestion_views();
        let ghost max = old(state).max_length;
        let n = self.events.len();
        let mut submitted = false;
        let mut i: usize = 0;
        while i < n
            invariant
                n == self.events@.len(),
                i <= n,
                self.wf(),
                self.consumed@.len() == n,
                *self == (Context { consumed: self.consumed, ..*old(self) }),
                sugg == state.suggestion_views(),
                max == state.max_length,
                state.suggestions == old(state).suggestions,
                state.placeholder == old(state).placeholder,
                state.max_length == old(state).max_length,
                state.masked == old(state).masked,
                state.validation_error == old(state).validation_error,
                model_of(*state, submitted) == input_events(old(self).events@, old(self).consumed@, i as nat, init, sugg, max),
                forall|j: int| 0 <= j < n ==> #[trigger] self.consumed@[j] == (old(self).consumed@[j]
                    || (j < i && input_claims(old(self).events@, old(self).consumed@, j, init, sugg, max))),
            decreases n - i,
        {
            if !self.consumed[i] {
                let claimed = input_step(state, &self.events[i], &mut submitted);
                if claimed {
                    self.consumed.set(i, true);
                }
            }
            i = i + 1;
        }
        submitted
    }
}

/// `a - b`, or zero.
pub open spec fn sat_sub_u32(a: u32, b: u32) -> u32 {
    if a >= b { (a - b) as u32 } else { 0 }
}

/// Style of an input's error line.
pub open spec fn error_style(t: Theme, colors: WidgetColors) -> Style {
    Style { fg: Some(or_else(colors.accent, t.error)), bg: None, modifiers: Modifiers(DIM) }
}

/// How many commands the input's error line takes.
pub open spec fn error_lines(s: TextInputState) -> int {
    if s.validation_error is Some { 1 } else { 0 }
}

/// Whether the completion dropdown is drawn.
pub open spec fn dropdown_drawn(st: InputModel, sugg: Seq<Seq<char>>) -> bool {
    st.2 && shown(st, sugg).len() > 0
}

/// The draw list from `n0` on, after a text input with settled model `st`
/// and state `s` (placeholder, mask, error, completions) drew itself.
pub open spec fn text_input_drawn(before: Context, after: Seq<Command>, n0: int, st: InputModel, s: TextInputState,
    focused: bool, colors: WidgetColors) -> bool {
    let t = before.theme;
    let id = before.interaction_count;
    let view = input_view(st.0, s.placeholder@, st.1, s.masked, focused, sat_sub_u32(before.area_width, 4) as nat);
    let bc = input_border(t, colors, focused, s.validation_error is Some);
    let e = error_lines(s);
    let items = shown(st, s.suggestion_views());
    let lo = window_start(st.3);
    let hi = window_end(st.3, items.len() as int);
    &&& after[n0] == Command::InteractionMarker(id)
    &&& after[n0 + 1] == Command::BeginContainer(framed_box(bc, t.spacing.0, t.border))
    &&& is_input_line(after[n0 + 2], view.0, input_style(t, colors, st.0.len() == 0, focused), view.1, s.masked)
    &&& after[n0 + 3] == Command::EndContainer
    &&& (s.validation_error matches Some(err) ==> is_line(after[n0 + 4], seq!['⚠', ' '] + err@, error_style(t, colors)))
    &&& if dropdown_drawn(st, s.suggestion_views()) {
        &&& after.len() == n0 + 7 + e + (hi - lo)
        &&& after[n0 + 4 + e] == Command::InteractionMarker(sat_inc(id))
        &&& after[n0 + 5 + e] == Command::BeginContainer(framed_box(or_else(colors.border, t.border), t.spacing.0, t.border))
        &&& suggestion_rows(after, n0 + 6 + e, items, lo, hi, st.3, t, colors)
        &&& after[n0 + 6 + e + (hi - lo)] == Command::EndContainer
    } else {
        after.len() == n0 + 4 + e
    }
}

impl Context {
    /// Draw the input box around `content`; report what hit it last frame.
    fn input_box(&mut self, args: ContainerArgs, content: &str, style: Style, co: Option<usize>, masked: bool) -> (r: Response)
        requires
            old(self).wf(),
            old(self).commands@.len() + 4 < usize::MAX,
        ensures
            final(self).wf(),
            r == old(self).spec_response_for(old(self).interaction_count as int),
            final(self).commands@.len() == old(self).commands@.len() + 4,
            final(self).commands@.take(old(self).commands@.len() as int) == old(self).commands@,
            final(self).commands@[old(self).commands@.len() as int] == Command::InteractionMarker(old(self).interaction_count),
            final(self).commands@[old(self).commands@.len() + 1int] == Command::BeginContainer(args),
            is_input_line(final(self).commands@[old(self).commands@.len() + 2int], content@, style,
                match co { Some(x) => Some(x as nat), None => None }, masked),
            final(self).commands@[old(self).commands@.len() + 3int] == Command::EndContainer,
            *final(self) == (Context {
                commands: final(self).commands,
                interaction_count: sat_inc(old(self).interaction_count),
                last_text_idx: None,
                ..*old(self)
            }),
    {
        let ghost n = self.commands@.len();
        let id = self.next_interaction_id();
        self.begin_container(args);
        let ghost s1 = self.commands@;
        self.styled_with_cursor_privacy(content, style, co, masked);
        let ghost s2 = self.commands@;
        self.end_container();
        proof {
            assert(s2.drop_last() == s1);
            assert(self.commands@.drop_last() == s2);
            assert forall|k: int| 0 <= k < n + 2 implies self.commands@[k] == s1[k] by {
                assert(self.commands@[k] == s2[k]);
            }
            assert(s1 == old(self).commands@.push(Command::InteractionMarker(id)).push(Command::BeginContainer(args)));
            assert forall|k: int| 0 <= k < n implies self.commands@[k] == old(self).commands@[k] by {
                assert(self.commands@[k] == s1[k]);
            }
            assert(self.commands@.take(n as int) =~= old(self).commands@);
            assert(self.commands@[n as int] == s1[n as int]);
            assert(self.commands@[n + 1int] == s1[n + 1int]);
        }
        self.response_for(id)
    }

    /// Draw the completion dropdown: `items[lo..hi]`, `idx` highlighted.
    fn suggestion_box(&mut self, args: ContainerArgs, items: &Vec<&str>, lo: usize, hi: usize, idx: usize, colors: &WidgetColors)
        requires
            old(self).wf(),
            lo <= hi <= items@.len(),
            hi - lo <= 5,
            old(self).commands@.len() + 8 < usize::MAX,
        ensures
            final(self).wf(),
            ({
                let n = old(self).commands@.len() as int;
                let views = Seq::new(items@.len(), |k: int| items@[k]@);
                &&& final(self).commands@.len() == n + 3 + (hi - lo)
                &&& final(self).commands@.take(n) == old(self).commands@
                &&& final(self).commands@[n] == Command::InteractionMarker(old(self).interaction_count)
                &&& final(self).commands@[n + 1] == Command::BeginContainer(args)
                &&& suggestion_rows(final(self).commands@, n + 2, views, lo as int, hi as int, idx as int, old(self).theme, *colors)
                &&& final(self).commands@[n + 2 + (hi - lo)] == Command::EndContainer
            }),
            *final(self) == (Context {
                commands: final(self).commands,
                interaction_count: sat_inc(old(self).interaction_count),
                last_text_idx: None,
                ..*old(self)
            }),
    {
        let ghost n = self.commands@.len() as int;
        let ghost views = Seq::new(items@.len(), |k: int| items@[k]@);
        let t = self.theme;
        let hi_style = Style::new().bg(match colors.accent { Some(c) => c, None => t.selected_bg })
            .fg(match colors.fg { Some(c) => c, None => t.selected_fg });
        let lo_style = Style::new().fg(match colors.fg { Some(c) => c, None => t.text });
        let _ = self.next_interaction_id();
        self.begin_container(args);
        let ghost start = *self;
        let mut k = lo;
        while k < hi
            invariant
                lo <= k <= hi,
                hi <= items@.len(),
                hi - lo <= 5,
                n + 8 < usize::MAX,
                n == old(self).commands@.len(),
                self.wf(),
                t == old(self).theme,
                views == Seq::new(items@.len(), |j: int| items@[j]@),
                hi_style == suggestion_style(t, *colors, true),
                lo_style == suggestion_style(t, *colors, false),
                self.commands@.len() == n + 2 + (k - lo),
                self.commands@.take(n + 2) == start.commands@,
                start.commands@.take(n) == old(self).commands@,
                start.commands@[n] == Command::InteractionMarker(old(self).interaction_count),
                start.commands@[n + 1] == Command::BeginContainer(args),
                forall|j: int| lo <= j < k ==> is_line(#[trigger] self.commands@[n + 2 + j - lo], views[j],
                    suggestion_style(t, *colors, j == idx)),
                *self == (Context { commands: self.commands, last_text_idx: self.last_text_idx, ..start }),
            decreases hi - k,
        {
            let ghost before = self.commands@;
            if k == idx {
                self.styled(items[k], hi_style);
            } else {
                self.styled(items[k], lo_style);
            }
            proof {
                assert(self.commands@.drop_last() == before);
                assert forall|j: int| lo <= j < k + 1 implies is_line(#[trigger] self.commands@[n + 2 + j - lo], views[j],
                    suggestion_style(t, *colors, j == idx)) by {
                    if j < k {
                        assert(self.commands@[n + 2 + j - lo] == before[n + 2 + j - lo]);
                    }
                }
                assert(self.commands@.take(n + 2) =~= start.commands@) by {
                    assert forall|j: int| 0 <= j < n + 2 implies self.commands@[j] == before[j] by {}
                    assert(before.take(n + 2) == start.commands@);
                }
            }
            k = k + 1;
        }
        let ghost body = self.commands@;
        self.end_container();
        proof {
            assert(self.commands@.drop_last() == body);
            assert forall|j: int| lo <= j < hi implies is_line(#[trigger] self.commands@[n + 2 + j - lo], views[j],
                suggestion_style(t, *colors, j == idx)) by {
                assert(self.commands@[n + 2 + j - lo] == body[n + 2 + j - lo]);
            }
            assert(self.commands@[n] == body[n]);
            assert(self.commands@[n + 1] == body[n + 1]);
            assert(body[n] == start.commands@[n]);
            assert(body[n + 1] == start.commands@[n + 1]);
            assert(self.commands@.take(n) =~= old(self).commands@) by {
                assert forall|j: int| 0 <= j < n implies self.commands@[j] == old(self).commands@[j] by {
                    assert(self.commands@[j] == body[j]);
                    assert(body[j] == start.commands@[j]);
                }
            }
        }
    }
}

impl Context {
    /// An input's state update for the frame: the cursor kept within the
    /// value, the events when focused, then the dropdown settled.
    fn input_process(&mut self, state: &mut TextInputState, focused: bool) -> (submitted: bool)
        requires
            old(self).wf(),
        ensures
            final(self).wf(),
            ({
                let sugg = old(state).suggestion_views();
                let max = old(state).max_length;
                let m0 = start_model(*old(state));
                let keyed = if focused {
                    input_events(old(self).events@, old(self).consumed@, old(self).events@.len() as nat, m0, sugg, max)
                } else {
                    m0
                };
                let st = settled(keyed, sugg);
                &&& model_of(*final(state), submitted) == st
                &&& submitted == keyed.4
                &&& final(self).consumed@.len() == old(self).consumed@.len()
                &&& forall|i: int| 0 <= i < final(self).consumed@.len() ==> #[trigger] final(self).consumed@[i]
                    == (old(self).consumed@[i] || (focused && input_claims(old(self).events@, old(self).consumed@, i, m0, sugg, max)))
            }),
            final(state).show_suggestions ==> shown(model_of(*final(state), false), final(state).suggestion_views()).len() == 0
                || final(state).suggestion_index < shown(model_of(*final(state), false), final(state).suggestion_views()).len(),
            final(state).suggestions == old(state).suggestions,
            final(state).placeholder == old(state).placeholder,
            final(state).max_length == old(state).max_length,
            final(state).masked == old(state).masked,
            final(state).validation_error == old(state).validation_error,
            *final(self) == (Context { consumed: final(self).consumed, ..*old(self) }),
    {
        let ghost sugg = state.suggestion_views();
        let count = grapheme_count(state.value.as_str());
        if state.cursor > count {
            state.cursor = count;
        }
        let ghost m0 = model_of(*state, false);
        proof {
            assert(m0 == start_model(*old(state)));
        }
        let mut submitted = false;
        if focused {
            submitted = self.input_handle_events(state);
        }
        let ghost keyed = model_of(*state, submitted);
        if state.value.unicode_len() == 0 {
            state.show_suggestions = false;
            state.suggestion_index = 0;
        }
        let (mlen, _) = state.shown_at(0);
        if mlen > 0 && state.suggestion_index > mlen - 1 {
            state.suggestion_index = mlen - 1;
        }
        proof {
            assert(model_of(*state, submitted) == settled(keyed, sugg));
        }
        submitted
    }
}

impl Context {
    /// Draw an input whose state is settled for this frame.
    #[verifier::rlimit(100)]
    #[verifier::spinoff_prover]
    fn input_render(&mut self, state: &TextInputState, colors: &WidgetColors, focused: bool) -> (r: Response)
        requires
            old(self).wf(),
            old(self).commands@.len() + 15 < usize::MAX,
            state.show_suggestions ==> shown(model_of(*state, false), state.suggestion_views()).len() == 0
                || state.suggestion_index < shown(model_of(*state, false), state.suggestion_views()).len(),
        ensures
            final(self).wf(),
            r == old(self).spec_response_for(old(self).interaction_count as int),
            final(self).commands@.take(old(self).commands@.len() as int) == old(self).commands@,
            text_input_drawn(*old(self), final(self).commands@, old(self).commands@.len() as int, model_of(*state, false),
                *state, focused, *colors),
            final(self).last_text_idx == (if state.validation_error is Some
                && !dropdown_drawn(model_of(*state, false), state.suggestion_views()) {
                Some((old(self).commands@.len() + 4) as usize) } else { None }),
            *final(self) == (Context {
                commands: final(self).commands,
                interaction_count: final(self).interaction_count,
                last_text_idx: final(self).last_text_idx,
                ..*old(self)
            }),
    {
        let ghost n = self.commands@.len() as int;
        let t = self.theme;
        let vw = self.area_width.saturating_sub(4) as usize;
        let (text, co) = render_input(state.value.as_str(), state.placeholder.as_str(), state.cursor, state.masked, focused, vw);
        let empty = state.value.unicode_len() == 0;
        let style = if empty && !focused {
            Style::new().dim().fg(match colors.fg { Some(c) => c, None => t.text_dim })
        } else {
            Style::new().fg(match colors.fg { Some(c) => c, None => t.text })
        };
        let bc = if focused {
            match colors.accent { Some(c) => c, None => t.primary }
        } else if state.validation_error.is_some() {
            match colors.accent { Some(c) => c, None => t.error }
        } else {
            match colors.border { Some(c) => c, None => t.border }
        };
        let pad = t.spacing.xs();
        let args = framed_box_args(bc, pad, t.border);
        proof {
            crate::style::lemma_single_flags();
        }
        let resp = self.input_box(args, text.as_str(), style, co, state.masked);
        let ghost after_box = self.commands@;
        match &state.validation_error {
            Some(e) => {
                let mut warning = String::new();
                warning.append("⚠ ");
                warning.append(e.as_str());
                proof {
                    reveal_strlit("⚠ ");
                    assert(warning@ =~= seq!['⚠', ' '] + e@);
                }
                self.styled(warning.as_str(), Style::new().dim().fg(match colors.accent { Some(c) => c, None => t.error }));
                proof {
                    assert(self.commands@.drop_last() == after_box);
                }
            },
            None => {},
        }
        let ghost after_err = self.commands@;
        let (mlen, _) = state.shown_at(0);
        if state.show_suggestions && mlen > 0 {
            let items = state.matched_suggestions();
            let idx = state.suggestion_index;
            let lo: usize = if idx > 4 { idx - 4 } else { 0 };
            let hi: usize = if lo + 5 < items.len() { lo + 5 } else { items.len() };
            let bargs = framed_box_args(match colors.border { Some(c) => c, None => t.border }, pad, t.border);
            self.suggestion_box(bargs, &items, lo, hi, idx, colors);
            proof {
                assert(Seq::new(items@.len(), |k: int| items@[k]@) =~= shown(model_of(*state, false), state.suggestion_views()));
                assert forall|k: int| 0 <= k < after_err.len() implies self.commands@[k] == after_err[k] by {
                    assert(self.commands@.take(after_err.len() as int)[k] == after_err[k]);
                }
            }
        }
        proof {
            assert forall|k: int| 0 <= k < after_box.len() implies self.commands@[k] == after_box[k] by {
                assert(self.commands@[k] == after_err[k]);
                if state.validation_error is Some {
                    assert(after_err.drop_last()[k] == after_box[k]);
                }
            }
            assert forall|k: int| 0 <= k < n implies self.commands@[k] == old(self).commands@[k] by {
                assert(self.commands@[k] == after_box[k]);
                assert(after_box.take(n)[k] == old(self).commands@[k]);
            }
            assert(self.commands@.take(n) =~= old(self).commands@);
        }
        resp
    }
}

impl Context {
    /// A single-line text input in custom colors. When focused it takes
    /// typing, pastes, Backspace/Delete, Left/Right/Home/End, Enter (submit,
    /// or accept the highlighted completion), and Up/Down/Tab/Esc for the
    /// completion dropdown.
    #[verifier::rlimit(100)]
    #[verifier::spinoff_prover]
    pub fn text_input_colored(&mut self, state: &mut TextInputState, colors: &WidgetColors) -> (r: Response)
        requires
            old(self).wf(),
            old(self).commands@.len() + 16 < usize::MAX,
        ensures
            final(self).wf(),
            ({
                let focused = old(self).next_focusable_is_focused();
                let sugg = old(state).suggestion_views();
                let max = old(state).max_length;
                let m0 = start_model(*old(state));
                let keyed = if focused {
                    input_events(old(self).events@, old(self).consumed@, old(self).events@.len() as nat, m0, sugg, max)
                } else {
                    m0
                };
                let st = settled(keyed, sugg);
                let id = old(self).interaction_count as int;
                let m = if focused { 1int } else { 0int };
                let n0 = old(self).commands@.len() as int;
                &&& final(state).value@ == st.0
                &&& final(state).cursor == st.1
                &&& final(state).show_suggestions == st.2
                &&& final(state).suggestion_index == st.3
                &&& final(state).suggestions == old(state).suggestions
                &&& final(state).placeholder == old(state).placeholder
                &&& final(state).max_length == old(state).max_length
                &&& final(state).masked == old(state).masked
                &&& final(state).validation_error == old(state).validation_error
                &&& r == Response {
                    focused,
                    changed: st.0 != old(state).value@,
                    submitted: keyed.4,
                    ..old(self).spec_response_for(id)
                }
                &&& final(self).consumed@.len() == old(self).consumed@.len()
                &&& forall|i: int| 0 <= i < final(self).consumed@.len() ==> #[trigger] final(self).consumed@[i]
                    == (old(self).consumed@[i] || (focused && input_claims(old(self).events@, old(self).consumed@, i, m0, sugg, max)))
                &&& final(self).commands@.take(n0) == old(self).commands@
                &&& (focused ==> final(self).commands@[n0] == Command::FocusMarker(old(self).focus_count))
                &&& text_input_drawn(*old(self), final(self).commands@, n0 + m, (st.0, st.1, st.2, st.3, false), *old(state), focused, *colors)
                &&& final(self).last_text_idx == (if old(state).validation_error is Some && !dropdown_drawn((st.0, st.1, st.2, st.3, false), sugg) {
                    Some((n0 + m + 4) as usize) } else { None })
                &&& *final(self) == (Context {
                    commands: final(self).commands,
                    consumed: final(self).consumed,
                    interaction_count: final(self).interaction_count,
                    focus_count: final(self).focus_count,
                    last_text_idx: final(self).last_text_idx,
                    ..*old(self)
                })
            }),
    {
        let ghost n0 = self.commands@.len() as int;
        let focused = self.register_focusable();
        let old_value = state.value.clone();
        let submitted = self.input_process(state, focused);
        let ghost before_render = *self;
        let resp = self.input_render(state, colors, focused);
        let changed = !(state.value == old_value);
        proof {
            let m = if focused { 1int } else { 0int };
            assert(before_render.commands@.len() == n0 + m);
            assert forall|k: int| 0 <= k < n0 implies self.commands@[k] == old(self).commands@[k] by {
                assert(self.commands@.take(n0 + m)[k] == before_render.commands@[k]);
            }
            assert(self.commands@.take(n0) =~= old(self).commands@);
            if focused {
                assert(self.commands@.take(n0 + m)[n0] == before_render.commands@[n0]);
            }
        }
        Response { focused, changed, submitted, ..resp }
    }

    /// A single-line text input in the theme's colors; see
    /// [`text_input_colored`](Self::text_input_colored).
    pub fn text_input(&mut self, state: &mut TextInputState) -> (r: Response)
        requires
            old(self).wf(),
            old(self).commands@.len() + 16 < usize::MAX,
        ensures
            final(self).wf(),
            ({
                let focused = old(self).next_focusable_is_focused();
                let sugg = old(state).suggestion_views();
                let max = old(state).max_length;
                let m0 = start_model(*old(state));
                let keyed = if focused {
                    input_events(old(self).events@, old(self).consumed@, old(self).events@.len() as nat, m0, sugg, max)
                } else {
                    m0
                };
                let st = settled(keyed, sugg);
                let id = old(self).interaction_count as int;
                let m = if focused { 1int } else { 0int };
                let n0 = old(self).commands@.len() as int;
                &&& final(state).value@ == st.0
                &&& final(state).cursor == st.1
                &&& final(state).show_suggestions == st.2
                &&& final(state).suggestion_index == st.3
                &&& final(state).suggestions == old(state).suggestions
                &&& final(state).placeholder == old(state).placeholder
                &&& final(state).max_length == old(state).max_length
                &&& final(state).masked == old(state).masked
                &&& final(state).validation_error == old(state).validation_error
                &&& r == Response {
                    focused,
                    changed: st.0 != old(state).value@,
                    submitted: keyed.4,
                    ..old(self).spec_response_for(id)
                }
                &&& final(self).consumed@.len() == old(self).consumed@.len()
                &&& forall|i: int| 0 <= i < final(self).consumed@.len() ==> #[trigger] final(self).consumed@[i]
                    == (old(self).consumed@[i] || (focused && input_claims(old(self).events@, old(self).consumed@, i, m0, sugg, max)))
                &&& final(self).commands@.take(n0) == old(self).commands@
                &&& (focused ==> final(self).commands@[n0] == Command::FocusMarker(old(self).focus_count))
                &&& text_input_drawn(*old(self), final(self).commands@, n0 + m, (st.0, st.1, st.2, st.3, false), *old(state), focused, WidgetColors { fg: None, bg: None, border: None, accent: None })
                &&& final(self).last_text_idx == (if old(state).validation_error is Some && !dropdown_drawn((st.0, st.1, st.2, st.3, false), sugg) {
                    Some((n0 + m + 4) as usize) } else { None })
                &&& *final(self) == (Context {
                    commands: final(self).commands,
                    consumed: final(self).consumed,
                    interaction_count: final(self).interaction_count,
                    focus_count: final(self).focus_count,
                    last_text_idx: final(self).last_text_idx,
                    ..*old(self)
                })
            }),
    {
        let colors = WidgetColors::theme_default();
        self.text_input_colored(state, &colors)
    }
}

/// An empty value never shows completions: nothing matches it, and the
/// dropdown is closed once the frame's input is handled.
pub proof fn lemma_empty_value_shows_no_suggestions(st: InputModel, sugg: Seq<Seq<char>>)
    requires
        st.0.len() == 0,
    ensures
        matching(sugg, st.0).len() == 0,
        !settled(st, sugg).2,
        shown(settled(st, sugg), sugg).len() == 0,
    decreases sugg.len(),
{
    if sugg.len() > 0 {
        lemma_empty_value_shows_no_suggestions(st, sugg.drop_last());
    }
}

/// Cursor keys keep the cursor on a cluster boundary of the value: from a
/// cursor within the value, Left, Right, Home and End land within it.
pub proof fn lemma_cursor_keys_stay_in_value(st: InputModel, k: KeyEvent, sugg: Seq<Seq<char>>, max: Option<usize>)
    requires
        0 <= st.1 <= cluster_count(st.0),
        k.code == KeyCode::Left || k.code == KeyCode::Right || k.code == KeyCode::Home || k.code == KeyCode::End,
    ensures
        input_key(st, k, sugg, max).0.0 == st.0,
        0 <= input_key(st, k, sugg, max).0.1 <= cluster_count(st.0),
        input_key(st, k, sugg, max).1,
{
}

} // verus!
