//! A scrolling log of styled lines that can follow its newest entry.
use vstd::prelude::*;
use crate::command::{Command, ContainerArgs};
use crate::context::{plain_container, plain_container_args, Context, Response};
use crate::context::widgets_display::text::{decimal, is_plain_text, push_decimal};
use crate::context::widgets_interactive::md_render::drawn_texts;
use crate::context::widgets_interactive::selection::sat_inc_usize;
use crate::event::{Event, KeyCode, KeyEventKind, MouseKind};
use crate::style::{fg_style, no_margin, open_constraints, rect_contains, with_mods, Align, Border, Constraints, Direction, Margin,
    Rect, Style, DIM};

verus! {

/// One line of a rich log: runs of text, each in its own style.
pub struct RichLogEntry {
    pub segments: Vec<(String, Style)>,
}

/// The lines of a rich log and how far it is scrolled.
pub struct RichLogState {
    pub entries: Vec<RichLogEntry>,
    /// Index of the first line shown; `usize::MAX` follows the end.
    pub scroll_offset: usize,
    /// Jump to the end when the offset asks for it.
    pub auto_scroll: bool,
}

impl RichLogState {
    /// An empty log that follows its newest line.
    pub fn new() -> (s: Self)
        ensures
            s.entries@.len() == 0,
            s.scroll_offset == usize::MAX,
            s.auto_scroll,
    {
        RichLogState { entries: Vec::new(), scroll_offset: usize::MAX, auto_scroll: true }
    }

    /// Append a line.
    pub fn push(&mut self, segments: Vec<(String, Style)>)
        ensures
            final(self).entries@.len() == old(self).entries@.len() + 1,
            forall|k: int| 0 <= k < old(self).entries@.len() ==> final(self).entries@[k] == old(self).entries@[k],
            final(self).entries@.last().segments == segments,
            final(self).scroll_offset == old(self).scroll_offset,
            final(self).auto_scroll == old(self).auto_scroll,
    {
        self.entries.push(RichLogEntry { segments });
    }

    /// The number of lines.
    pub fn len(&self) -> (r: usize)
        ensures
            r == self.entries@.len(),
    {
        self.entries.len()
    }
}

/// `a - b`, or 0 when `b` is larger.
pub open spec fn sub0(a: int, b: int) -> int {
    if a > b { a - b } else { 0 }
}

/// The smaller of `a` and `b`.
pub open spec fn min_int(a: int, b: int) -> int {
    if a < b { a } else { b }
}

/// How many lines a log of `len` lines shows in a widget `height` rows
/// tall, and whether it shows the position line: two rows go to the
/// border; with none left every line shows; the position line takes a row
/// when not every line fits.
pub open spec fn log_rows(height: int, len: int) -> (int, bool) {
    let viewport = sub0(height, 2);
    let eff = if viewport == 0 { if len > 1 { len } else { 1 } } else { viewport };
    let show = len > eff;
    let visible = if show { if sub0(eff, 1) > 1 { sub0(eff, 1) } else { 1 } } else { eff };
    (visible, show)
}

/// The offset after one key: Up/`k` and Down/`j` by a line, PageUp and
/// PageDown by ten, Home and End to either end, within `[0, max]`.
pub open spec fn log_key(off: int, max: int, code: KeyCode) -> int {
    match code {
        KeyCode::Up | KeyCode::Char('k') => sub0(off, 1),
        KeyCode::Down | KeyCode::Char('j') => min_int(off + 1, max),
        KeyCode::PageUp => sub0(off, 10),
        KeyCode::PageDown => min_int(off + 10, max),
        KeyCode::Home => 0,
        KeyCode::End => max,
        _ => off,
    }
}

/// The keys a focused log claims.
pub open spec fn log_codes() -> Seq<KeyCode> {
    seq![KeyCode::Up, KeyCode::Char('k'), KeyCode::Down, KeyCode::Char('j'), KeyCode::PageUp, KeyCode::PageDown,
        KeyCode::Home, KeyCode::End]
}

/// The offset after the unclaimed key presses among the first `n` events.
pub open spec fn log_keys(events: Seq<Event>, consumed: Seq<bool>, n: nat, off: int, max: int) -> int
    decreases n,
{
    if n == 0 {
        off
    } else {
        let prev = log_keys(events, consumed, (n - 1) as nat, off, max);
        if consumed[n - 1] {
            prev
        } else {
            match events[n - 1] {
                Event::Key(k) => if k.kind == KeyEventKind::Press { log_key(prev, max, k.code) } else { prev },
                _ => prev,
            }
        }
    }
}

/// Whether event `e` is a wheel notch over `rect`.
pub open spec fn wheel_over(e: Event, rect: Rect) -> bool {
    e matches Event::Mouse(m) && rect_contains(rect, m.x, m.y)
        && (m.kind == MouseKind::ScrollUp || m.kind == MouseKind::ScrollDown)
}

/// The offset after the unclaimed wheel notches over `rect` among the first
/// `n` events, `delta` lines each.
pub open spec fn log_wheels(events: Seq<Event>, claimed: Seq<bool>, n: nat, off: int, max: int, rect: Rect, delta: int)
    -> int
    decreases n,
{
    if n == 0 {
        off
    } else {
        let prev = log_wheels(events, claimed, (n - 1) as nat, off, max, rect, delta);
        if claimed[n - 1] || !wheel_over(events[n - 1], rect) {
            prev
        } else if events[n - 1]->Mouse_0.kind == MouseKind::ScrollUp {
            sub0(prev, delta)
        } else {
            min_int(prev + delta, max)
        }
    }
}

proof fn lemma_log_keys_bound(events: Seq<Event>, consumed: Seq<bool>, n: nat, off: int, max: int)
    requires
        0 <= off <= max,
    ensures
        0 <= log_keys(events, consumed, n, off, max) <= max,
    decreases n,
{
    if n > 0 {
        lemma_log_keys_bound(events, consumed, (n - 1) as nat, off, max);
    }
}

proof fn lemma_log_wheels_bound(events: Seq<Event>, claimed: Seq<bool>, n: nat, off: int, max: int, rect: Rect, delta: int)
    requires
        0 <= off <= max,
        delta >= 0,
    ensures
        0 <= log_wheels(events, claimed, n, off, max, rect, delta) <= max,
    decreases n,
{
    if n > 0 {
        lemma_log_wheels_bound(events, claimed, (n - 1) as nat, off, max, rect, delta);
    }
}


/// `c` shows log line `e`: its runs, unwrapped.
pub open spec fn is_log_line(c: Command, e: RichLogEntry) -> bool {
    c matches Command::RichText { segments, wrap, align, margin, constraints }
        && segments@.len() == e.segments@.len()
        && (forall|k: int| 0 <= k < segments@.len() ==> (#[trigger] segments@[k]).0@ == e.segments@[k].0@
            && segments@[k].1 == e.segments@[k].1)
        && !wrap && align == Align::Start && margin == no_margin() && constraints == open_constraints()
}

/// The bordered column a log is drawn in.
pub open spec fn log_box(border: crate::style::Color) -> ContainerArgs {
    ContainerArgs { border: Some(Border::Single), ..plain_container(Direction::Column, 0, border) }
}

/// The position line: first and last shown line (counting from 1) and the total.
pub open spec fn log_position(start: int, end: int, len: int) -> Seq<char> {
    decimal((start + 1) as nat) + seq!['-'] + decimal(end as nat) + seq![' ', '/', ' '] + decimal(len as nat)
}

fn sub0_exec(a: usize, b: usize) -> (r: usize)
    ensures
        r == sub0(a as int, b as int),
{
    if a > b { a - b } else { 0 }
}

fn min_exec(a: usize, b: usize) -> (r: usize)
    ensures
        r == min_int(a as int, b as int),
{
    if a < b { a } else { b }
}

/// `min(a + b, cap)` without overflow.
fn add_capped(a: usize, b: usize, cap: usize) -> (r: usize)
    ensures
        r == min_int(a + b, cap as int),
{
    if a as u128 + b as u128 >= cap as u128 { cap } else { a + b }
}

fn log_rows_exec(height: usize, len: usize) -> (r: (usize, bool))
    ensures
        r.0 == log_rows(height as int, len as int).0,
        r.1 == log_rows(height as int, len as int).1,
{
    let viewport = sub0_exec(height, 2);
    let eff = if viewport == 0 { if len > 1 { len } else { 1 } } else { viewport };
    let show = len > eff;
    let visible = if show { let v = sub0_exec(eff, 1); if v > 1 { v } else { 1 } } else { eff };
    (visible, show)
}

/// A copy of a line's runs.
fn copy_runs(segs: &Vec<(String, Style)>) -> (r: Vec<(String, Style)>)
    ensures
        r@.len() == segs@.len(),
        forall|k: int| 0 <= k < r@.len() ==> (#[trigger] r@[k]).0@ == segs@[k].0@ && r@[k].1 == segs@[k].1,
{
    let mut out: Vec<(String, Style)> = Vec::new();
    let mut k: usize = 0;
    while k < segs.len()
        invariant
            k <= segs@.len(),
            out@.len() == k,
            forall|j: int| 0 <= j < k ==> (#[trigger] out@[j]).0@ == segs@[j].0@ && out@[j].1 == segs@[j].1,
        decreases segs@.len() - k,
    {
        out.push((segs[k].0.clone(), segs[k].1));
        k = k + 1;
    }
    out
}

impl Context {
    /// Apply this frame's unclaimed key presses to a log's offset.
    fn log_handle_keys(&mut self, off: &mut usize, max: usize)
        requires
            old(self).wf(),
            *old(off) <= max,
        ensures
            final(self).wf(),
            *final(off) == log_keys(old(self).events@, old(self).consumed@, old(self).events@.len() as nat,
                *old(off) as int, max as int),
            forall|i: int| 0 <= i < final(self).consumed@.len() ==> #[trigger] final(self).consumed@[i]
                == (old(self).consumed@[i] || old(self).live_press_in(i, log_codes())),
            final(self).consumed@.len() == old(self).consumed@.len(),
            *final(self) == (Context { consumed: final(self).consumed, ..*old(self) }),
    {
        let n = self.events.len();
        let mut i: usize = 0;
        while i < n
            invariant
                n == self.events@.len(),
                i <= n,
                self.wf(),
                self.consumed@.len() == n,
                *off <= max,
                *self == (Context { consumed: self.consumed, ..*old(self) }),
                *off == log_keys(old(self).events@, old(self).consumed@, i as nat, *old(off) as int, max as int),
                forall|j: int| 0 <= j < n ==> #[trigger] self.consumed@[j] == (old(self).consumed@[j]
                    || (j < i && old(self).live_press_in(j, log_codes()))),
            decreases n - i,
        {
            if !self.consumed[i] {
                match &self.events[i] {
                    Event::Key(k) => {
                        if k.kind == KeyEventKind::Press {
                            let ghost lc = log_codes();
                            let claim = match k.code {
                                KeyCode::Up => { *off = sub0_exec(*off, 1); proof { assert(lc[0] == k.code); } true },
                                KeyCode::Down => { *off = add_capped(*off, 1, max); proof { assert(lc[2] == k.code); } true },
                                KeyCode::PageUp => { *off = sub0_exec(*off, 10); proof { assert(lc[4] == k.code); } true },
                                KeyCode::PageDown => { *off = add_capped(*off, 10, max); proof { assert(lc[5] == k.code); } true },
                                KeyCode::Home => { *off = 0; proof { assert(lc[6] == k.code); } true },
                                KeyCode::End => { *off = max; proof { assert(lc[7] == k.code); } true },
                                KeyCode::Char(c) => {
                                    if c == 'k' {
                                        *off = sub0_exec(*off, 1);
                                        proof { assert(lc[1] == k.code); }
                                        true
                                    } else if c == 'j' {
                                        *off = add_capped(*off, 1, max);
                                        proof { assert(lc[3] == k.code); }
                                        true
                                    } else {
                                        proof {
                                            if lc.contains(k.code) {
                                                let w = choose|w: int| 0 <= w < lc.len() && lc[w] == k.code;
                                                assert(0 <= w < 8);
                                            }
                                        }
                                        false
                                    }
                                },
                                _ => {
                                    proof {
                                        if lc.contains(k.code) {
                                            let w = choose|w: int| 0 <= w < lc.len() && lc[w] == k.code;
                                            assert(0 <= w < 8);
                                        }
                                    }
                                    false
                                },
                            };
                            if claim {
                                self.consumed.set(i, true);
                            }
                        }
                    },
                    _ => {},
                }
            }
            i = i + 1;
        }
    }

    /// Apply this frame's unclaimed wheel notches over `rect` to a log's offset.
    fn log_handle_wheel(&mut self, off: &mut usize, max: usize, rect: Rect)
        requires
            old(self).wf(),
            *old(off) <= max,
        ensures
            final(self).wf(),
            *final(off) == log_wheels(old(self).events@, old(self).consumed@, old(self).events@.len() as nat,
                *old(off) as int, max as int, rect, old(self).scroll_lines_per_event as int),
            *final(off) <= max,
            forall|i: int| 0 <= i < final(self).consumed@.len() ==> #[trigger] final(self).consumed@[i]
                == (old(self).consumed@[i] || wheel_over(old(self).events@[i], rect)),
            final(self).consumed@.len() == old(self).consumed@.len(),
            *final(self) == (Context { consumed: final(self).consumed, ..*old(self) }),
    {
        let n = self.events.len();
        let delta = self.scroll_lines_per_event as usize;
        let mut i: usize = 0;
        while i < n
            invariant
                n == self.events@.len(),
                i <= n,
                self.wf(),
                delta == old(self).scroll_lines_per_event,
                self.consumed@.len() == n,
                *off <= max,
                *self == (Context { consumed: self.consumed, ..*old(self) }),
                *off == log_wheels(old(self).events@, old(self).consumed@, i as nat, *old(off) as int, max as int, rect,
                    delta as int),
                forall|j: int| 0 <= j < n ==> #[trigger] self.consumed@[j] == (old(self).consumed@[j]
                    || (j < i && wheel_over(old(self).events@[j], rect))),
            decreases n - i,
        {
            if !self.consumed[i] {
                match &self.events[i] {
                    Event::Mouse(m) => {
                        if rect.contains(m.x, m.y) {
                            match m.kind {
                                MouseKind::ScrollUp => {
                                    *off = sub0_exec(*off, delta);
                                    self.consumed.set(i, true);
                                },
                                MouseKind::ScrollDown => {
                                    *off = add_capped(*off, delta, max);
                                    self.consumed.set(i, true);
                                },
                                _ => {},
                            }
                        }
                    },
                    _ => {},
                }
            }
            i = i + 1;
        }
    }
}


/// The offset a log starts a frame with: the end when following it, else
/// the stored offset capped at `max`.
pub open spec fn log_start_offset(s: &RichLogState, max: int) -> int {
    if s.auto_scroll && s.scroll_offset == usize::MAX { max } else { min_int(s.scroll_offset as int, max) }
}

/// The offset once a log has handled its keys (when focused) and wheel.
pub open spec fn log_offset(c: Context, s: &RichLogState, focused: bool, id: int) -> int {
    let h = if c.spec_response_for(id).rect.height > 0 { c.spec_response_for(id).rect.height as int } else { c.area_height as int };
    let len = s.entries@.len() as int;
    let (visible, show) = log_rows(h, len);
    let max = sub0(len, visible);
    log_after_input(c, log_start_offset(s, max), max, focused, id)
}


/// The offset once a log has handled its keys (when focused) and the wheel
/// over slot `id`, from `off0` within `[0, max]`.
pub open spec fn log_after_input(c: Context, off0: int, max: int, focused: bool, id: int) -> int {
    let off1 = if focused { log_keys(c.events@, c.consumed@, c.events@.len() as nat, off0, max) } else { off0 };
    let claimed = Seq::new(c.consumed@.len(), |i: int| c.consumed@[i] || (focused && c.live_press_in(i, log_codes())));
    if 0 <= id < c.prev_hit_map@.len() {
        log_wheels(c.events@, claimed, c.events@.len() as nat, off1, max, c.prev_hit_map@[id], c.scroll_lines_per_event as int)
    } else {
        off1
    }
}

impl Context {
    /// A log's input handling: keys when focused, then the wheel.
    fn log_input(&mut self, off0: usize, max: usize, id: usize, focused: bool) -> (off: usize)
        requires
            old(self).wf(),
            off0 <= max,
        ensures
            final(self).wf(),
            off == log_after_input(*old(self), off0 as int, max as int, focused, id as int),
            off <= max,
            final(self).consumed@.len() == old(self).consumed@.len(),
            forall|i: int| 0 <= i < final(self).consumed@.len() ==> #[trigger] final(self).consumed@[i]
                == (old(self).consumed@[i] || (focused && old(self).live_press_in(i, log_codes()))
                    || (0 <= id < old(self).prev_hit_map@.len() && wheel_over(old(self).events@[i], old(self).prev_hit_map@[id as int]))),
            *final(self) == (Context { consumed: final(self).consumed, ..*old(self) }),
    {
        let mut off = off0;
        if focused {
            self.log_handle_keys(&mut off, max);
            proof {
                lemma_log_keys_bound(old(self).events@, old(self).consumed@, old(self).events@.len() as nat, off0 as int,
                    max as int);
            }
        }
        proof {
            assert(self.consumed@ =~= Seq::new(old(self).consumed@.len(), |i: int| old(self).consumed@[i]
                || (focused && old(self).live_press_in(i, log_codes()))));
        }
        if id < self.prev_hit_map.len() {
            let rect = self.prev_hit_map[id];
            self.log_handle_wheel(&mut off, max, rect);
        }
        off
    }
}

impl Context {
    /// Draw log lines `start..end` in a bordered column, with the position
    /// line when `show`.
    fn log_render(&mut self, state: &RichLogState, start: usize, end: usize, show: bool)
        requires
            old(self).wf(),
            start <= end <= state.entries@.len(),
        ensures
            final(self).wf(),
            ({
                let n = old(self).commands@.len() as int;
                let c = final(self).commands@;
                let k = end - start;
                let t = old(self).theme;
                &&& c.take(n) == old(self).commands@
                &&& c[n] == Command::BeginContainer(log_box(t.border))
                &&& forall|j: int| 0 <= j < k ==> is_log_line(#[trigger] c[n + 1 + j], state.entries@[start + j])
                &&& if show {
                    &&& c.len() == n + k + 3
                    &&& is_plain_text(c[n + 1 + k], log_position(start as int, end as int, state.entries@.len() as int),
                        with_mods(fg_style(t.text_dim), DIM))
                } else {
                    c.len() == n + k + 2
                }
                &&& c.last() == Command::EndContainer
            }),
            *final(self) == (Context { commands: final(self).commands, last_text_idx: None, ..*old(self) }),
    {
        let t = self.theme;
        let ghost n = self.commands@.len() as int;
        let _ = self.commands.len();
        let args = ContainerArgs { border: Some(Border::Single), ..plain_container_args(Direction::Column, 0, t.border) };
        self.begin_container(args);
        let mut j = start;
        while j < end
            invariant
                self.wf(),
                start <= j <= end <= state.entries@.len(),
                n == old(self).commands@.len(),
                t == old(self).theme,
                self.commands@.len() == n + 1 + (j - start),
                self.commands@.take(n) == old(self).commands@,
                self.commands@[n] == Command::BeginContainer(log_box(t.border)),
                forall|q: int| 0 <= q < j - start ==> is_log_line(#[trigger] self.commands@[n + 1 + q], state.entries@[start + q]),
                *self == (Context { commands: self.commands, last_text_idx: self.last_text_idx, ..*old(self) }),
            decreases end - j,
        {
            let ghost before = self.commands@;
            let segments = copy_runs(&state.entries[j].segments);
            self.commands.push(Command::RichText {
                segments,
                wrap: false,
                align: Align::Start,
                margin: Margin::zero(),
                constraints: Constraints::none(),
            });
            proof {
                assert(self.commands@.drop_last() =~= before);
                assert forall|q: int| 0 <= q < before.len() implies self.commands@[q] == before[q] by {}
                assert forall|q: int| 0 <= q < j + 1 - start implies is_log_line(#[trigger] self.commands@[n + 1 + q],
                    state.entries@[start + q]) by {
                    if q < j - start {
                        assert(self.commands@[n + 1 + q] == before[n + 1 + q]);
                    } else {
                        assert(self.commands@[n + 1 + q] == self.commands@.last());
                    }
                }
                assert(self.commands@.take(n) =~= old(self).commands@) by {
                    assert forall|q: int| 0 <= q < n implies self.commands@[q] == old(self).commands@[q] by {
                        assert(before.take(n)[q] == before[q]);
                    }
                }
            }
            j = j + 1;
        }
        let ghost lines = self.commands@;
        if show {
            let mut line = String::new();
            push_decimal(&mut line, start as u128 + 1);
            line.append("-");
            push_decimal(&mut line, end as u128);
            line.append(" / ");
            push_decimal(&mut line, state.entries.len() as u128);
            proof {
                reveal_strlit("-");
                reveal_strlit(" / ");
                assert(line@ =~= log_position(start as int, end as int, state.entries@.len() as int));
                crate::style::lemma_single_flags();
            }
            let ghost before = self.commands@;
            self.styled(line.as_str(), Style::new().dim().fg(t.text_dim));
            proof {
                assert(self.commands@.drop_last() == before);
                assert forall|q: int| 0 <= q < end - start implies is_log_line(#[trigger] self.commands@[n + 1 + q],
                    state.entries@[start + q]) by {
                    assert(self.commands@.drop_last()[n + 1 + q] == self.commands@[n + 1 + q]);
                }
                assert(self.commands@.drop_last()[n] == self.commands@[n]);
                assert forall|q: int| 0 <= q < before.len() implies self.commands@[q] == before[q] by {
                    assert(self.commands@.drop_last()[q] == self.commands@[q]);
                }
                assert(self.commands@.take(n) =~= old(self).commands@) by {
                    assert forall|q: int| 0 <= q < n implies self.commands@[q] == old(self).commands@[q] by {
                        assert(before.take(n)[q] == before[q]);
                    }
                }
            }
        }
        let ghost body = self.commands@;
        self.end_container();
        proof {
            let k = end - start;
            assert(self.commands@.drop_last() == body);
            assert(body.len() >= n + 1 + k);
            assert forall|q: int| 0 <= q < k implies is_log_line(#[trigger] self.commands@[n + 1 + q],
                state.entries@[start + q]) by {
                assert(self.commands@[n + 1 + q] == body[n + 1 + q]);
            }
            assert(self.commands@[n] == body[n]);
            if show {
                assert(self.commands@[n + 1 + k] == body[n + 1 + k]);
                assert(body[n + 1 + k] == body.last());
            }
            assert forall|q: int| 0 <= q < body.len() implies self.commands@[q] == body[q] by {
                assert(self.commands@.drop_last()[q] == self.commands@[q]);
            }
            assert(self.commands@.take(n) =~= old(self).commands@) by {
                assert forall|q: int| 0 <= q < n implies self.commands@[q] == old(self).commands@[q] by {
                    assert(body.take(n)[q] == body[q]);
                }
            }
        }
    }

    /// A scrolling log: the lines that fit inside a border, from the scroll
    /// offset (or the end, while following it), with `first-last / total`
    /// when not all fit. When focused, Up/`k`, Down/`j`, PageUp, PageDown,
    /// Home and End scroll; the wheel over the log scrolls too. The response
    /// is changed when the offset moved.
    #[verifier::rlimit(100)]
    #[verifier::spinoff_prover]
    pub fn rich_log(&mut self, state: &mut RichLogState) -> (r: Response)
        requires
            old(self).wf(),
        ensures
            final(self).wf(),
            final(state).entries == old(state).entries,
            final(state).auto_scroll == old(state).auto_scroll,
            ({
                let focused = old(self).next_focusable_is_focused();
                let id = old(self).interaction_count as int;
                let base = old(self).spec_response_for(id);
                let h = if base.rect.height > 0 { base.rect.height as int } else { old(self).area_height as int };
                let len = old(state).entries@.len() as int;
                let (visible, show) = log_rows(h, len);
                let max = sub0(len, visible);
                let off = log_offset(*old(self), old(state), focused, id);
                let end = min_int(off + visible, len);
                let n = old(self).commands@.len() as int;
                let m = if focused { 1int } else { 0int };
                let c = final(self).commands@;
                &&& final(state).scroll_offset == off
                &&& 0 <= off <= max
                &&& final(self).consumed@.len() == old(self).consumed@.len()
                &&& forall|i: int| 0 <= i < final(self).consumed@.len() ==> #[trigger] final(self).consumed@[i]
                    == (old(self).consumed@[i] || (focused && old(self).live_press_in(i, log_codes()))
                        || (0 <= id < old(self).prev_hit_map@.len() && wheel_over(old(self).events@[i], old(self).prev_hit_map@[id])))
                &&& r == Response { focused, changed: off != log_start_offset(old(state), max), ..base }
                &&& c.take(n) == old(self).commands@
                &&& (focused ==> c[n] == Command::FocusMarker(old(self).focus_count))
                &&& c[n + m] == Command::InteractionMarker(id as usize)
                &&& c[n + m + 1] == Command::BeginContainer(log_box(old(self).theme.border))
                &&& forall|j: int| 0 <= j < end - off ==> is_log_line(#[trigger] c[n + m + 2 + j], old(state).entries@[off + j])
                &&& (show ==> is_plain_text(c[n + m + 2 + end - off], log_position(off, end, len),
                    with_mods(fg_style(old(self).theme.text_dim), DIM)))
                &&& c.len() == n + m + 3 + (end - off) + (if show { 1int } else { 0 })
                &&& c.last() == Command::EndContainer
                &&& *final(self) == (Context {
                    commands: final(self).commands,
                    consumed: final(self).consumed,
                    focus_count: sat_inc_usize(old(self).focus_count),
                    interaction_count: sat_inc_usize(old(self).interaction_count),
                    last_text_idx: None,
                    ..*old(self)
                })
            }),
    {
        let id = self.interaction_count;
        let (focused, base) = self.open_control();
        let ghost opened = *self;
        let height: usize = if base.rect.height > 0 { base.rect.height as usize } else { self.area_height as usize };
        let len = state.len();
        let (visible, show) = log_rows_exec(height, len);
        let max_off = sub0_exec(len, visible);
        let mut off: usize = if state.auto_scroll && state.scroll_offset == usize::MAX { max_off } else {
            min_exec(state.scroll_offset, max_off) };
        let old_off = off;
        proof {
            assert(old_off == log_start_offset(old(state), max_off as int));
        }
        let ghost before_input = *self;
        off = self.log_input(off, max_off, id, focused);
        proof {
            let c0 = *old(self);
            let c1 = before_input;
            assert(c1.events == c0.events && c1.consumed == c0.consumed && c1.prev_hit_map == c0.prev_hit_map
                && c1.scroll_lines_per_event == c0.scroll_lines_per_event);
            assert(Seq::new(c1.consumed@.len(), |i: int| c1.consumed@[i] || (focused && c1.live_press_in(i, log_codes())))
                =~= Seq::new(c0.consumed@.len(), |i: int| c0.consumed@[i] || (focused && c0.live_press_in(i, log_codes()))));
            assert(log_after_input(c1, old_off as int, max_off as int, focused, id as int)
                == log_after_input(c0, old_off as int, max_off as int, focused, id as int));
        }
        proof {
            assert(off as int == log_offset(*old(self), old(state), focused, id as int));
        }
        state.scroll_offset = off;
        let end = min_exec(off + visible, len);
        proof {
            assert(off <= max_off);
        }
        let ghost before_render = *self;
        self.log_render(state, off, end, show);
        proof {
            let m = if focused { 1int } else { 0int };
            let n = old(self).commands@.len() as int;
            let nb = before_render.commands@.len() as int;
            assert(nb == n + m + 1);
            assert forall|k: int| 0 <= k < nb implies self.commands@[k] == before_render.commands@[k] by {
                assert(self.commands@.take(nb)[k] == before_render.commands@[k]);
            }
            assert(self.commands@.take(n) =~= old(self).commands@) by {
                assert forall|k: int| 0 <= k < n implies self.commands@[k] == old(self).commands@[k] by {
                    assert(before_render.commands@[k] == opened.commands@[k]);
                    if focused {
                        assert(opened.commands@[k] == old(self).commands@.push(Command::FocusMarker(old(self).focus_count))[k]);
                    } else {
                        assert(opened.commands@[k] == old(self).commands@.push(Command::InteractionMarker(old(self).interaction_count))[k]);
                    }
                }
            }
            assert(self.commands@[n + m] == before_render.commands@[n + m]);
            if focused {
                assert(self.commands@[n] == before_render.commands@[n]);
            }
        }
        let changed = off != old_off;
        proof {
            let m = if focused { 1int } else { 0int };
            let n = old(self).commands@.len() as int;
            assert(state.scroll_offset == off);
            assert(state.entries == old(state).entries);
            assert(height as int == (if base.rect.height > 0 { base.rect.height as int } else { old(self).area_height as int }));
            assert(self.commands@[n + m + 1] == Command::BeginContainer(log_box(old(self).theme.border)));
            let nb = before_render.commands@.len() as int;
            assert forall|j: int| 0 <= j < end - off implies is_log_line(#[trigger] self.commands@[n + m + 2 + j],
                old(state).entries@[off + j]) by {
                assert(is_log_line(self.commands@[nb + 1 + j], state.entries@[off + j]));
                assert(nb + 1 + j == n + m + 2 + j);
            }
        }
        Response { focused, changed, ..base }
    }
}


/// A log's scroll keys: Up/`k` and Down/`j` move one line, PageUp and
/// PageDown ten, Home and End to either end, always within `[0, max]`;
/// Up undoes Down away from the end.
pub proof fn lemma_log_scroll_keys(off: int, max: int)
    requires
        0 <= off <= max,
    ensures
        log_key(off, max, KeyCode::Down) == (if off + 1 < max { off + 1 } else { max }),
        log_key(off, max, KeyCode::Up) == (if off > 1 { off - 1 } else { 0 }),
        log_key(off, max, KeyCode::PageDown) == (if off + 10 < max { off + 10 } else { max }),
        log_key(off, max, KeyCode::PageUp) == (if off > 10 { off - 10 } else { 0 }),
        log_key(off, max, KeyCode::Home) == 0,
        log_key(off, max, KeyCode::End) == max,
        off < max ==> log_key(log_key(off, max, KeyCode::Down), max, KeyCode::Up) == off,
{
}

} // verus!
