//! A page indicator that flips through pages of a list kept elsewhere.
use vstd::prelude::*;
use crate::command::Command;
use crate::context::{no_response, plain_container, plain_container_args, rect_hit_left_down, Context, Response};
use crate::context::widgets_display::text::{decimal, is_plain_text, push_decimal};
use crate::context::widgets_interactive::collections::{click_rect, or_else, WidgetColors};
use crate::context::widgets_interactive::selection::sat_inc_usize;
use crate::event::{Event, KeyCode, KeyEventKind, MouseButton, MouseKind};
use crate::style::{fg_style, with_mods, Direction, Rect, Style, Theme, BOLD};
use crate::unicode::{str_width, text_width};

verus! {

/// Past this many pages the dots give way to the counter.
pub const PAGINATOR_MAX_DOTS: usize = 12;

/// How a paginator shows its position.
#[derive(Debug, Clone, Copy, PartialEq, Eq, Structural)]
pub enum PaginatorStyle {
    /// `3/7`.
    Arabic,
    /// One dot per page, the current one filled.
    Dots,
}

/// The position within a list split into pages.
#[derive(Clone, Copy)]
pub struct PaginatorState {
    pub total_items: usize,
    pub per_page: usize,
    /// The current page, from 0.
    pub page: usize,
    pub style: PaginatorStyle,
}

/// The number of pages `total` items fill, `per` to a page (at least one).
pub open spec fn page_count(total: int, per: int) -> int {
    let p = if per < 1 { 1 } else { per };
    (total + p - 1) / p
}

impl PaginatorState {
    pub open spec fn pages(&self) -> int {
        page_count(self.total_items as int, self.per_page as int)
    }

    /// `total_items` items, `per_page` to a page, on the first page, shown
    /// as a counter.
    pub fn new(total_items: usize, per_page: usize) -> (s: Self)
        ensures
            s.total_items == total_items && s.per_page == per_page && s.page == 0,
            s.style == PaginatorStyle::Arabic,
    {
        PaginatorState { total_items, per_page, page: 0, style: PaginatorStyle::Arabic }
    }

    /// The number of pages.
    pub fn total_pages(&self) -> (r: usize)
        ensures
            r == self.pages(),
    {
        let p: usize = if self.per_page < 1 { 1 } else { self.per_page };
        let q = self.total_items / p;
        let rem = self.total_items % p;
        proof {
            let t = self.total_items as int;
            let pi = p as int;
            vstd::arithmetic::div_mod::lemma_fundamental_div_mod(t, pi);
            assert(t == pi * q + rem);
            assert((t / pi) * pi == pi * (t / pi)) by (nonlinear_arith);
            if rem == 0 {
                assert(t + pi - 1 == q * pi + (pi - 1));
                vstd::arithmetic::div_mod::lemma_fundamental_div_mod_converse(t + pi - 1, pi, q as int, pi - 1);
            } else {
                assert(t + pi - 1 == (q + 1) * pi + (rem - 1)) by (nonlinear_arith)
                    requires t == pi * q + rem;
                vstd::arithmetic::div_mod::lemma_fundamental_div_mod_converse(t + pi - 1, pi, q + 1, rem - 1);
                assert(q + 1 <= t) by (nonlinear_arith)
                    requires t == pi * q + rem, 1 <= rem < pi, q >= 0;
            }
        }
        let r = if rem == 0 { q } else { q + 1 };
        r
    }

    /// Go back a page, stopping at the first.
    pub fn prev_page(&mut self)
        ensures
            *final(self) == (PaginatorState { page: if old(self).page > 0 { (old(self).page - 1) as usize } else { 0 }, ..*old(self) }),
    {
        if self.page > 0 {
            self.page = self.page - 1;
        }
    }

    /// Go on a page, stopping at the last.
    pub fn next_page(&mut self)
        ensures
            *final(self) == (PaginatorState {
                page: if old(self).page + 1 < old(self).pages() { (old(self).page + 1) as usize } else { old(self).page },
                ..*old(self)
            }),
    {
        let total = self.total_pages();
        if self.page < total && self.page + 1 < total {
            self.page = self.page + 1;
        }
    }

    /// Go to page `p`, capped at the last.
    pub fn set_page(&mut self, p: usize)
        ensures
            *final(self) == (PaginatorState {
                page: if p as int <= old(self).pages() - 1 { p } else if old(self).pages() > 0 { (old(self).pages() - 1) as usize } else { 0 },
                ..*old(self)
            }),
    {
        let total = self.total_pages();
        let last = if total > 0 { total - 1 } else { 0 };
        self.page = if p <= last { p } else { last };
        proof {
            if old(self).pages() <= 0 {
                assert(last == 0);
            }
        }
    }

    /// The item range of the current page: its first item and one past its
    /// last.
    pub fn page_bounds(&self) -> (r: (usize, usize))
        ensures
            ({
                let p = if self.per_page < 1 { 1int } else { self.per_page as int };
                let start = self.page * p;
                let cap = |x: int| if x < self.total_items { x } else { self.total_items as int };
                r.0 == cap(start) && r.1 == cap(start + p)
            }),
    {
        let p: u128 = if self.per_page < 1 { 1 } else { self.per_page as u128 };
        proof {
            assert(self.page as u128 * p <= 0xffff_ffff_ffff_ffff * 0xffff_ffff_ffff_ffff) by (nonlinear_arith)
                requires self.page <= 0xffff_ffff_ffff_ffff, 1 <= p <= 0xffff_ffff_ffff_ffff;
        }
        let start: u128 = self.page as u128 * p;
        let end: u128 = start + p;
        let total = self.total_items as u128;
        let a = if start < total { start as usize } else { self.total_items };
        let b = if end < total { end as usize } else { self.total_items };
        (a, b)
    }
}


/// `s` a page back.
pub open spec fn page_back(s: PaginatorState) -> PaginatorState {
    PaginatorState { page: if s.page > 0 { (s.page - 1) as usize } else { 0 }, ..s }
}

/// `s` a page on.
pub open spec fn page_on(s: PaginatorState) -> PaginatorState {
    PaginatorState { page: if s.page + 1 < s.pages() { (s.page + 1) as usize } else { s.page }, ..s }
}

/// `s` on page `p`, capped at the last.
pub open spec fn page_at(s: PaginatorState, p: int) -> PaginatorState {
    PaginatorState {
        page: if p <= s.pages() - 1 { p as usize } else if s.pages() > 0 { (s.pages() - 1) as usize } else { 0 },
        ..s
    }
}

/// The keys a focused paginator claims.
pub open spec fn pager_codes() -> Seq<KeyCode> {
    seq![KeyCode::Left, KeyCode::Char('h'), KeyCode::PageUp, KeyCode::Right, KeyCode::Char('l'), KeyCode::PageDown]
}

/// One key press: Left/`h`/PageUp a page back, Right/`l`/PageDown a page on.
pub open spec fn pager_key(s: PaginatorState, code: KeyCode) -> PaginatorState {
    match code {
        KeyCode::Left | KeyCode::Char('h') | KeyCode::PageUp => page_back(s),
        KeyCode::Right | KeyCode::Char('l') | KeyCode::PageDown => page_on(s),
        _ => s,
    }
}

/// The unclaimed key presses among the first `n` events applied in order.
pub open spec fn pager_keys(events: Seq<Event>, consumed: Seq<bool>, n: nat, s: PaginatorState) -> PaginatorState
    decreases n,
{
    if n == 0 {
        s
    } else {
        let prev = pager_keys(events, consumed, (n - 1) as nat, s);
        if consumed[n - 1] {
            prev
        } else {
            match events[n - 1] {
                Event::Key(k) => if k.kind == KeyEventKind::Press { pager_key(prev, k.code) } else { prev },
                _ => prev,
            }
        }
    }
}

/// The counter text: the page (from 1), a slash, the page count.
pub open spec fn pager_label(page: int, total: int) -> Seq<char> {
    decimal((page + 1) as nat) + seq!['/'] + decimal(total as nat)
}

/// A left click at `(x, y)` in `rect`: on the first row, a dot picks its
/// page; on the counter, its left half goes back and its right half on.
pub open spec fn pager_click(s: PaginatorState, x: int, y: int, rect: Rect, dots: bool) -> Option<PaginatorState> {
    let rel = x - rect.x;
    if y != rect.y {
        None
    } else if dots {
        if rel < s.pages() { Some(page_at(s, rel)) } else { None }
    } else {
        let w = text_width(pager_label(s.page as int, s.pages())) as int;
        if rel < w { Some(if rel < w / 2 { page_back(s) } else { page_on(s) }) } else { None }
    }
}

/// The unclaimed left clicks in `rect` among the first `n` events, in order.
pub open spec fn pager_clicks(events: Seq<Event>, claimed: Seq<bool>, n: nat, s: PaginatorState, rect: Rect, dots: bool)
    -> PaginatorState
    decreases n,
{
    if n == 0 {
        s
    } else {
        let prev = pager_clicks(events, claimed, (n - 1) as nat, s, rect, dots);
        if claimed[n - 1] || !rect_hit_left_down(events[n - 1], rect) {
            prev
        } else {
            match pager_click(prev, events[n - 1]->Mouse_0.x as int, events[n - 1]->Mouse_0.y as int, rect, dots) {
                Some(next) => next,
                None => prev,
            }
        }
    }
}

/// Whether a paginator's click handling claims event `i`.
pub open spec fn pager_claims(events: Seq<Event>, claimed: Seq<bool>, i: int, s: PaginatorState, rect: Rect, dots: bool)
    -> bool {
    &&& !claimed[i]
    &&& rect_hit_left_down(events[i], rect)
    &&& pager_click(pager_clicks(events, claimed, i as nat, s, rect, dots), events[i]->Mouse_0.x as int,
        events[i]->Mouse_0.y as int, rect, dots) is Some
}

/// A page-count dot: filled for the current page in the accent color (bold
/// when focused), hollow in the text color otherwise.
pub open spec fn is_pager_dot(c: Command, t: Theme, colors: WidgetColors, current: bool, focused: bool) -> bool {
    if current {
        is_plain_text(c, seq!['●'], if focused { with_mods(fg_style(or_else(colors.accent, t.primary)), BOLD) }
            else { fg_style(or_else(colors.accent, t.primary)) })
    } else {
        is_plain_text(c, seq!['○'], fg_style(or_else(colors.fg, t.text_dim)))
    }
}

/// The row a paginator draws in.
pub open spec fn pager_row(t: Theme, colors: WidgetColors) -> crate::command::ContainerArgs {
    plain_container(Direction::Row, 0, or_else(colors.border, t.border))
}

/// Whether a paginator shows dots: asked for, and few enough pages.
pub open spec fn shows_dots(s: PaginatorState) -> bool {
    s.style == PaginatorStyle::Dots && s.pages() <= PAGINATOR_MAX_DOTS
}

/// The counter text as a string.
fn pager_label_exec(page: usize, total: usize) -> (r: String)
    ensures
        r@ == pager_label(page as int, total as int),
{
    let mut s = String::new();
    push_decimal(&mut s, page as u128 + 1);
    s.append("/");
    push_decimal(&mut s, total as u128);
    proof {
        reveal_strlit("/");
    }
    s
}

impl Context {
    /// Apply this frame's unclaimed key presses to a focused paginator.
    fn pager_handle_keys(&mut self, state: &mut PaginatorState)
        requires
            old(self).wf(),
        ensures
            final(self).wf(),
            *final(state) == pager_keys(old(self).events@, old(self).consumed@, old(self).events@.len() as nat, *old(state)),
            forall|i: int| 0 <= i < final(self).consumed@.len() ==> #[trigger] final(self).consumed@[i]
                == (old(self).consumed@[i] || old(self).live_press_in(i, pager_codes())),
            final(self).consumed@.len() == old(self).consumed@.len(),
            *final(self) == (Context { consumed: final(self).consumed, ..*old(self) }),
    {
        let n = self.events.len();
        let mut i: usize = 0;
        while i < n
            invariant
                n == self.events@.len(),
                i <= n,
                self.wf(),
                self.consumed@.len() == n,
                *self == (Context { consumed: self.consumed, ..*old(self) }),
                *state == pager_keys(old(self).events@, old(self).consumed@, i as nat, *old(state)),
                forall|j: int| 0 <= j < n ==> #[trigger] self.consumed@[j] == (old(self).consumed@[j]
                    || (j < i && old(self).live_press_in(j, pager_codes()))),
            decreases n - i,
        {
            if !self.consumed[i] {
                match &self.events[i] {
                    Event::Key(k) => {
                        if k.kind == KeyEventKind::Press {
                            let ghost pc = pager_codes();
                            let back = match k.code {
                                KeyCode::Left | KeyCode::PageUp => true,
                                KeyCode::Char(c) => c == 'h',
                                _ => false,
                            };
                            let on = match k.code {
                                KeyCode::Right | KeyCode::PageDown => true,
                                KeyCode::Char(c) => c == 'l',
                                _ => false,
                            };
                            proof {
                                if back {
                                    match k.code {
                                        KeyCode::Left => assert(pc[0] == k.code),
                                        KeyCode::PageUp => assert(pc[2] == k.code),
                                        _ => assert(pc[1] == k.code),
                                    }
                                } else if on {
                                    match k.code {
                                        KeyCode::Right => assert(pc[3] == k.code),
                                        KeyCode::PageDown => assert(pc[5] == k.code),
                                        _ => assert(pc[4] == k.code),
                                    }
                                } else if pc.contains(k.code) {
                                    let w = choose|w: int| 0 <= w < pc.len() && pc[w] == k.code;
                                    assert(0 <= w < 6);
                                }
                            }
                            if back {
                                state.prev_page();
                                self.consumed.set(i, true);
                            } else if on {
                                state.next_page();
                                self.consumed.set(i, true);
                            }
                        }
                    },
                    _ => {},
                }
            }
            i = i + 1;
        }
    }

    /// Apply this frame's unclaimed left clicks on slot `id`'s previous
    /// rectangle to a paginator.
    fn pager_handle_clicks(&mut self, state: &mut PaginatorState, id: usize, dots: bool)
        requires
            old(self).wf(),
        ensures
            final(self).wf(),
            match click_rect(*old(self), id as int) {
                None => *final(self) == *old(self) && *final(state) == *old(state),
                Some(rect) => {
                    &&& *final(state) == pager_clicks(old(self).events@, old(self).consumed@,
                        old(self).events@.len() as nat, *old(state), rect, dots)
                    &&& final(self).consumed@.len() == old(self).consumed@.len()
                    &&& forall|i: int| 0 <= i < final(self).consumed@.len() ==> #[trigger] final(self).consumed@[i]
                        == (old(self).consumed@[i] || pager_claims(old(self).events@, old(self).consumed@, i, *old(state), rect, dots))
                    &&& *final(self) == (Context { consumed: final(self).consumed, ..*old(self) })
                },
            },
    {
        if self.is_blocked() || id >= self.prev_hit_map.len() {
            return;
        }
        let rect = self.prev_hit_map[id];
        let n = self.events.len();
        let mut i: usize = 0;
        while i < n
            invariant
                n == self.events@.len(),
                i <= n,
                self.wf(),
                self.consumed@.len() == n,
                click_rect(*old(self), id as int) == Some(rect),
                *self == (Context { consumed: self.consumed, ..*old(self) }),
                *state == pager_clicks(old(self).events@, old(self).consumed@, i as nat, *old(state), rect, dots),
                forall|j: int| 0 <= j < n ==> #[trigger] self.consumed@[j] == (old(self).consumed@[j]
                    || (j < i && pager_claims(old(self).events@, old(self).consumed@, j, *old(state), rect, dots))),
            decreases n - i,
        {
            let ghost before = *state;
            if !self.consumed[i] {
                match &self.events[i] {
                    Event::Mouse(m) => {
                        if m.kind == MouseKind::Down(MouseButton::Left) && rect.contains(m.x, m.y) && m.y == rect.y {
                            let rel = m.x - rect.x;
                            let total = state.total_pages();
                            if dots {
                                if (rel as u128) < (total as u128) {
                                    state.set_page(rel as usize);
                                    self.consumed.set(i, true);
                                }
                            } else {
                                let label = pager_label_exec(state.page, total);
                                let w = str_width(label.as_str());
                                if (rel as u128) < (w as u128) {
                                    if (rel as u128) < (w / 2) as u128 {
                                        state.prev_page();
                                    } else {
                                        state.next_page();
                                    }
                                    self.consumed.set(i, true);
                                }
                            }
                        }
                    },
                    _ => {},
                }
            }
            proof {
                assert(pager_clicks(old(self).events@, old(self).consumed@, (i + 1) as nat, *old(state), rect, dots)
                    == (if old(self).consumed@[i as int] || !rect_hit_left_down(old(self).events@[i as int], rect) { before }
                        else {
                            match pager_click(before, old(self).events@[i as int]->Mouse_0.x as int,
                                old(self).events@[i as int]->Mouse_0.y as int, rect, dots) {
                                Some(next) => next,
                                None => before,
                            }
                        }));
            }
            i = i + 1;
        }
    }
}


/// The paginator for `s` drawn from `at` in `c`: its row, then a dot per
/// page or the counter, then the row's close.
pub open spec fn pager_drawn(c: Seq<Command>, at: int, s: PaginatorState, t: Theme, colors: WidgetColors, focused: bool)
    -> bool {
    &&& c[at] == Command::BeginContainer(pager_row(t, colors))
    &&& if shows_dots(s) {
        &&& c.len() == at + s.pages() + 2
        &&& forall|p: int| 0 <= p < s.pages() ==> is_pager_dot(#[trigger] c[at + 1 + p], t, colors, p == s.page, focused)
        &&& c[at + 1 + s.pages()] == Command::EndContainer
    } else {
        &&& c.len() == at + 3
        &&& is_plain_text(c[at + 1], pager_label(s.page as int, s.pages()), fg_style(or_else(colors.fg, t.text_dim)))
        &&& c[at + 2] == Command::EndContainer
    }
}

impl Context {
    fn pager_render(&mut self, state: &PaginatorState, colors: &WidgetColors, focused: bool)
        requires
            old(self).wf(),
        ensures
            final(self).wf(),
            final(self).commands@.take(old(self).commands@.len() as int) == old(self).commands@,
            pager_drawn(final(self).commands@, old(self).commands@.len() as int, *state, old(self).theme, *colors, focused),
            *final(self) == (Context { commands: final(self).commands, last_text_idx: None, ..*old(self) }),
    {
        let t = self.theme;
        let ghost n = self.commands@.len() as int;
        let _ = self.commands.len();
        let border = match colors.border { Some(c) => c, None => t.border };
        self.begin_container(plain_container_args(Direction::Row, 0, border));
        let total = state.total_pages();
        let dots = state.style == PaginatorStyle::Dots && total <= PAGINATOR_MAX_DOTS;
        if dots {
            let active = match colors.accent { Some(c) => c, None => t.primary };
            let inactive = match colors.fg { Some(c) => c, None => t.text_dim };
            proof {
                reveal_strlit("●");
                reveal_strlit("○");
                assert("●"@ =~= seq!['●']);
                assert("○"@ =~= seq!['○']);
                crate::style::lemma_single_flags();
            }
            let mut p: usize = 0;
            while p < total
                invariant
                    self.wf(),
                    p <= total,
                    total == state.pages(),
                    n == old(self).commands@.len(),
                    t == old(self).theme,
                    active == or_else(colors.accent, t.primary),
                    inactive == or_else(colors.fg, t.text_dim),
                    "●"@ == seq!['●'],
                    "○"@ == seq!['○'],
                    self.commands@.len() == n + 1 + p,
                    self.commands@.take(n) == old(self).commands@,
                    self.commands@[n] == Command::BeginContainer(pager_row(t, *colors)),
                    forall|q: int| 0 <= q < p ==> is_pager_dot(#[trigger] self.commands@[n + 1 + q], t, *colors, q == state.page,
                        focused),
                    *self == (Context { commands: self.commands, last_text_idx: self.last_text_idx, ..*old(self) }),
                decreases total - p,
            {
                let ghost before = self.commands@;
                if p == state.page {
                    let st = if focused { Style::new().fg(active).bold() } else { Style::new().fg(active) };
                    self.styled("●", st);
                } else {
                    self.styled("○", Style::new().fg(inactive));
                }
                proof {
                    assert(self.commands@.drop_last() == before);
                    assert forall|q: int| 0 <= q < before.len() implies self.commands@[q] == before[q] by {
                        assert(self.commands@.drop_last()[q] == self.commands@[q]);
                    }
                    assert(self.commands@.take(n) =~= old(self).commands@) by {
                        assert forall|q: int| 0 <= q < n implies self.commands@[q] == old(self).commands@[q] by {
                            assert(before.take(n)[q] == before[q]);
                        }
                    }
                    assert forall|q: int| 0 <= q < p + 1 implies is_pager_dot(#[trigger] self.commands@[n + 1 + q], t, *colors,
                        q == state.page, focused) by {
                        if q < p {
                            assert(self.commands@[n + 1 + q] == before[n + 1 + q]);
                        } else {
                            assert(self.commands@[n + 1 + q] == self.commands@.last());
                        }
                    }
                }
                p = p + 1;
            }
        } else {
            let label = pager_label_exec(state.page, total);
            let ghost before = self.commands@;
            self.styled(label.as_str(), Style::new().fg(match colors.fg { Some(c) => c, None => t.text_dim }));
            proof {
                assert(self.commands@.drop_last() == before);
                assert(self.commands@[n] == before[n]);
                assert(self.commands@.take(n) =~= old(self).commands@) by {
                    assert forall|q: int| 0 <= q < n implies self.commands@[q] == old(self).commands@[q] by {
                        assert(self.commands@.drop_last()[q] == self.commands@[q]);
                    }
                }
            }
        }
        let ghost body = self.commands@;
        self.end_container();
        proof {
            assert(self.commands@.drop_last() == body);
            assert forall|q: int| 0 <= q < body.len() implies self.commands@[q] == body[q] by {
                assert(self.commands@.drop_last()[q] == self.commands@[q]);
            }
            assert(self.commands@.take(n) =~= old(self).commands@) by {
                assert forall|q: int| 0 <= q < n implies self.commands@[q] == old(self).commands@[q] by {
                    assert(body.take(n)[q] == body[q]);
                }
            }
            if dots {
                assert forall|q: int| 0 <= q < state.pages() implies is_pager_dot(#[trigger] self.commands@[n + 1 + q], t,
                    *colors, q == state.page, focused) by {
                    assert(self.commands@[n + 1 + q] == body[n + 1 + q]);
                }
            } else {
                assert(self.commands@[n + 1] == body[n + 1]);
            }
        }
    }

    /// A paginator in custom colors: dots (one per page, when asked for and
    /// there are at most [`PAGINATOR_MAX_DOTS`] pages) or a `page/total`
    /// counter. When focused, Left/`h`/PageUp and Right/`l`/PageDown turn
    /// pages; a click on a dot goes to its page, on the counter's left or
    /// right half a page back or on. The response is changed when the page
    /// did.
    #[verifier::rlimit(100)]
    #[verifier::spinoff_prover]
    pub fn paginator_colored(&mut self, state: &mut PaginatorState, colors: &WidgetColors) -> (r: Response)
        requires
            old(self).wf(),
        ensures
            final(self).wf(),
            ({
                let focused = old(self).next_focusable_is_focused();
                let id = old(self).interaction_count as int;
                let base = old(self).spec_response_for(id);
                let s0 = page_at(*old(state), old(state).page as int);
                let s1 = if focused { pager_keys(old(self).events@, old(self).consumed@, old(self).events@.len() as nat, s0) }
                    else { s0 };
                let claimed = Seq::new(old(self).consumed@.len(), |i: int| old(self).consumed@[i]
                    || (focused && old(self).live_press_in(i, pager_codes())));
                let s2 = match click_rect(*old(self), id) {
                    None => s1,
                    Some(rect) => pager_clicks(old(self).events@, claimed, old(self).events@.len() as nat, s1, rect,
                        shows_dots(s1)),
                };
                let n = old(self).commands@.len() as int;
                let m = if focused { 1int } else { 0int };
                let c = final(self).commands@;
                &&& *final(state) == s2
                &&& r == Response { focused, changed: s2.page != s0.page, ..base }
                &&& final(self).consumed@.len() == old(self).consumed@.len()
                &&& forall|i: int| 0 <= i < final(self).consumed@.len() ==> #[trigger] final(self).consumed@[i]
                    == (claimed[i] || match click_rect(*old(self), id) {
                        None => false,
                        Some(rect) => pager_claims(old(self).events@, claimed, i, s1, rect, shows_dots(s1)),
                    })
                &&& c.take(n) == old(self).commands@
                &&& (focused ==> c[n] == Command::FocusMarker(old(self).focus_count))
                &&& c[n + m] == Command::InteractionMarker(id as usize)
                &&& pager_drawn(c, n + m + 1, s2, old(self).theme, *colors, focused)
                &&& *final(self) == (Context {
                    commands: final(self).commands,
                    consumed: final(self).consumed,
                    focus_count: sat_inc_usize(old(self).focus_count),
                    interaction_count: sat_inc_usize(old(self).interaction_count),
                    last_text_idx: None,
                    ..*old(self)
                })
            }),
    {
        let id = self.interaction_count;
        let total = state.total_pages();
        let last = if total > 0 { total - 1 } else { 0 };
        if state.page > last {
            state.page = last;
        }
        proof {
            assert(*state == page_at(*old(state), old(state).page as int));
        }
        let old_page = state.page;
        let (focused, base) = self.open_control();
        let ghost opened = *self;
        if focused {
            self.pager_handle_keys(state);
        }
        proof {
            assert(self.consumed@ =~= Seq::new(old(self).consumed@.len(), |i: int| old(self).consumed@[i]
                || (focused && old(self).live_press_in(i, pager_codes()))));
            assert(pager_keys(opened.events@, opened.consumed@, opened.events@.len() as nat, page_at(*old(state), old(state).page as int))
                == pager_keys(old(self).events@, old(self).consumed@, old(self).events@.len() as nat, page_at(*old(state), old(state).page as int)));
        }
        let ghost keyed = *self;
        let total_now = state.total_pages();
        let dots = state.style == PaginatorStyle::Dots && total_now <= PAGINATOR_MAX_DOTS;
        self.pager_handle_clicks(state, id, dots);
        proof {
            assert(click_rect(keyed, id as int) == click_rect(*old(self), id as int));
        }
        let ghost before_render = *self;
        self.pager_render(state, colors, focused);
        proof {
            let m = if focused { 1int } else { 0int };
            let n = old(self).commands@.len() as int;
            let nb = before_render.commands@.len() as int;
            assert(nb == n + m + 1);
            assert forall|k: int| 0 <= k < nb implies self.commands@[k] == before_render.commands@[k] by {
                assert(self.commands@.take(nb)[k] == before_render.commands@[k]);
            }
            assert(self.commands@.take(n) =~= old(self).commands@) by {
                assert forall|k: int| 0 <= k < n implies self.commands@[k] == old(self).commands@[k] by {
                    assert(before_render.commands@[k] == opened.commands@[k]);
                    if focused {
                        assert(opened.commands@[k] == old(self).commands@.push(Command::FocusMarker(old(self).focus_count))[k]);
                    } else {
                        assert(opened.commands@[k] == old(self).commands@.push(Command::InteractionMarker(old(self).interaction_count))[k]);
                    }
                }
            }
            assert(self.commands@[n + m] == before_render.commands@[n + m]);
            if focused {
                assert(self.commands@[n] == before_render.commands@[n]);
            }
        }
        let changed = state.page != old_page;
        Response { focused, changed, ..base }
    }

    /// A paginator in the theme's colors; see
    /// [`paginator_colored`](Self::paginator_colored).
    pub fn paginator(&mut self, state: &mut PaginatorState) -> (r: Response)
        requires
            old(self).wf(),
        ensures
            final(self).wf(),
            ({
                let focused = old(self).next_focusable_is_focused();
                let id = old(self).interaction_count as int;
                let base = old(self).spec_response_for(id);
                let s0 = page_at(*old(state), old(state).page as int);
                let s1 = if focused { pager_keys(old(self).events@, old(self).consumed@, old(self).events@.len() as nat, s0) }
                    else { s0 };
                let claimed = Seq::new(old(self).consumed@.len(), |i: int| old(self).consumed@[i]
                    || (focused && old(self).live_press_in(i, pager_codes())));
                let s2 = match click_rect(*old(self), id) {
                    None => s1,
                    Some(rect) => pager_clicks(old(self).events@, claimed, old(self).events@.len() as nat, s1, rect,
                        shows_dots(s1)),
                };
                let n = old(self).commands@.len() as int;
                let m = if focused { 1int } else { 0int };
                let c = final(self).commands@;
                let colors = WidgetColors { fg: None, bg: None, border: None, accent: None };
                &&& *final(state) == s2
                &&& r == Response { focused, changed: s2.page != s0.page, ..base }
                &&& final(self).consumed@.len() == old(self).consumed@.len()
                &&& forall|i: int| 0 <= i < final(self).consumed@.len() ==> #[trigger] final(self).consumed@[i]
                    == (claimed[i] || match click_rect(*old(self), id) {
                        None => false,
                        Some(rect) => pager_claims(old(self).events@, claimed, i, s1, rect, shows_dots(s1)),
                    })
                &&& c.take(n) == old(self).commands@
                &&& (focused ==> c[n] == Command::FocusMarker(old(self).focus_count))
                &&& c[n + m] == Command::InteractionMarker(id as usize)
                &&& pager_drawn(c, n + m + 1, s2, old(self).theme, colors, focused)
                &&& *final(self) == (Context {
                    commands: final(self).commands,
                    consumed: final(self).consumed,
                    focus_count: sat_inc_usize(old(self).focus_count),
                    interaction_count: sat_inc_usize(old(self).interaction_count),
                    last_text_idx: None,
                    ..*old(self)
                })
            }),
    {
        let colors = WidgetColors::theme_default();
        self.paginator_colored(state, &colors)
    }
}


/// Turning pages by keys keeps the page on an existing page (or on the
/// first when there are none).
pub proof fn lemma_pager_keys_in_range(events: Seq<Event>, consumed: Seq<bool>, n: nat, s: PaginatorState)
    requires
        s.page <= (if s.pages() > 0 { s.pages() - 1 } else { 0 }),
    ensures
        pager_keys(events, consumed, n, s).page <= (if s.pages() > 0 { s.pages() - 1 } else { 0 }),
        pager_keys(events, consumed, n, s).pages() == s.pages(),
    decreases n,
{
    if n > 0 {
        lemma_pager_keys_in_range(events, consumed, (n - 1) as nat, s);
    }
}


/// Right/`l`/PageDown turn one page on (staying on the last page) and
/// Left/`h`/PageUp one page back (staying on the first); nothing else
/// changes, and a page back undoes a page on.
pub proof fn lemma_pager_one_page(s: PaginatorState)
    requires
        s.page < s.pages(),
    ensures
        pager_key(s, KeyCode::Right).page == (if s.page + 1 < s.pages() { s.page + 1 } else { s.page as int }),
        pager_key(s, KeyCode::Left).page == (if s.page > 0 { s.page - 1 } else { 0 }),
        pager_key(s, KeyCode::PageDown) == pager_key(s, KeyCode::Right),
        pager_key(s, KeyCode::Char('l')) == pager_key(s, KeyCode::Right),
        pager_key(s, KeyCode::PageUp) == pager_key(s, KeyCode::Left),
        pager_key(s, KeyCode::Char('h')) == pager_key(s, KeyCode::Left),
        pager_key(s, KeyCode::Right).total_items == s.total_items && pager_key(s, KeyCode::Right).per_page == s.per_page,
        s.page + 1 < s.pages() ==> pager_key(pager_key(s, KeyCode::Right), KeyCode::Left) == s,
{
    let t = s.total_items as int;
    let p: int = if (s.per_page as int) < 1 { 1 } else { s.per_page as int };
    assert((t + p - 1) / p <= t + 1) by (nonlinear_arith)
        requires
            p >= 1,
            t >= 0,
    {
        assert(t + p - 1 <= (t + 1) * p);
    }
}

} // verus!
