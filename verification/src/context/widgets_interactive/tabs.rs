//! Tab bars: a row of labels, one active, switched by arrow keys or clicks.
use vstd::prelude::*;
use crate::command::Command;
use crate::context::{no_response, plain_container, plain_container_args, rect_hit_left_down, Context, Response};
use crate::context::widgets_display::text::is_plain_text;
use crate::context::widgets_interactive::collections::{click_rect, or_else, views_of, ListState, WidgetColors};
use crate::context::widgets_interactive::selection::sat_inc_usize;
use crate::event::{Event, KeyCode, KeyEventKind, MouseButton, MouseKind};
use crate::style::{Direction, Modifiers, Rect, Style, Theme, BOLD, UNDERLINE};
use crate::unicode::{str_width, text_width};

verus! {

/// The labels of a tab bar and which tab is active.
pub struct TabsState {
    pub labels: Vec<String>,
    /// Index of the active tab.
    pub selected: usize,
}

impl TabsState {
    /// The labels as character sequences.
    pub open spec fn label_views(&self) -> Seq<Seq<char>> {
        views_of(self.labels@)
    }

    /// A tab bar over `labels` with the first tab active.
    pub fn new(labels: Vec<&str>) -> (s: TabsState)
        ensures
            s.label_views() == Seq::new(labels@.len(), |i: int| labels@[i]@),
            s.selected == 0,
    {
        let l = ListState::new(labels);
        TabsState { labels: l.items, selected: 0 }
    }
}

/// The active tab after one key: Left steps back and wraps to the last tab,
/// Right steps forward and wraps to the first; other keys leave it.
pub open spec fn tab_step(sel: int, len: int, code: KeyCode) -> int {
    match code {
        KeyCode::Left => if sel == 0 { len - 1 } else { sel - 1 },
        KeyCode::Right => (sel + 1) % len,
        _ => sel,
    }
}

/// The keys a focused tab bar claims.
pub open spec fn tab_codes() -> Seq<KeyCode> {
    seq![KeyCode::Left, KeyCode::Right]
}

/// The active tab after the unclaimed key presses among the first `n` events.
pub open spec fn tab_keys(events: Seq<Event>, consumed: Seq<bool>, n: nat, sel: int, len: int) -> int
    decreases n,
{
    if n == 0 {
        sel
    } else {
        let prev = tab_keys(events, consumed, (n - 1) as nat, sel, len);
        if consumed[n - 1] {
            prev
        } else {
            match events[n - 1] {
                Event::Key(k) => if k.kind == KeyEventKind::Press { tab_step(prev, len, k.code) } else { prev },
                _ => prev,
            }
        }
    }
}

/// Width in cells of the tab drawn for `label`: the label and its brackets.
pub open spec fn tab_width(label: Seq<char>) -> int {
    text_width(label) as int + 4
}

/// Column where tab `j` starts: the tabs before it, one cell apart.
pub open spec fn tab_start(labels: Seq<Seq<char>>, j: int) -> int
    decreases j,
{
    if j <= 0 { 0 } else { tab_start(labels, j - 1) + tab_width(labels[j - 1]) + 1 }
}

/// The tab under column `x`, looking from tab `j` on.
pub open spec fn tab_at(labels: Seq<Seq<char>>, x: int, j: int) -> Option<int>
    decreases labels.len() - j,
{
    if j < 0 || j >= labels.len() {
        None
    } else if tab_start(labels, j) <= x < tab_start(labels, j) + tab_width(labels[j]) {
        Some(j)
    } else {
        tab_at(labels, x, j + 1)
    }
}

/// Whether event `e` is a left click on a tab of a bar drawn at `rect`.
pub open spec fn tab_click(e: Event, rect: Rect, labels: Seq<Seq<char>>) -> Option<int> {
    if rect_hit_left_down(e, rect) { tab_at(labels, e->Mouse_0.x - rect.x, 0) } else { None }
}

/// The active tab after the unclaimed clicks among the first `n` events.
pub open spec fn tab_clicks(events: Seq<Event>, consumed: Seq<bool>, n: nat, sel: int, rect: Rect,
    labels: Seq<Seq<char>>) -> int
    decreases n,
{
    if n == 0 {
        sel
    } else {
        let prev = tab_clicks(events, consumed, (n - 1) as nat, sel, rect, labels);
        if consumed[n - 1] {
            prev
        } else {
            match tab_click(events[n - 1], rect, labels) {
                Some(j) => j,
                None => prev,
            }
        }
    }
}

/// The claimed flags once a tab bar has handled its keys.
pub open spec fn tabs_claimed(c: Context, focused: bool) -> Seq<bool> {
    Seq::new(c.consumed@.len(), |i: int| c.consumed@[i] || (focused && c.live_press_in(i, tab_codes())))
}

/// The active tab once a tab bar has handled its keys.
pub open spec fn tabs_keyed(c: Context, sel0: int, len: int, focused: bool) -> int {
    if focused { tab_keys(c.events@, c.consumed@, c.events@.len() as nat, sel0, len) } else { sel0 }
}

/// The active tab once a tab bar has also handled its clicks.
pub open spec fn tabs_clicked(c: Context, claimed: Seq<bool>, sel: int, id: int, labels: Seq<Seq<char>>) -> int {
    match click_rect(c, id) {
        None => sel,
        Some(rect) => tab_clicks(c.events@, claimed, c.events@.len() as nat, sel, rect, labels),
    }
}

/// Whether a tab bar's click handling claims event `i`.
pub open spec fn tab_click_claims(c: Context, claimed: Seq<bool>, i: int, id: int, labels: Seq<Seq<char>>) -> bool {
    match click_rect(c, id) {
        None => false,
        Some(rect) => !claimed[i] && tab_click(c.events@[i], rect, labels) is Some,
    }
}

/// Style of a tab.
pub open spec fn tab_style(t: Theme, colors: WidgetColors, active: bool, focused: bool) -> Style {
    if active {
        Style {
            fg: Some(or_else(colors.accent, t.primary)),
            bg: None,
            modifiers: Modifiers(if focused { BOLD | UNDERLINE } else { BOLD }),
        }
    } else {
        Style { fg: Some(or_else(colors.fg, t.text_dim)), bg: None, modifiers: Modifiers(0) }
    }
}

/// The text of a tab.
pub open spec fn tab_text(label: Seq<char>) -> Seq<char> {
    seq!['[', ' '] + label + seq![' ', ']']
}

/// Commands from `base` on are the tabs of a bar.
pub open spec fn tab_row(cmds: Seq<Command>, base: int, labels: Seq<Seq<char>>, sel: int, t: Theme,
    colors: WidgetColors, focused: bool) -> bool {
    forall|k: int| 0 <= k < labels.len() ==> is_plain_text(#[trigger] cmds[base + k], tab_text(labels[k]),
        tab_style(t, colors, k == sel, focused))
}


/// Tab starts only grow.
proof fn lemma_tab_start_grows(labels: Seq<Seq<char>>, i: int, j: int)
    requires
        0 <= i <= j,
    ensures
        tab_start(labels, i) <= tab_start(labels, j),
    decreases j - i,
{
    if i < j {
        lemma_tab_start_grows(labels, i, j - 1);
    }
}

/// No tab from `j` on lies under a column left of where tab `j` starts.
proof fn lemma_no_tab_before_start(labels: Seq<Seq<char>>, x: int, j: int)
    requires
        0 <= j,
        x < tab_start(labels, j),
    ensures
        tab_at(labels, x, j) is None,
    decreases labels.len() - j,
{
    if j < labels.len() {
        lemma_tab_start_grows(labels, j, j + 1);
        lemma_no_tab_before_start(labels, x, j + 1);
    }
}

/// The tab under column `x` of a bar over `labels`.
fn tab_hit(labels: &Vec<String>, x: u32) -> (r: Option<usize>)
    ensures
        match tab_at(views_of(labels@), x as int, 0) {
            None => r is None,
            Some(j) => r == Some(j as usize),
        },
{
    let ghost lv = views_of(labels@);
    let n = labels.len();
    let mut off: u128 = 0;
    let mut j: usize = 0;
    while j < n
        invariant
            n == labels@.len(),
            lv == views_of(labels@),
            j <= n,
            off == tab_start(lv, j as int),
            off <= x,
            tab_at(lv, x as int, 0) == tab_at(lv, x as int, j as int),
        decreases n - j,
    {
        let tw: u128 = str_width(labels[j].as_str()) as u128 + 4;
        if off <= x as u128 && (x as u128) < off + tw {
            return Some(j);
        }
        off = off + tw + 1;
        if off > x as u128 {
            proof {
                lemma_no_tab_before_start(lv, x as int, j + 1);
            }
            return None;
        }
        j = j + 1;
    }
    None
}

impl Context {
    /// Apply this frame's unclaimed key presses to the active tab among
    /// `len`, claiming Left and Right.
    fn tabs_handle_keys(&mut self, selected: &mut usize, len: usize)
        requires
            old(self).wf(),
            *old(selected) < len,
        ensures
            final(self).wf(),
            *final(selected) == tab_keys(old(self).events@, old(self).consumed@, old(self).events@.len() as nat,
                *old(selected) as int, len as int),
            *final(selected) < len,
            forall|i: int| 0 <= i < final(self).consumed@.len() ==> #[trigger] final(self).consumed@[i]
                == (old(self).consumed@[i] || old(self).live_press_in(i, tab_codes())),
            final(self).consumed@.len() == old(self).consumed@.len(),
            *final(self) == (Context { consumed: final(self).consumed, ..*old(self) }),
    {
        let n = self.events.len();
        let mut i: usize = 0;
        while i < n
            invariant
                n == self.events@.len(),
                i <= n,
                self.wf(),
                self.consumed@.len() == n,
                *selected < len,
                *self == (Context { consumed: self.consumed, ..*old(self) }),
                *selected == tab_keys(old(self).events@, old(self).consumed@, i as nat, *old(selected) as int, len as int),
                forall|j: int| 0 <= j < n ==> #[trigger] self.consumed@[j] == (old(self).consumed@[j]
                    || (j < i && old(self).live_press_in(j, tab_codes()))),
            decreases n - i,
        {
            if !self.consumed[i] {
                match &self.events[i] {
                    Event::Key(k) => {
                        if k.kind == KeyEventKind::Press {
                            proof {
                                let tc = tab_codes();
                                assert(tc[0] == KeyCode::Left);
                                assert(tc[1] == KeyCode::Right);
                                if tc.contains(k.code) {
                                    let w = choose|w: int| 0 <= w < tc.len() && tc[w] == k.code;
                                    assert(w == 0 || w == 1);
                                }
                            }
                            match k.code {
                                KeyCode::Left => {
                                    *selected = if *selected == 0 { len - 1 } else { *selected - 1 };
                                    self.consumed.set(i, true);
                                },
                                KeyCode::Right => {
                                    *selected = (*selected + 1) % len;
                                    self.consumed.set(i, true);
                                },
                                _ => {},
                            }
                        }
                    },
                    _ => {},
                }
            }
            i = i + 1;
        }
    }

    /// Apply this frame's unclaimed left clicks on the bar's previous
    /// rectangle, claiming the ones that land on a tab.
    fn tabs_handle_clicks(&mut self, selected: &mut usize, labels: &Vec<String>, id: usize)
        requires
            old(self).wf(),
            *old(selected) < labels@.len(),
        ensures
            final(self).wf(),
            *final(selected) < labels@.len(),
            match click_rect(*old(self), id as int) {
                None => *final(self) == *old(self) && *final(selected) == *old(selected),
                Some(rect) => {
                    &&& *final(selected) == tab_clicks(old(self).events@, old(self).consumed@,
                        old(self).events@.len() as nat, *old(selected) as int, rect, views_of(labels@))
                    &&& forall|i: int| 0 <= i < final(self).consumed@.len() ==> #[trigger] final(self).consumed@[i]
                        == (old(self).consumed@[i] || (old(self).live(i)
                            && tab_click(old(self).events@[i], rect, views_of(labels@)) is Some))
                    &&& final(self).consumed@.len() == old(self).consumed@.len()
                    &&& *final(self) == (Context { consumed: final(self).consumed, ..*old(self) })
                },
            },
    {
        if self.is_blocked() || id >= self.prev_hit_map.len() {
            return;
        }
        let ghost lv = views_of(labels@);
        let nl = labels.len();
        let rect = self.prev_hit_map[id];
        let n = self.events.len();
        let mut i: usize = 0;
        while i < n
            invariant
                n == self.events@.len(),
                i <= n,
                self.wf(),
                lv == views_of(labels@),
                nl == labels@.len(),
                self.consumed@.len() == n,
                *selected < labels@.len(),
                click_rect(*old(self), id as int) == Some(rect),
                *self == (Context { consumed: self.consumed, ..*old(self) }),
                *selected == tab_clicks(old(self).events@, old(self).consumed@, i as nat, *old(selected) as int, rect, lv),
                forall|j: int| 0 <= j < n ==> #[trigger] self.consumed@[j] == (old(self).consumed@[j]
                    || (j < i && old(self).live(j) && tab_click(old(self).events@[j], rect, lv) is Some)),
            decreases n - i,
        {
            if !self.consumed[i] {
                match &self.events[i] {
                    Event::Mouse(m) => {
                        if m.kind == MouseKind::Down(MouseButton::Left) && rect.contains(m.x, m.y) {
                            let hit = tab_hit(labels, m.x - rect.x);
                            proof {
                                assert(rect_hit_left_down(old(self).events@[i as int], rect));
                                assert(tab_click(old(self).events@[i as int], rect, lv) == tab_at(lv, (m.x - rect.x) as int, 0));
                                lemma_tab_at_in_range(lv, (m.x - rect.x) as int, 0);
                            }
                            match hit {
                                Some(j) => {
                                    assert(tab_at(lv, (m.x - rect.x) as int, 0) == Some(j as int)) by {
                                        let k = tab_at(lv, (m.x - rect.x) as int, 0)->Some_0;
                                        assert(0 <= k < lv.len());
                                        assert(hit == Some(k as usize));
                                    }
                                    *selected = j;
                                    self.consumed.set(i, true);
                                },
                                None => {
                                    assert(tab_click(old(self).events@[i as int], rect, lv) is None);
                                },
                            }
                        }
                    },
                    _ => {
                        assert(tab_click(old(self).events@[i as int], rect, lv) is None);
                    },
                }
            }
            proof {
                assert(tab_clicks(old(self).events@, old(self).consumed@, (i + 1) as nat, *old(selected) as int, rect, lv)
                    == (if old(self).consumed@[i as int] {
                        tab_clicks(old(self).events@, old(self).consumed@, i as nat, *old(selected) as int, rect, lv)
                    } else {
                        match tab_click(old(self).events@[i as int], rect, lv) {
                            Some(j) => j,
                            None => tab_clicks(old(self).events@, old(self).consumed@, i as nat, *old(selected) as int, rect, lv),
                        }
                    }));
            }
            i = i + 1;
        }
    }
}

/// A tab found under a column is one of the tabs.
proof fn lemma_tab_at_in_range(labels: Seq<Seq<char>>, x: int, j: int)
    ensures
        tab_at(labels, x, j) matches Some(k) ==> j <= k < labels.len(),
    decreases labels.len() - j,
{
    if 0 <= j < labels.len() {
        lemma_tab_at_in_range(labels, x, j + 1);
    }
}


/// The row a tab bar draws in.
pub open spec fn tab_bar(t: Theme, colors: WidgetColors) -> crate::command::ContainerArgs {
    plain_container(Direction::Row, #[verifier::truncate] (t.spacing.0 as i32), or_else(colors.border, t.border))
}

impl Context {
    /// Draw the tabs of a bar.
    fn tabs_render(&mut self, state: &TabsState, colors: &WidgetColors, focused: bool)
        requires
            old(self).wf(),
            old(self).commands@.len() + state.labels@.len() + 2 < usize::MAX,
        ensures
            final(self).wf(),
            ({
                let n0 = old(self).commands@.len() as int;
                let t = old(self).theme;
                let len = state.labels@.len() as int;
                &&& final(self).commands@.len() == n0 + len + 2
                &&& final(self).commands@.take(n0) == old(self).commands@
                &&& final(self).commands@[n0] == Command::BeginContainer(tab_bar(t, *colors))
                &&& tab_row(final(self).commands@, n0 + 1, state.label_views(), state.selected as int, t, *colors, focused)
                &&& final(self).commands@[n0 + len + 1] == Command::EndContainer
                &&& *final(self) == (Context { commands: final(self).commands, last_text_idx: None, ..*old(self) })
            }),
    {
        let t = self.theme;
        let border = match colors.border {
            Some(c) => c,
            None => t.border,
        };
        let ghost n0 = self.commands@.len();
        let gap = #[verifier::truncate] (t.spacing.xs() as i32);
        self.begin_container(plain_container_args(Direction::Row, gap, border));
        let ghost start = *self;
        let accent = match colors.accent { Some(c) => c, None => t.primary };
        let active_style = if focused { Style::new().fg(accent).bold().add_modifier(UNDERLINE) } else { Style::new().fg(accent).bold() };
        let plain_style = Style::new().fg(match colors.fg { Some(c) => c, None => t.text_dim });
        proof {
            crate::style::lemma_single_flags();
            reveal_strlit("[ ");
            reveal_strlit(" ]");
        }
        let len = state.labels.len();
        let mut k: usize = 0;
        while k < len
            invariant
                len == state.labels@.len(),
                k <= len,
                n0 + len + 2 < usize::MAX,
                self.wf(),
                self.commands@.len() == n0 + 1 + k,
                self.commands@.take(n0 + 1int) == start.commands@,
                start.commands@.take(n0 as int) == old(self).commands@,
                start.commands@[n0 as int] == Command::BeginContainer(tab_bar(t, *colors)),
                t == old(self).theme,
                active_style == tab_style(t, *colors, true, focused),
                plain_style == tab_style(t, *colors, false, focused),
                "[ "@ == seq!['[', ' '],
                " ]"@ == seq![' ', ']'],
                forall|j: int| 0 <= j < k ==> is_plain_text(#[trigger] self.commands@[n0 + 1 + j],
                    tab_text(state.label_views()[j]), tab_style(t, *colors, j == state.selected, focused)),
                *self == (Context { commands: self.commands, last_text_idx: self.last_text_idx, ..start }),
            decreases len - k,
        {
            let ghost before = self.commands@;
            let mut tab = String::new();
            tab.append("[ ");
            tab.append(state.labels[k].as_str());
            tab.append(" ]");
            proof {
                assert(tab@ =~= tab_text(state.label_views()[k as int]));
            }
            if k == state.selected {
                self.styled(tab.as_str(), active_style);
            } else {
                self.styled(tab.as_str(), plain_style);
            }
            proof {
                assert(self.commands@.drop_last() == before);
                assert forall|j: int| 0 <= j < k + 1 implies is_plain_text(#[trigger] self.commands@[n0 + 1 + j],
                    tab_text(state.label_views()[j]), tab_style(t, *colors, j == state.selected, focused)) by {
                    if j < k {
                        assert(self.commands@[n0 + 1 + j] == before[n0 + 1 + j]);
                    }
                }
                assert(self.commands@.take(n0 + 1int) =~= start.commands@) by {
                    assert forall|j: int| 0 <= j < n0 + 1 implies self.commands@[j] == before[j] by {}
                    assert(before.take(n0 + 1int) == start.commands@);
                }
            }
            k = k + 1;
        }
        let ghost body = self.commands@;
        self.end_container();
        proof {
            assert(self.commands@.drop_last() == body);
            assert forall|j: int| 0 <= j < len implies is_plain_text(#[trigger] self.commands@[n0 + 1 + j],
                tab_text(state.label_views()[j]), tab_style(t, *colors, j == state.selected, focused)) by {
                assert(self.commands@[n0 + 1 + j] == body[n0 + 1 + j]);
            }
            assert(self.commands@[n0 as int] == body[n0 as int]);
            assert(body[n0 as int] == start.commands@[n0 as int]);
            assert(self.commands@.take(n0 as int) =~= old(self).commands@) by {
                assert forall|j: int| 0 <= j < n0 implies self.commands@[j] == old(self).commands@[j] by {
                    assert(self.commands@[j] == body[j]);
                    assert(body[j] == start.commands@[j]);
                }
            }
        }
    }

    /// A tab bar in custom colors: `[ label ]` per tab, the active one in
    /// the accent color and bold (underlined when focused). When focused,
    /// Left and Right switch tabs, wrapping at either end; a click selects
    /// the tab under it. With no labels nothing is drawn and the first tab
    /// becomes the active one.
    #[verifier::rlimit(100)]
    #[verifier::spinoff_prover]
    pub fn tabs_colored(&mut self, state: &mut TabsState, colors: &WidgetColors) -> (r: Response)
        requires
            old(self).wf(),
            old(self).commands@.len() + old(state).labels@.len() + 4 < usize::MAX,
        ensures
            final(self).wf(),
            final(state).labels == old(state).labels,
            old(state).labels@.len() == 0 ==> {
                &&& *final(self) == *old(self)
                &&& final(state).selected == 0
                &&& r == no_response()
            },
            old(state).labels@.len() > 0 ==> {
                let len = old(state).labels@.len() as int;
                let sel0 = if old(state).selected < len { old(state).selected as int } else { len - 1 };
                let focused = old(self).next_focusable_is_focused();
                let id = old(self).interaction_count as int;
                let claimed = tabs_claimed(*old(self), focused);
                let sel = tabs_clicked(*old(self), claimed, tabs_keyed(*old(self), sel0, len, focused), id,
                    old(state).label_views());
                let m = if focused { 1int } else { 0int };
                let n0 = old(self).commands@.len() as int;
                let c = final(self).commands@;
                &&& final(state).selected == sel
                &&& r == Response { focused, changed: sel != sel0, ..old(self).spec_response_for(id) }
                &&& final(self).consumed@.len() == old(self).consumed@.len()
                &&& forall|i: int| 0 <= i < final(self).consumed@.len() ==> #[trigger] final(self).consumed@[i]
                    == (claimed[i] || tab_click_claims(*old(self), claimed, i, id, old(state).label_views()))
                &&& c.len() == n0 + m + len + 3
                &&& c.take(n0) == old(self).commands@
                &&& (focused ==> c[n0] == Command::FocusMarker(old(self).focus_count))
                &&& c[n0 + m] == Command::InteractionMarker(id as usize)
                &&& c[n0 + m + 1] == Command::BeginContainer(tab_bar(old(self).theme, *colors))
                &&& tab_row(c, n0 + m + 2, old(state).label_views(), sel, old(self).theme, *colors, focused)
                &&& c[n0 + m + 2 + len] == Command::EndContainer
                &&& *final(self) == (Context {
                    commands: final(self).commands,
                    consumed: final(self).consumed,
                    interaction_count: sat_inc_usize(old(self).interaction_count),
                    focus_count: sat_inc_usize(old(self).focus_count),
                    last_text_idx: None,
                    ..*old(self)
                })
            },
    {
        let len = state.labels.len();
        if len == 0 {
            state.selected = 0;
            return Response::none();
        }
        if state.selected >= len {
            state.selected = len - 1;
        }
        let old_selected = state.selected;
        let ghost n0 = self.commands@.len();
        let focused = self.register_focusable();
        let ghost registered = *self;
        let id = self.next_interaction_id();
        let base = self.response_for(id);
        let ghost opened = *self;
        if focused {
            self.tabs_handle_keys(&mut state.selected, len);
        }
        proof {
            assert(self.consumed@ =~= tabs_claimed(*old(self), focused));
        }
        let ghost keyed = *self;
        self.tabs_handle_clicks(&mut state.selected, &state.labels, id);
        proof {
            assert(click_rect(keyed, id as int) == click_rect(*old(self), id as int));
            assert forall|i: int| 0 <= i < self.consumed@.len() implies #[trigger] self.consumed@[i]
                == (tabs_claimed(*old(self), focused)[i] || tab_click_claims(*old(self),
                    tabs_claimed(*old(self), focused), i, id as int, state.label_views())) by {
                if click_rect(*old(self), id as int) is Some {
                    assert(keyed.live(i) == !tabs_claimed(*old(self), focused)[i]);
                }
            }
        }
        let ghost before_render = *self;
        self.tabs_render(state, colors, focused);
        proof {
            let m = if focused { 1int } else { 0int };
            let nb = before_render.commands@.len();
            assert(nb == n0 + m + 1);
            assert forall|k: int| 0 <= k < nb implies self.commands@[k] == before_render.commands@[k] by {
                assert(self.commands@.take(nb as int)[k] == before_render.commands@[k]);
            }
            assert(self.commands@.take(n0 as int) =~= old(self).commands@) by {
                assert forall|k: int| 0 <= k < n0 implies self.commands@[k] == old(self).commands@[k] by {
                    assert(before_render.commands@[k] == registered.commands@[k]);
                }
            }
            assert(self.commands@[n0 + m] == before_render.commands@[n0 + m]);
            if focused {
                assert(self.commands@[n0 as int] == before_render.commands@[n0 as int]);
            }
        }
        let changed = state.selected != old_selected;
        Response { focused, changed, ..base }
    }
}


impl Context {
    /// A tab bar in the theme's colors; see [`tabs_colored`](Self::tabs_colored).
    pub fn tabs(&mut self, state: &mut TabsState) -> (r: Response)
        requires
            old(self).wf(),
            old(self).commands@.len() + old(state).labels@.len() + 4 < usize::MAX,
        ensures
            final(self).wf(),
            final(state).labels == old(state).labels,
            old(state).labels@.len() == 0 ==> {
                &&& *final(self) == *old(self)
                &&& final(state).selected == 0
                &&& r == no_response()
            },
            old(state).labels@.len() > 0 ==> {
                let len = old(state).labels@.len() as int;
                let sel0 = if old(state).selected < len { old(state).selected as int } else { len - 1 };
                let focused = old(self).next_focusable_is_focused();
                let id = old(self).interaction_count as int;
                let claimed = tabs_claimed(*old(self), focused);
                let sel = tabs_clicked(*old(self), claimed, tabs_keyed(*old(self), sel0, len, focused), id,
                    old(state).label_views());
                let m = if focused { 1int } else { 0int };
                let n0 = old(self).commands@.len() as int;
                let c = final(self).commands@;
                let colors = WidgetColors { fg: None, bg: None, border: None, accent: None };
                &&& final(state).selected == sel
                &&& r == Response { focused, changed: sel != sel0, ..old(self).spec_response_for(id) }
                &&& final(self).consumed@.len() == old(self).consumed@.len()
                &&& forall|i: int| 0 <= i < final(self).consumed@.len() ==> #[trigger] final(self).consumed@[i]
                    == (claimed[i] || tab_click_claims(*old(self), claimed, i, id, old(state).label_views()))
                &&& c.len() == n0 + m + len + 3
                &&& c.take(n0) == old(self).commands@
                &&& (focused ==> c[n0] == Command::FocusMarker(old(self).focus_count))
                &&& c[n0 + m] == Command::InteractionMarker(id as usize)
                &&& c[n0 + m + 1] == Command::BeginContainer(tab_bar(old(self).theme, colors))
                &&& tab_row(c, n0 + m + 2, old(state).label_views(), sel, old(self).theme, colors, focused)
                &&& c[n0 + m + 2 + len] == Command::EndContainer
                &&& *final(self) == (Context {
                    commands: final(self).commands,
                    consumed: final(self).consumed,
                    interaction_count: sat_inc_usize(old(self).interaction_count),
                    focus_count: sat_inc_usize(old(self).focus_count),
                    last_text_idx: None,
                    ..*old(self)
                })
            },
    {
        let colors = WidgetColors::theme_default();
        self.tabs_colored(state, &colors)
    }
}

/// Right undoes Left and Left undoes Right: switching tabs wraps around
/// rather than sticking at either end.
pub proof fn lemma_tab_steps_undo(sel: int, len: int)
    requires
        0 <= sel < len,
    ensures
        tab_step(tab_step(sel, len, KeyCode::Left), len, KeyCode::Right) == sel,
        tab_step(tab_step(sel, len, KeyCode::Right), len, KeyCode::Left) == sel,
{
    if sel == 0 {
        assert((len - 1 + 1) % len == 0) by (nonlinear_arith) requires len > 0;
    } else {
        assert((sel - 1 + 1) % len == sel) by (nonlinear_arith) requires 0 < sel < len;
    }
    if sel + 1 < len {
        assert((sel + 1) % len == sel + 1) by (nonlinear_arith) requires 0 <= sel + 1 < len;
    } else {
        assert((sel + 1) % len == 0) by (nonlinear_arith) requires sel + 1 == len, len > 0;
    }
}

/// Arrow keys keep the active tab among the tabs.
pub proof fn lemma_tab_keys_in_range(events: Seq<Event>, consumed: Seq<bool>, n: nat, sel: int, len: int)
    requires
        0 <= sel < len,
        n <= events.len(),
        n <= consumed.len(),
    ensures
        0 <= tab_keys(events, consumed, n, sel, len) < len,
    decreases n,
{
    if n > 0 {
        lemma_tab_keys_in_range(events, consumed, (n - 1) as nat, sel, len);
        let prev = tab_keys(events, consumed, (n - 1) as nat, sel, len);
        assert(0 <= (prev + 1) % len < len) by (nonlinear_arith) requires 0 <= prev < len;
    }
}


/// How many unclaimed presses of `code` are among the first `n` events.
pub open spec fn press_count(events: Seq<Event>, consumed: Seq<bool>, n: nat, code: KeyCode) -> int
    decreases n,
{
    if n == 0 {
        0
    } else {
        press_count(events, consumed, (n - 1) as nat, code) + if !consumed[n - 1] && (events[n - 1] matches Event::Key(k)
            && k.kind == KeyEventKind::Press && k.code == code) { 1int } else { 0int }
    }
}

/// Whether every unclaimed event among the first `n` is a press of Left or
/// Right.
pub open spec fn only_arrows(events: Seq<Event>, consumed: Seq<bool>, n: nat) -> bool {
    forall|i: int| 0 <= i < n && !consumed[i] ==> (#[trigger] events[i] matches Event::Key(k)
        && k.kind == KeyEventKind::Press && (k.code == KeyCode::Left || k.code == KeyCode::Right))
}

/// Tabs wrap around: after `k` Right and `m` Left presses, in any order, the
/// active tab is `k - m` tabs on from where it was, counted around the bar.
pub proof fn lemma_tab_presses_wrap(events: Seq<Event>, consumed: Seq<bool>, n: nat, sel: int, len: int)
    requires
        0 <= sel < len,
        n <= events.len(),
        n <= consumed.len(),
        only_arrows(events, consumed, n),
    ensures
        tab_keys(events, consumed, n, sel, len) == (sel + press_count(events, consumed, n, KeyCode::Right)
            - press_count(events, consumed, n, KeyCode::Left)) % len,
    decreases n,
{
    if n == 0 {
        vstd::arithmetic::div_mod::lemma_fundamental_div_mod_converse(sel, len, 0, sel);
    } else {
        let m = (n - 1) as nat;
        assert(only_arrows(events, consumed, m));
        lemma_tab_presses_wrap(events, consumed, m, sel, len);
        lemma_tab_keys_in_range(events, consumed, m, sel, len);
        let a = sel + press_count(events, consumed, m, KeyCode::Right) - press_count(events, consumed, m, KeyCode::Left);
        let prev = tab_keys(events, consumed, m, sel, len);
        assert(prev == a % len);
        vstd::arithmetic::div_mod::lemma_fundamental_div_mod(a, len);
        let q = a / len;
        assert(a == len * q + prev);
        if !consumed[m as int] {
            assert(events[m as int] matches Event::Key(k) && k.kind == KeyEventKind::Press
                && (k.code == KeyCode::Left || k.code == KeyCode::Right));
            let k = events[m as int]->Key_0;
            if k.code == KeyCode::Right {
                if prev + 1 < len {
                    assert(a + 1 == q * len + (prev + 1)) by (nonlinear_arith) requires a == len * q + prev;
                    vstd::arithmetic::div_mod::lemma_fundamental_div_mod_converse(a + 1, len, q, prev + 1);
                    assert((prev + 1) % len == prev + 1) by {
                        vstd::arithmetic::div_mod::lemma_fundamental_div_mod_converse(prev + 1, len, 0, prev + 1);
                    }
                } else {
                    assert(a + 1 == (q + 1) * len + 0) by (nonlinear_arith) requires a == len * q + prev, prev + 1 == len;
                    vstd::arithmetic::div_mod::lemma_fundamental_div_mod_converse(a + 1, len, q + 1, 0);
                    vstd::arithmetic::div_mod::lemma_fundamental_div_mod_converse(prev + 1, len, 1, 0);
                }
            } else {
                if prev == 0 {
                    assert(a - 1 == (q - 1) * len + (len - 1)) by (nonlinear_arith) requires a == len * q + prev, prev == 0;
                    vstd::arithmetic::div_mod::lemma_fundamental_div_mod_converse(a - 1, len, q - 1, len - 1);
                } else {
                    assert(a - 1 == q * len + (prev - 1)) by (nonlinear_arith) requires a == len * q + prev;
                    vstd::arithmetic::div_mod::lemma_fundamental_div_mod_converse(a - 1, len, q, prev - 1);
                }
            }
        }
    }
}


/// Key events are no clicks: with nothing but key events unclaimed among the
/// first `n`, the clicks leave the active tab where it is.
proof fn lemma_keys_no_clicks(events: Seq<Event>, claimed: Seq<bool>, n: nat, sel: int, rect: Rect, labels: Seq<Seq<char>>)
    requires
        n <= events.len(),
        n <= claimed.len(),
        forall|i: int| 0 <= i < n && !claimed[i] ==> #[trigger] events[i] is Key,
    ensures
        tab_clicks(events, claimed, n, sel, rect, labels) == sel,
    decreases n,
{
    if n > 0 {
        lemma_keys_no_clicks(events, claimed, (n - 1) as nat, sel, rect, labels);
        if !claimed[n - 1] {
            assert(events[n - 1] is Key);
            assert(!rect_hit_left_down(events[n - 1], rect));
        }
    }
}

/// At a focused tab bar whose frame holds nothing unclaimed but Left and
/// Right presses, the active tab `tabs_colored` ends on is `k - m` tabs on
/// from where it started, counted around the bar, for `k` Right and `m`
/// Left presses in any order: no click moves it after the keys.
pub proof fn lemma_tab_bar_wrap(c: Context, sel0: int, len: int, id: int, labels: Seq<Seq<char>>)
    requires
        c.wf(),
        0 <= sel0 < len,
        only_arrows(c.events@, c.consumed@, c.events@.len() as nat),
    ensures
        tabs_clicked(c, tabs_claimed(c, true), tabs_keyed(c, sel0, len, true), id, labels)
            == (sel0 + press_count(c.events@, c.consumed@, c.events@.len() as nat, KeyCode::Right)
            - press_count(c.events@, c.consumed@, c.events@.len() as nat, KeyCode::Left)) % len,
{
    let n = c.events@.len() as nat;
    lemma_tab_presses_wrap(c.events@, c.consumed@, n, sel0, len);
    let claimed = tabs_claimed(c, true);
    assert forall|i: int| 0 <= i < n && !claimed[i] implies #[trigger] c.events@[i] is Key by {
        assert(!c.consumed@[i]);
    }
    match click_rect(c, id) {
        None => {},
        Some(rect) => {
            lemma_keys_no_clicks(c.events@, claimed, n, tabs_keyed(c, sel0, len, true), rect, labels);
        },
    }
}

} // verus!
