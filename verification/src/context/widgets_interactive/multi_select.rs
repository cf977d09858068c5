//! Checklists: several options picked at once, by keyboard or click.
use vstd::prelude::*;
use crate::command::Command;
use crate::context::{no_response, plain_container_args, rect_hit_left_down, Context, Response};
use crate::context::widgets_display::text::is_plain_text;
use crate::context::widgets_interactive::collections::{click_rect, handle_vertical_nav, list_column, nav_step, views_of,
    ListState, WidgetColors};
use crate::context::widgets_interactive::selection::sat_inc_usize;
use crate::event::{Event, KeyCode, KeyEventKind, MouseButton, MouseKind};
use crate::style::{fg_style, with_mods, Direction, Style, Theme, BOLD};

verus! {

/// The options of a checklist, which are picked, and the keyboard cursor.
pub struct MultiSelectState {
    pub items: Vec<String>,
    /// `selected[i]` is set when option `i` is picked; as long as `items`.
    pub selected: Vec<bool>,
    /// Index of the option the cursor is on.
    pub cursor: usize,
}

impl MultiSelectState {
    /// Whether `selected` has one flag per option.
    pub open spec fn wf(&self) -> bool {
        self.selected@.len() == self.items@.len()
    }

    pub open spec fn item_views(&self) -> Seq<Seq<char>> {
        views_of(self.items@)
    }

    /// A checklist of `items`, none picked, the cursor on the first.
    pub fn new(items: Vec<&str>) -> (s: Self)
        ensures
            s.wf(),
            s.item_views() == Seq::new(items@.len(), |i: int| items@[i]@),
            forall|i: int| 0 <= i < s.selected@.len() ==> !s.selected@[i],
            s.cursor == 0,
    {
        let l = ListState::new(items);
        let n = l.items.len();
        let mut selected: Vec<bool> = Vec::new();
        let mut k: usize = 0;
        while k < n
            invariant
                k <= n,
                selected@.len() == k,
                forall|i: int| 0 <= i < k ==> !selected@[i],
            decreases n - k,
        {
            selected.push(false);
            k = k + 1;
        }
        MultiSelectState { items: l.items, selected, cursor: 0 }
    }

    /// The number of options.
    pub fn len(&self) -> (r: usize)
        ensures
            r == self.items@.len(),
    {
        self.items.len()
    }

    /// Whether there are no options.
    pub fn is_empty(&self) -> (r: bool)
        ensures
            r == (self.items@.len() == 0),
    {
        self.items.len() == 0
    }

    /// Pick option `i` when it is not picked, else unpick it.
    pub fn toggle(&mut self, i: usize)
        requires
            old(self).wf(),
        ensures
            final(self).wf(),
            final(self).items == old(self).items,
            final(self).cursor == old(self).cursor,
            final(self).selected@ == if i < old(self).selected@.len() {
                old(self).selected@.update(i as int, !old(self).selected@[i as int]) } else { old(self).selected@ },
    {
        if i < self.selected.len() {
            let v = self.selected[i];
            self.selected.set(i, !v);
        }
    }
}

/// Cursor and picks after one key press: Up/`k` and Down/`j` move the
/// cursor, Space and Enter flip the pick under it.
pub open spec fn checklist_key(st: (int, Seq<bool>), code: KeyCode) -> (int, Seq<bool>) {
    let (cur, sel) = st;
    match code {
        KeyCode::Enter | KeyCode::Char(' ') => (cur, if 0 <= cur < sel.len() { sel.update(cur, !sel[cur]) } else { sel }),
        _ => (nav_step(cur, sel.len() - 1, code), sel),
    }
}

/// The keys a focused checklist claims.
pub open spec fn checklist_codes() -> Seq<KeyCode> {
    seq![KeyCode::Up, KeyCode::Char('k'), KeyCode::Down, KeyCode::Char('j'), KeyCode::Char(' '), KeyCode::Enter]
}

/// The unclaimed key presses among the first `n` events applied in order.
pub open spec fn checklist_keys(events: Seq<Event>, consumed: Seq<bool>, n: nat, st: (int, Seq<bool>)) -> (int, Seq<bool>)
    decreases n,
{
    if n == 0 {
        st
    } else {
        let prev = checklist_keys(events, consumed, (n - 1) as nat, st);
        if consumed[n - 1] {
            prev
        } else {
            match events[n - 1] {
                Event::Key(k) => if k.kind == KeyEventKind::Press { checklist_key(prev, k.code) } else { prev },
                _ => prev,
            }
        }
    }
}

/// The unclaimed left clicks on `rect` among the first `n` events: a click
/// on an option's row flips its pick and moves the cursor there.
pub open spec fn checklist_clicks(events: Seq<Event>, claimed: Seq<bool>, n: nat, st: (int, Seq<bool>),
    rect: crate::style::Rect) -> (int, Seq<bool>)
    decreases n,
{
    if n == 0 {
        st
    } else {
        let prev = checklist_clicks(events, claimed, (n - 1) as nat, st, rect);
        let row = events[n - 1]->Mouse_0.y - rect.y;
        if !claimed[n - 1] && rect_hit_left_down(events[n - 1], rect) && row < prev.1.len() {
            (row, prev.1.update(row, !prev.1[row]))
        } else {
            prev
        }
    }
}

/// Style of a checklist row: the cursor bold in the primary color when
/// focused, picked options in the success color.
pub open spec fn checklist_style(t: Theme, at_cursor: bool, picked: bool, focused: bool) -> Style {
    if at_cursor && focused {
        with_mods(fg_style(t.primary), BOLD)
    } else if picked {
        fg_style(t.success)
    } else {
        fg_style(t.text)
    }
}

/// The text of a checklist row.
pub open spec fn checklist_text(item: Seq<char>, at_cursor: bool, picked: bool, focused: bool) -> Seq<char> {
    (if at_cursor && focused { seq!['▸', ' '] } else { seq![' ', ' '] })
        + (if picked { seq!['[', 'x', ']'] } else { seq!['[', ' ', ']'] }) + seq![' '] + item
}

proof fn lemma_checklist_keys_len(events: Seq<Event>, consumed: Seq<bool>, n: nat, st: (int, Seq<bool>))
    requires
        0 <= st.0 < st.1.len(),
    ensures
        checklist_keys(events, consumed, n, st).1.len() == st.1.len(),
        0 <= checklist_keys(events, consumed, n, st).0 < st.1.len(),
    decreases n,
{
    if n > 0 {
        lemma_checklist_keys_len(events, consumed, (n - 1) as nat, st);
    }
}

fn copy_flags(v: &Vec<bool>) -> (r: Vec<bool>)
    ensures
        r@ == v@,
{
    let mut out: Vec<bool> = Vec::new();
    let mut k: usize = 0;
    while k < v.len()
        invariant
            k <= v@.len(),
            out@ == v@.take(k as int),
        decreases v@.len() - k,
    {
        out.push(v[k]);
        proof {
            assert(v@.take(k + 1) =~= v@.take(k as int).push(v@[k as int]));
        }
        k = k + 1;
    }
    proof {
        assert(v@.take(v@.len() as int) =~= v@);
    }
    out
}

fn same_flags(a: &Vec<bool>, b: &Vec<bool>) -> (r: bool)
    ensures
        r == (a@ == b@),
{
    if a.len() != b.len() {
        return false;
    }
    let mut k: usize = 0;
    while k < a.len()
        invariant
            a@.len() == b@.len(),
            k <= a@.len(),
            forall|j: int| 0 <= j < k ==> a@[j] == b@[j],
        decreases a@.len() - k,
    {
        if a[k] != b[k] {
            return false;
        }
        k = k + 1;
    }
    proof {
        assert(a@ =~= b@);
    }
    true
}

impl Context {
    fn checklist_handle_keys(&mut self, state: &mut MultiSelectState)
        requires
            old(self).wf(),
            old(state).wf(),
            old(state).cursor < old(state).items@.len(),
        ensures
            final(self).wf(),
            final(state).wf(),
            final(state).items == old(state).items,
            final(state).cursor < final(state).items@.len(),
            (final(state).cursor as int, final(state).selected@) == checklist_keys(old(self).events@, old(self).consumed@,
                old(self).events@.len() as nat, (old(state).cursor as int, old(state).selected@)),
            forall|i: int| 0 <= i < final(self).consumed@.len() ==> #[trigger] final(self).consumed@[i]
                == (old(self).consumed@[i] || old(self).live_press_in(i, checklist_codes())),
            final(self).consumed@.len() == old(self).consumed@.len(),
            *final(self) == (Context { consumed: final(self).consumed, ..*old(self) }),
    {
        let n = self.events.len();
        let len = state.items.len();
        let mut i: usize = 0;
        while i < n
            invariant
                n == self.events@.len(),
                i <= n,
                self.wf(),
                state.wf(),
                len == state.items@.len(),
                state.items == old(state).items,
                state.cursor < len,
                self.consumed@.len() == n,
                *self == (Context { consumed: self.consumed, ..*old(self) }),
                (state.cursor as int, state.selected@) == checklist_keys(old(self).events@, old(self).consumed@, i as nat,
                    (old(state).cursor as int, old(state).selected@)),
                forall|j: int| 0 <= j < n ==> #[trigger] self.consumed@[j] == (old(self).consumed@[j]
                    || (j < i && old(self).live_press_in(j, checklist_codes()))),
            decreases n - i,
        {
            if !self.consumed[i] {
                match &self.events[i] {
                    Event::Key(k) => {
                        if k.kind == KeyEventKind::Press {
                            let ghost cc = checklist_codes();
                            let flip = match k.code {
                                KeyCode::Enter => true,
                                KeyCode::Char(c) => c == ' ',
                                _ => false,
                            };
                            let nav = match k.code {
                                KeyCode::Up | KeyCode::Down => true,
                                KeyCode::Char(c) => c == 'k' || c == 'j',
                                _ => false,
                            };
                            proof {
                                if flip {
                                    match k.code {
                                        KeyCode::Enter => assert(cc[5] == k.code),
                                        _ => assert(cc[4] == k.code),
                                    }
                                } else if nav {
                                    match k.code {
                                        KeyCode::Up => assert(cc[0] == k.code),
                                        KeyCode::Down => assert(cc[2] == k.code),
                                        KeyCode::Char(c) => if c == 'k' { assert(cc[1] == k.code); } else { assert(cc[3] == k.code); },
                                        _ => {},
                                    }
                                } else if cc.contains(k.code) {
                                    let w = choose|w: int| 0 <= w < cc.len() && cc[w] == k.code;
                                    assert(0 <= w < 6);
                                }
                            }
                            if flip {
                                let c = state.cursor;
                                state.toggle(c);
                                self.consumed.set(i, true);
                            } else {
                                let _ = handle_vertical_nav(&mut state.cursor, len - 1, k.code);
                                if nav {
                                    self.consumed.set(i, true);
                                }
                            }
                        }
                    },
                    _ => {},
                }
            }
            i = i + 1;
        }
    }

    fn checklist_handle_clicks(&mut self, state: &mut MultiSelectState, id: usize)
        requires
            old(self).wf(),
            old(state).wf(),
            old(state).cursor < old(state).items@.len(),
        ensures
            final(self).wf(),
            final(state).wf(),
            final(state).items == old(state).items,
            final(state).cursor < final(state).items@.len(),
            match click_rect(*old(self), id as int) {
                None => *final(self) == *old(self) && *final(state) == *old(state),
                Some(rect) => {
                    &&& (final(state).cursor as int, final(state).selected@) == checklist_clicks(old(self).events@,
                        old(self).consumed@, old(self).events@.len() as nat, (old(state).cursor as int, old(state).selected@), rect)
                    &&& forall|i: int| 0 <= i < final(self).consumed@.len() ==> #[trigger] final(self).consumed@[i]
                        == (old(self).consumed@[i] || (old(self).live(i) && rect_hit_left_down(old(self).events@[i], rect)
                            && old(self).events@[i]->Mouse_0.y - rect.y < old(state).items@.len()))
                    &&& final(self).consumed@.len() == old(self).consumed@.len()
                    &&& *final(self) == (Context { consumed: final(self).consumed, ..*old(self) })
                },
            },
    {
        if self.is_blocked() || id >= self.prev_hit_map.len() {
            return;
        }
        let rect = self.prev_hit_map[id];
        let len = state.items.len();
        let n = self.events.len();
        let mut i: usize = 0;
        while i < n
            invariant
                n == self.events@.len(),
                i <= n,
                self.wf(),
                state.wf(),
                len == state.items@.len(),
                state.items == old(state).items,
                state.cursor < len,
                click_rect(*old(self), id as int) == Some(rect),
                self.consumed@.len() == n,
                *self == (Context { consumed: self.consumed, ..*old(self) }),
                (state.cursor as int, state.selected@) == checklist_clicks(old(self).events@, old(self).consumed@, i as nat,
                    (old(state).cursor as int, old(state).selected@), rect),
                forall|j: int| 0 <= j < n ==> #[trigger] self.consumed@[j] == (old(self).consumed@[j]
                    || (j < i && old(self).live(j) && rect_hit_left_down(old(self).events@[j], rect)
                        && old(self).events@[j]->Mouse_0.y - rect.y < len)),
            decreases n - i,
        {
            if !self.consumed[i] {
                match &self.events[i] {
                    Event::Mouse(m) => {
                        if m.kind == MouseKind::Down(MouseButton::Left) && rect.contains(m.x, m.y) {
                            let row = m.y - rect.y;
                            if (row as u64) < (len as u64) {
                                state.toggle(row as usize);
                                state.cursor = row as usize;
                                self.consumed.set(i, true);
                            }
                        }
                    },
                    _ => {},
                }
            }
            i = i + 1;
        }
    }

    fn checklist_render(&mut self, state: &MultiSelectState, focused: bool)
        requires
            old(self).wf(),
            state.wf(),
        ensures
            final(self).wf(),
            ({
                let n0 = old(self).commands@.len() as int;
                let t = old(self).theme;
                let len = state.items@.len() as int;
                let c = final(self).commands@;
                &&& c.len() == n0 + len + 2
                &&& c.take(n0) == old(self).commands@
                &&& c[n0] == Command::BeginContainer(list_column(t, WidgetColors { fg: None, bg: None, border: None, accent: None }))
                &&& forall|k: int| 0 <= k < len ==> is_plain_text(#[trigger] c[n0 + 1 + k],
                    checklist_text(state.item_views()[k], k == state.cursor, state.selected@[k], focused),
                    checklist_style(t, k == state.cursor, state.selected@[k], focused))
                &&& c[n0 + len + 1] == Command::EndContainer
                &&& *final(self) == (Context { commands: final(self).commands, last_text_idx: None, ..*old(self) })
            }),
    {
        let t = self.theme;
        let ghost n0 = self.commands@.len() as int;
        let _ = self.commands.len();
        self.begin_container(plain_container_args(Direction::Column, 0, t.border));
        proof {
            crate::style::lemma_single_flags();
            reveal_strlit("▸ "); reveal_strlit("  "); reveal_strlit("[x]"); reveal_strlit("[ ]"); reveal_strlit(" ");
        }
        let len = state.items.len();
        let mut k: usize = 0;
        while k < len
            invariant
                len == state.items@.len(),
                state.wf(),
                k <= len,
                n0 == old(self).commands@.len(),
                self.wf(),
                t == old(self).theme,
                "▸ "@ == seq!['▸', ' '], "  "@ == seq![' ', ' '], "[x]"@ == seq!['[', 'x', ']'], "[ ]"@ == seq!['[', ' ', ']'],
                " "@ == seq![' '],
                self.commands@.len() == n0 + 1 + k,
                self.commands@.take(n0) == old(self).commands@,
                self.commands@[n0] == Command::BeginContainer(list_column(t, WidgetColors { fg: None, bg: None, border: None, accent: None })),
                forall|j: int| 0 <= j < k ==> is_plain_text(#[trigger] self.commands@[n0 + 1 + j],
                    checklist_text(state.item_views()[j], j == state.cursor, state.selected@[j], focused),
                    checklist_style(t, j == state.cursor, state.selected@[j], focused)),
                *self == (Context { commands: self.commands, last_text_idx: self.last_text_idx, ..*old(self) }),
            decreases len - k,
        {
            let ghost before = self.commands@;
            let at = k == state.cursor;
            let picked = state.selected[k];
            let mut row = String::new();
            row.append(if at && focused { "▸ " } else { "  " });
            row.append(if picked { "[x]" } else { "[ ]" });
            row.append(" ");
            row.append(state.items[k].as_str());
            let style = if at && focused { Style::new().bold().fg(t.primary) } else if picked { Style::new().fg(t.success) }
                else { Style::new().fg(t.text) };
            proof {
                assert(row@ =~= checklist_text(state.item_views()[k as int], at, picked, focused));
            }
            self.styled(row.as_str(), style);
            proof {
                assert(self.commands@.drop_last() == before);
                assert forall|j: int| 0 <= j < before.len() implies self.commands@[j] == before[j] by {
                    assert(self.commands@.drop_last()[j] == self.commands@[j]);
                }
                assert(self.commands@.take(n0) =~= before.take(n0));
                assert forall|j: int| 0 <= j < k + 1 implies is_plain_text(#[trigger] self.commands@[n0 + 1 + j],
                    checklist_text(state.item_views()[j], j == state.cursor, state.selected@[j], focused),
                    checklist_style(t, j == state.cursor, state.selected@[j], focused)) by {
                    if j < k {
                        assert(self.commands@[n0 + 1 + j] == before[n0 + 1 + j]);
                    } else {
                        assert(self.commands@[n0 + 1 + j] == self.commands@.last());
                    }
                }
            }
            k = k + 1;
        }
        let ghost body = self.commands@;
        self.end_container();
        proof {
            assert(self.commands@.drop_last() == body);
            assert forall|j: int| 0 <= j < body.len() implies self.commands@[j] == body[j] by {
                assert(self.commands@.drop_last()[j] == self.commands@[j]);
            }
            assert(self.commands@.take(n0) =~= body.take(n0));
        }
    }

    /// A checklist: one row per option with `[x]` or `[ ]`. When focused,
    /// Up/`k` and Down/`j` move the cursor and Space or Enter flips the pick
    /// under it; a click on a row flips its pick and moves the cursor there.
    /// With no options nothing is drawn. The response is changed when the
    /// picks did.
    #[verifier::rlimit(100)]
    #[verifier::spinoff_prover]
    pub fn multi_select(&mut self, state: &mut MultiSelectState) -> (r: Response)
        requires
            old(self).wf(),
            old(state).wf(),
        ensures
            final(self).wf(),
            final(state).wf(),
            final(state).items == old(state).items,
            old(state).items@.len() == 0 ==> *final(self) == *old(self) && final(state).cursor == old(state).cursor
                && final(state).selected == old(state).selected && r == no_response(),
            old(state).items@.len() > 0 ==> {
                let len = old(state).items@.len() as int;
                let cur0 = if old(state).cursor < len { old(state).cursor as int } else { len - 1 };
                let focused = old(self).next_focusable_is_focused();
                let id = old(self).interaction_count as int;
                let st1 = if focused { checklist_keys(old(self).events@, old(self).consumed@, old(self).events@.len() as nat,
                    (cur0, old(state).selected@)) } else { (cur0, old(state).selected@) };
                let claimed = Seq::new(old(self).consumed@.len(), |i: int| old(self).consumed@[i]
                    || (focused && old(self).live_press_in(i, checklist_codes())));
                let st2 = match click_rect(*old(self), id) {
                    None => st1,
                    Some(rect) => checklist_clicks(old(self).events@, claimed, old(self).events@.len() as nat, st1, rect),
                };
                let n0 = old(self).commands@.len() as int;
                let m = if focused { 1int } else { 0int };
                let c = final(self).commands@;
                let t = old(self).theme;
                &&& final(state).cursor == st2.0
                &&& final(state).selected@ == st2.1
                &&& r == Response { focused, changed: st2.1 != old(state).selected@, ..old(self).spec_response_for(id) }
                &&& c.take(n0) == old(self).commands@
                &&& (focused ==> c[n0] == Command::FocusMarker(old(self).focus_count))
                &&& c[n0 + m] == Command::InteractionMarker(id as usize)
                &&& c.len() == n0 + m + len + 3
                &&& forall|k: int| 0 <= k < len ==> is_plain_text(#[trigger] c[n0 + m + 2 + k],
                    checklist_text(old(state).item_views()[k], k == st2.0, st2.1[k], focused),
                    checklist_style(t, k == st2.0, st2.1[k], focused))
                &&& c[n0 + m + 2 + len] == Command::EndContainer
                &&& final(self).consumed@.len() == old(self).consumed@.len()
                &&& forall|i: int| 0 <= i < final(self).consumed@.len() ==> #[trigger] final(self).consumed@[i]
                    == (claimed[i] || match click_rect(*old(self), id) {
                        None => false,
                        Some(rect) => !claimed[i] && rect_hit_left_down(old(self).events@[i], rect)
                            && old(self).events@[i]->Mouse_0.y - rect.y < len,
                    })
                &&& *final(self) == (Context {
                    commands: final(self).commands,
                    consumed: final(self).consumed,
                    focus_count: sat_inc_usize(old(self).focus_count),
                    interaction_count: sat_inc_usize(old(self).interaction_count),
                    last_text_idx: None,
                    ..*old(self)
                })
            },
    {
        if state.is_empty() {
            return Response::none();
        }
        let len = state.len();
        if state.cursor >= len {
            state.cursor = len - 1;
        }
        let old_sel = copy_flags(&state.selected);
        let id = self.interaction_count;
        let focused = self.register_focusable();
        let ghost registered = *self;
        if focused {
            self.checklist_handle_keys(state);
        }
        proof {
            assert(self.consumed@ =~= Seq::new(old(self).consumed@.len(), |i: int| old(self).consumed@[i]
                || (focused && old(self).live_press_in(i, checklist_codes()))));
        }
        let ghost keyed = *self;
        let next = self.next_interaction_id();
        let base = self.response_for(next);
        let ghost opened = *self;
        self.checklist_handle_clicks(state, next);
        proof {
            assert(click_rect(opened, id as int) == click_rect(*old(self), id as int));
            assert(next == id);
        }
        let ghost before_render = *self;
        self.checklist_render(state, focused);
        proof {
            let m = if focused { 1int } else { 0int };
            let n0 = old(self).commands@.len() as int;
            let nb = before_render.commands@.len() as int;
            assert(nb == n0 + m + 1);
            assert forall|k: int| 0 <= k < nb implies self.commands@[k] == before_render.commands@[k] by {
                assert(self.commands@.take(nb)[k] == before_render.commands@[k]);
            }
            assert(self.commands@.take(n0) =~= old(self).commands@) by {
                assert forall|k: int| 0 <= k < n0 implies self.commands@[k] == old(self).commands@[k] by {
                    assert(before_render.commands@[k] == registered.commands@[k]);
                }
            }
            assert(self.commands@[n0 + m] == before_render.commands@[n0 + m]);
            if focused {
                assert(self.commands@[n0] == before_render.commands@[n0]);
            }
            let len = old(state).items@.len() as int;
            assert forall|k: int| 0 <= k < len implies is_plain_text(#[trigger] self.commands@[n0 + m + 2 + k],
                checklist_text(old(state).item_views()[k], k == state.cursor, state.selected@[k], focused),
                checklist_style(self.theme, k == state.cursor, state.selected@[k], focused)) by {
                assert(nb + 1 + k == n0 + m + 2 + k);
                assert(is_plain_text(self.commands@[nb + 1 + k],
                    checklist_text(state.item_views()[k], k == state.cursor, state.selected@[k], focused),
                    checklist_style(self.theme, k == state.cursor, state.selected@[k], focused)));
            }
            assert(checklist_keys(registered.events@, registered.consumed@, registered.events@.len() as nat,
                (old(state).cursor as int, old(state).selected@)) == checklist_keys(old(self).events@, old(self).consumed@,
                old(self).events@.len() as nat, (old(state).cursor as int, old(state).selected@)));
        }
        let changed = !same_flags(&state.selected, &old_sel);
        Response { focused, changed, ..base }
    }
}


/// Space and Enter flip the pick under the cursor and no other, keeping the
/// cursor; flipping twice restores the picks.
pub proof fn lemma_checklist_flip(cur: int, sel: Seq<bool>, code: KeyCode)
    requires
        0 <= cur < sel.len(),
        code == KeyCode::Enter || code == KeyCode::Char(' '),
    ensures
        ({
            let r = checklist_key((cur, sel), code);
            &&& r.0 == cur
            &&& r.1.len() == sel.len()
            &&& r.1[cur] == !sel[cur]
            &&& forall|j: int| 0 <= j < sel.len() && j != cur ==> r.1[j] == sel[j]
            &&& checklist_key(r, code).1 == sel
        }),
{
    let r = checklist_key((cur, sel), code);
    assert(checklist_key(r, code).1 =~= sel);
}

} // verus!
