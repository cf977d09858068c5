//! Selectable lists, with keyboard navigation, click selection and
//! keyboard reordering.
use vstd::prelude::*;
use crate::command::{Command, ContainerArgs};
use crate::context::{plain_container, plain_container_args, rect_hit_left_down, Context, Response};
use crate::context::widgets_display::text::is_plain_text;
use crate::event::{Event, KeyCode, KeyEvent, KeyEventKind, KeyModifiers, MouseButton, MouseKind};
use crate::style::{rect_contains, Color, Direction, Modifiers, Rect, Style, BOLD};

verus! {

/// The items of a list and which one is selected.
pub struct ListState {
    pub items: Vec<String>,
    /// Index of the selected item.
    pub selected: usize,
}

/// A list's items as character sequences.
pub open spec fn views_of(items: Seq<String>) -> Seq<Seq<char>> {
    Seq::new(items.len(), |i: int| items[i]@)
}

impl ListState {
    /// The items as character sequences.
    pub open spec fn item_views(&self) -> Seq<Seq<char>> {
        views_of(self.items@)
    }

    /// A list of `items` with the first one selected.
    pub fn new(items: Vec<&str>) -> (s: ListState)
        ensures
            s.item_views() == Seq::new(items@.len(), |i: int| items@[i]@),
            s.selected == 0,
    {
        let mut out: Vec<String> = Vec::new();
        let n = items.len();
        let mut i: usize = 0;
        while i < n
            invariant
                n == items@.len(),
                i <= n,
                out@.len() == i,
                forall|k: int| 0 <= k < i ==> #[trigger] out@[k]@ == items@[k]@,
            decreases n - i,
        {
            out.push(items[i].to_owned());
            i = i + 1;
        }
        let s = ListState { items: out, selected: 0 };
        assert(s.item_views() =~= Seq::new(items@.len(), |i: int| items@[i]@));
        s
    }

    /// The selected item, if the selection is in range.
    pub fn selected_item(&self) -> (r: Option<&str>)
        ensures
            self.selected < self.items@.len() ==> (r matches Some(x) && x@ == self.items@[self.selected as int]@),
            self.selected >= self.items@.len() ==> r is None,
    {
        if self.selected < self.items.len() {
            Some(self.items[self.selected].as_str())
        } else {
            None
        }
    }

    /// Move the item at `from` to position `to`, shifting the ones between,
    /// and select it there. `false` (and nothing changes) when either index
    /// is out of range or they are equal.
    pub fn move_item(&mut self, from: usize, to: usize) -> (moved: bool)
        ensures
            moved == (from < old(self).items@.len() && to < old(self).items@.len() && from != to),
            moved ==> final(self).item_views() == moved_items(old(self).item_views(), from as int, to as int),
            moved ==> final(self).selected == to,
            final(self).items@.len() == old(self).items@.len(),
            !moved ==> *final(self) == *old(self),
    {
        let n = self.items.len();
        if from >= n || to >= n || from == to {
            return false;
        }
        let ghost before = self.item_views();
        let item = self.items.remove(from);
        self.items.insert(to, item);
        self.selected = to;
        proof {
            assert(self.item_views() =~= moved_items(before, from as int, to as int));
        }
        true
    }
}

/// `items` with the one at `from` moved to position `to`.
pub open spec fn moved_items(items: Seq<Seq<char>>, from: int, to: int) -> Seq<Seq<char>> {
    items.remove(from).insert(to, items[from])
}

/// Colors a list may use in place of the theme's.
#[derive(Debug, Clone, Copy, PartialEq, Eq, Structural)]
pub struct WidgetColors {
    pub fg: Option<Color>,
    pub bg: Option<Color>,
    pub border: Option<Color>,
    pub accent: Option<Color>,
}

impl WidgetColors {
    /// No overrides: every color comes from the theme.
    pub fn theme_default() -> (c: WidgetColors)
        ensures
            c == (WidgetColors { fg: None, bg: None, border: None, accent: None }),
    {
        WidgetColors { fg: None, bg: None, border: None, accent: None }
    }
}

/// What a reorderable list reports: the usual response, and the data
/// indices `(from, to)` of the last item moved this frame.
#[derive(Debug, Clone, Copy, PartialEq, Eq)]
pub struct ListResponse {
    pub response: Response,
    pub reordered: Option<(usize, usize)>,
}

/// The option's value, or `d`.
pub open spec fn or_else(c: Option<Color>, d: Color) -> Color {
    match c {
        Some(x) => x,
        None => d,
    }
}

/// Vertical step of a key: -1 up, 1 down, 0 for other keys.
pub open spec fn list_dir(code: KeyCode) -> int {
    match code {
        KeyCode::Up | KeyCode::Char('k') | KeyCode::Char('K') => -1,
        KeyCode::Down | KeyCode::Char('j') | KeyCode::Char('J') => 1,
        _ => 0,
    }
}

/// Selection after a navigation key: Up/`k` and Down/`j` move by one within
/// `[0, last]`; other keys leave it.
pub open spec fn nav_step(sel: int, last: int, code: KeyCode) -> int {
    match code {
        KeyCode::Up | KeyCode::Char('k') => if sel > 0 { sel - 1 } else { sel },
        KeyCode::Down | KeyCode::Char('j') => if sel < last { sel + 1 } else { sel },
        _ => sel,
    }
}

/// The keys a plain list claims.
pub open spec fn nav_codes() -> Seq<KeyCode> {
    seq![KeyCode::Up, KeyCode::Char('k'), KeyCode::Down, KeyCode::Char('j')]
}

/// The keys a reorderable list claims.
pub open spec fn reorder_codes() -> Seq<KeyCode> {
    seq![KeyCode::Up, KeyCode::Char('k'), KeyCode::Char('K'), KeyCode::Down, KeyCode::Char('j'), KeyCode::Char('J')]
}

/// Shift or Alt is held.
pub open spec fn reorder_modded(m: KeyModifiers) -> bool {
    m.spec_contains(KeyModifiers(1)) || m.spec_contains(KeyModifiers(4))
}

/// Items, selection and last move of a list while it handles input.
pub type ListModel = (Seq<Seq<char>>, int, Option<(usize, usize)>);

/// One key press applied to a list; `reorder` enables Shift/Alt moves.
pub open spec fn list_key(st: ListModel, k: KeyEvent, reorder: bool) -> ListModel {
    let (items, sel, re) = st;
    let d = list_dir(k.code);
    if reorder && reorder_modded(k.modifiers) && d != 0 {
        let t = sel + d;
        if 0 <= t < items.len() && 0 <= sel < items.len() {
            (moved_items(items, sel, t), t, Some((sel as usize, t as usize)))
        } else {
            st
        }
    } else {
        (items, nav_step(sel, items.len() - 1, k.code), re)
    }
}

/// The unclaimed key presses among the first `n` events applied in order.
pub open spec fn list_keys(events: Seq<Event>, consumed: Seq<bool>, n: nat, init: ListModel, reorder: bool) -> ListModel
    decreases n,
{
    if n == 0 {
        init
    } else {
        let prev = list_keys(events, consumed, (n - 1) as nat, init, reorder);
        if consumed[n - 1] {
            prev
        } else {
            match events[n - 1] {
                Event::Key(k) => if k.kind == KeyEventKind::Press {
                    list_key(prev, k, reorder)
                } else {
                    prev
                },
                _ => prev,
            }
        }
    }
}

/// Selection after the unclaimed left clicks among the first `n` events:
/// a click on row `y - rect.y` of `rect` selects that row when it exists.
pub open spec fn list_clicks(events: Seq<Event>, consumed: Seq<bool>, n: nat, sel: int, rect: Rect, len: int) -> int
    decreases n,
{
    if n == 0 {
        sel
    } else {
        let prev = list_clicks(events, consumed, (n - 1) as nat, sel, rect, len);
        if !consumed[n - 1] && rect_hit_left_down(events[n - 1], rect) && (events[n - 1]->Mouse_0.y - rect.y) < len {
            events[n - 1]->Mouse_0.y - rect.y
        } else {
            prev
        }
    }
}

/// A row of a list: marker and item, in the row's style.
pub open spec fn list_row(c: Command, item: Seq<char>, selected: bool, style: Style) -> bool {
    is_plain_text(c, (if selected { seq!['▸', ' '] } else { seq![' ', ' '] }) + item, style)
}

/// Style of a list row.
pub open spec fn list_row_style(t: crate::style::Theme, colors: WidgetColors, selected: bool, focused: bool) -> Style {
    if selected {
        Style {
            fg: Some(or_else(colors.fg, t.selected_fg)),
            bg: Some(or_else(colors.accent, t.selected_bg)),
            modifiers: Modifiers(if focused { BOLD } else { 0 }),
        }
    } else {
        Style { fg: Some(or_else(colors.fg, t.text)), bg: None, modifiers: Modifiers(0) }
    }
}

/// The rectangle clicks on interaction slot `id` are tested against, if any.
pub open spec fn click_rect(c: Context, id: int) -> Option<Rect> {
    if !c.blocked() && 0 <= id < c.prev_hit_map@.len() { Some(c.prev_hit_map@[id]) } else { None }
}

fn handles_list_key(code: KeyCode, reorder: bool) -> (r: bool)
    ensures
        r == (if reorder { reorder_codes().contains(code) } else { nav_codes().contains(code) }),
{
    let r = match code {
        KeyCode::Up | KeyCode::Down => true,
        KeyCode::Char(c) => c == 'k' || c == 'j' || (reorder && (c == 'K' || c == 'J')),
        _ => false,
    };
    proof {
        let rc = reorder_codes();
        let nc = nav_codes();
        if reorder {
            if r {
                if code == KeyCode::Up { assert(rc[0] == code); }
                if code == KeyCode::Char('k') { assert(rc[1] == code); }
                if code == KeyCode::Char('K') { assert(rc[2] == code); }
                if code == KeyCode::Down { assert(rc[3] == code); }
                if code == KeyCode::Char('j') { assert(rc[4] == code); }
                if code == KeyCode::Char('J') { assert(rc[5] == code); }
            } else {
                assert forall|k: int| 0 <= k < rc.len() implies rc[k] != code by {}
            }
        } else {
            if r {
                if code == KeyCode::Up { assert(nc[0] == code); }
                if code == KeyCode::Char('k') { assert(nc[1] == code); }
                if code == KeyCode::Down { assert(nc[2] == code); }
                if code == KeyCode::Char('j') { assert(nc[3] == code); }
            } else {
                assert forall|k: int| 0 <= k < nc.len() implies nc[k] != code by {}
            }
        }
    }
    r
}

/// Move the selection one step for a navigation key.
pub(crate) fn handle_vertical_nav(selected: &mut usize, last: usize, code: KeyCode) -> (moved: bool)
    requires
        *old(selected) <= last,
    ensures
        *final(selected) == nav_step(*old(selected) as int, last as int, code),
        *final(selected) <= last,
        moved == (*final(selected) != *old(selected)),
{
    match code {
        KeyCode::Up => {
            if *selected > 0 {
                *selected = *selected - 1;
                return true;
            }
            false
        },
        KeyCode::Down => {
            if *selected < last {
                *selected = *selected + 1;
                return true;
            }
            false
        },
        KeyCode::Char(c) => {
            if c == 'k' && *selected > 0 {
                *selected = *selected - 1;
                return true;
            }
            if c == 'j' && *selected < last {
                *selected = *selected + 1;
                return true;
            }
            false
        },
        _ => false,
    }
}

impl Context {
    /// Apply this frame's unclaimed key presses to `state`, claiming the
    /// navigation (and, with `reorder`, the move) keys.
    fn list_handle_keys(&mut self, state: &mut ListState, reorder: bool, init_re: Option<(usize, usize)>) -> (re: Option<(usize, usize)>)
        requires
            old(self).wf(),
            old(state).selected < old(state).items@.len(),
        ensures
            final(self).wf(),
            ({
                let st = list_keys(old(self).events@, old(self).consumed@, old(self).events@.len() as nat,
                    (old(state).item_views(), old(state).selected as int, init_re), reorder);
                &&& final(state).item_views() == st.0
                &&& final(state).selected == st.1
                &&& re == st.2
            }),
            final(state).selected < final(state).items@.len(),
            final(state).items@.len() == old(state).items@.len(),
            forall|i: int| 0 <= i < final(self).consumed@.len() ==> #[trigger] final(self).consumed@[i]
                == (old(self).consumed@[i] || old(self).live_press_in(i,
                    if reorder { reorder_codes() } else { nav_codes() })),
            final(self).consumed@.len() == old(self).consumed@.len(),
            *final(self) == (Context { consumed: final(self).consumed, ..*old(self) }),
    {
        let ghost codes = if reorder { reorder_codes() } else { nav_codes() };
        let ghost init = (old(state).item_views(), old(state).selected as int, init_re);
        let n = self.events.len();
        let len = state.items.len();
        let mut re = init_re;
        let mut i: usize = 0;
        while i < n
            invariant
                n == self.events@.len(),
                i <= n,
                self.wf(),
                self.consumed@.len() == n,
                len == state.items@.len(),
                len == old(state).items@.len(),
                state.selected < len,
                codes == (if reorder { reorder_codes() } else { nav_codes() }),
                *self == (Context { consumed: self.consumed, ..*old(self) }),
                ({
                    let st = list_keys(old(self).events@, old(self).consumed@, i as nat, init, reorder);
                    &&& state.item_views() == st.0
                    &&& state.selected == st.1
                    &&& re == st.2
                }),
                forall|j: int| 0 <= j < n ==> #[trigger] self.consumed@[j] == (old(self).consumed@[j]
                    || (j < i && old(self).live_press_in(j, codes))),
            decreases n - i,
        {
            if !self.consumed[i] {
                match &self.events[i] {
                    Event::Key(k) => {
                        if k.kind == KeyEventKind::Press {
                            let handled = handles_list_key(k.code, reorder);
                            let modded = k.modifiers.contains(KeyModifiers::SHIFT()) || k.modifiers.contains(KeyModifiers::ALT());
                            let down = match k.code {
                                KeyCode::Down => true,
                                KeyCode::Char(c) => c == 'j' || c == 'J',
                                _ => false,
                            };
                            let up = match k.code {
                                KeyCode::Up => true,
                                KeyCode::Char(c) => c == 'k' || c == 'K',
                                _ => false,
                            };
                            if reorder && modded && (up || down) {
                                let cur = state.selected;
                                if up && cur > 0 {
                                    if state.move_item(cur, cur - 1) {
                                        re = Some((cur, cur - 1));
                                    }
                                } else if down && cur + 1 < len {
                                    if state.move_item(cur, cur + 1) {
                                        re = Some((cur, cur + 1));
                                    }
                                }
                            } else {
                                let _ = handle_vertical_nav(&mut state.selected, len - 1, k.code);
                            }
                            if handled {
                                self.consumed.set(i, true);
                            }
                        }
                    },
                    _ => {},
                }
            }
            i = i + 1;
        }
        re
    }
}

/// Commands from `base` on are the rows of a list over `items`.
pub open spec fn list_rows(cmds: Seq<Command>, base: int, items: Seq<Seq<char>>, sel: int, t: crate::style::Theme,
    colors: WidgetColors, focused: bool) -> bool {
    forall|k: int| 0 <= k < items.len() ==> list_row(#[trigger] cmds[base + k], items[k], k == sel,
        list_row_style(t, colors, k == sel, focused))
}

/// The column a list draws its rows in.
pub open spec fn list_column(t: crate::style::Theme, colors: WidgetColors) -> ContainerArgs {
    plain_container(Direction::Column, 0, or_else(colors.border, t.border))
}

/// The list's rows after `before`: a column with one row per item.
pub open spec fn is_list_render(before: Context, after: Context, items: Seq<Seq<char>>, sel: int, colors: WidgetColors, focused: bool) -> bool {
    let n0 = before.commands@.len();
    let t = before.theme;
    &&& after.commands@.len() == n0 + items.len() + 2
    &&& after.commands@.take(n0 as int) == before.commands@
    &&& after.commands@[n0 as int] == Command::BeginContainer(list_column(t, colors))
    &&& list_rows(after.commands@, n0 + 1int, items, sel, t, colors, focused)
    &&& after.commands@[n0 + items.len() + 1int] == Command::EndContainer
    &&& after == (Context { commands: after.commands, last_text_idx: None, ..before })
}

impl Context {
    /// Apply this frame's unclaimed left clicks on the previous rectangle of
    /// slot `id` to a selection among `len` rows, claiming the ones that hit
    /// a row.
    pub(crate) fn handle_row_clicks(&mut self, selected: &mut usize, len: usize, id: usize)
        requires
            old(self).wf(),
            *old(selected) < len,
        ensures
            final(self).wf(),
            *final(selected) < len,
            match click_rect(*old(self), id as int) {
                None => *final(self) == *old(self) && *final(selected) == *old(selected),
                Some(rect) => {
                    &&& *final(selected) == list_clicks(old(self).events@, old(self).consumed@,
                        old(self).events@.len() as nat, *old(selected) as int, rect, len as int)
                    &&& forall|i: int| 0 <= i < final(self).consumed@.len() ==> #[trigger] final(self).consumed@[i]
                        == (old(self).consumed@[i] || (old(self).live(i) && rect_hit_left_down(old(self).events@[i], rect)
                            && old(self).events@[i]->Mouse_0.y - rect.y < len))
                    &&& final(self).consumed@.len() == old(self).consumed@.len()
                    &&& *final(self) == (Context { consumed: final(self).consumed, ..*old(self) })
                },
            },
    {
        if self.is_blocked() || id >= self.prev_hit_map.len() {
            return;
        }
        let rect = self.prev_hit_map[id];
        let n = self.events.len();
        let mut i: usize = 0;
        while i < n
            invariant
                n == self.events@.len(),
                i <= n,
                self.wf(),
                self.consumed@.len() == n,
                *selected < len,
                click_rect(*old(self), id as int) == Some(rect),
                *self == (Context { consumed: self.consumed, ..*old(self) }),
                *selected == list_clicks(old(self).events@, old(self).consumed@, i as nat,
                    *old(selected) as int, rect, len as int),
                forall|j: int| 0 <= j < n ==> #[trigger] self.consumed@[j] == (old(self).consumed@[j]
                    || (j < i && old(self).live(j) && rect_hit_left_down(old(self).events@[j], rect)
                        && old(self).events@[j]->Mouse_0.y - rect.y < len)),
            decreases n - i,
        {
            if !self.consumed[i] {
                match &self.events[i] {
                    Event::Mouse(m) => {
                        if m.kind == MouseKind::Down(MouseButton::Left) && rect.contains(m.x, m.y) {
                            let row = m.y - rect.y;
                            if (row as usize) < len && (row as u64) < (len as u64) {
                                *selected = row as usize;
                                self.consumed.set(i, true);
                            }
                        }
                    },
                    _ => {},
                }
            }
            i = i + 1;
        }
    }

    /// Apply this frame's unclaimed left clicks on the list's previous
    /// rectangle to its selection, claiming the ones that hit a row.
    fn list_handle_clicks(&mut self, state: &mut ListState, id: usize)
        requires
            old(self).wf(),
            old(state).selected < old(state).items@.len(),
        ensures
            final(self).wf(),
            final(state).items == old(state).items,
            final(state).selected < final(state).items@.len(),
            match click_rect(*old(self), id as int) {
                None => *final(self) == *old(self) && *final(state) == *old(state),
                Some(rect) => {
                    &&& final(state).selected == list_clicks(old(self).events@, old(self).consumed@,
                        old(self).events@.len() as nat, old(state).selected as int, rect, old(state).items@.len() as int)
                    &&& forall|i: int| 0 <= i < final(self).consumed@.len() ==> #[trigger] final(self).consumed@[i]
                        == (old(self).consumed@[i] || (old(self).live(i) && rect_hit_left_down(old(self).events@[i], rect)
                            && old(self).events@[i]->Mouse_0.y - rect.y < old(state).items@.len()))
                    &&& final(self).consumed@.len() == old(self).consumed@.len()
                    &&& *final(self) == (Context { consumed: final(self).consumed, ..*old(self) })
                },
            },
    {
        let len = state.items.len();
        self.handle_row_clicks(&mut state.selected, len, id);
    }

    /// Draw the rows of `state`.
    fn list_render(&mut self, state: &ListState, colors: &WidgetColors, focused: bool)
        requires
            old(self).wf(),
            old(self).commands@.len() + state.items@.len() + 2 < usize::MAX,
        ensures
            final(self).wf(),
            is_list_render(*old(self), *final(self), state.item_views(), state.selected as int, *colors, focused),
    {
        let t = self.theme;
        let border = match colors.border {
            Some(c) => c,
            None => t.border,
        };
        let ghost n0 = self.commands@.len();
        self.begin_container(plain_container_args(Direction::Column, 0, border));
        let ghost start = *self;
        let sel_style = if focused {
            Style::new().bg(match colors.accent { Some(c) => c, None => t.selected_bg })
                .fg(match colors.fg { Some(c) => c, None => t.selected_fg }).bold()
        } else {
            Style::new().bg(match colors.accent { Some(c) => c, None => t.selected_bg })
                .fg(match colors.fg { Some(c) => c, None => t.selected_fg })
        };
        let plain_style = Style::new().fg(match colors.fg { Some(c) => c, None => t.text });
        proof {
            crate::style::lemma_single_flags();
            reveal_strlit("▸ ");
            reveal_strlit("  ");
        }
        let len = state.items.len();
        let mut k: usize = 0;
        while k < len
            invariant
                len == state.items@.len(),
                k <= len,
                n0 + len + 2 < usize::MAX,
                self.wf(),
                self.commands@.len() == n0 + 1 + k,
                self.commands@.take(n0 + 1int) == start.commands@,
                start.commands@.take(n0 as int) == old(self).commands@,
                start.commands@[n0 as int] == Command::BeginContainer(list_column(t, *colors)),
                t == old(self).theme,
                sel_style == list_row_style(t, *colors, true, focused),
                plain_style == list_row_style(t, *colors, false, focused),
                "▸ "@ == seq!['▸', ' '],
                "  "@ == seq![' ', ' '],
                forall|j: int| 0 <= j < k ==> list_row(#[trigger] self.commands@[n0 + 1 + j], state.item_views()[j],
                    j == state.selected, list_row_style(t, *colors, j == state.selected, focused)),
                *self == (Context { commands: self.commands, last_text_idx: self.last_text_idx, ..start }),
            decreases len - k,
        {
            let ghost before = self.commands@;
            let selected = k == state.selected;
            let mut row = String::new();
            if selected {
                row.append("▸ ");
            } else {
                row.append("  ");
            }
            row.append(state.items[k].as_str());
            if selected {
                self.styled(row.as_str(), sel_style);
            } else {
                self.styled(row.as_str(), plain_style);
            }
            proof {
                assert(self.commands@.drop_last() == before);
                assert forall|j: int| 0 <= j < k + 1 implies list_row(#[trigger] self.commands@[n0 + 1 + j], state.item_views()[j],
                    j == state.selected, list_row_style(t, *colors, j == state.selected, focused)) by {
                    if j < k {
                        assert(self.commands@[n0 + 1 + j] == before[n0 + 1 + j]);
                    }
                }
                assert(self.commands@.take(n0 + 1int) =~= start.commands@) by {
                    assert forall|j: int| 0 <= j < n0 + 1 implies self.commands@[j] == before[j] by {}
                    assert(before.take(n0 + 1int) == start.commands@);
                }
            }
            k = k + 1;
        }
        let ghost body = self.commands@;
        self.end_container();
        proof {
            assert(self.commands@.drop_last() == body);
            assert forall|j: int| 0 <= j < len implies list_row(#[trigger] self.commands@[n0 + 1 + j], state.item_views()[j],
                j == state.selected, list_row_style(t, *colors, j == state.selected, focused)) by {
                assert(self.commands@[n0 + 1 + j] == body[n0 + 1 + j]);
            }
            assert(self.commands@[n0 as int] == body[n0 as int]);
            assert(body[n0 as int] == start.commands@[n0 as int]);
            assert(self.commands@.take(n0 as int) =~= old(self).commands@) by {
                assert forall|j: int| 0 <= j < n0 implies self.commands@[j] == old(self).commands@[j] by {
                    assert(self.commands@[j] == body[j]);
                    assert(body[j] == start.commands@[j]);
                }
            }
        }
    }
}

/// The keys a list claims.
pub open spec fn list_codes(reorder: bool) -> Seq<KeyCode> {
    if reorder { reorder_codes() } else { nav_codes() }
}

/// The claimed flags once a list has handled its keys.
pub open spec fn keys_claimed(c: Context, focused: bool, reorder: bool) -> Seq<bool> {
    Seq::new(c.consumed@.len(), |i: int| c.consumed@[i] || (focused && c.live_press_in(i, list_codes(reorder))))
}

/// Items, selection and last move once a list has handled its keys.
pub open spec fn list_keyed(c: Context, items: Seq<Seq<char>>, sel0: int, focused: bool, reorder: bool) -> ListModel {
    if focused {
        list_keys(c.events@, c.consumed@, c.events@.len() as nat, (items, sel0, None), reorder)
    } else {
        (items, sel0, None)
    }
}

/// The selection once a list has also handled its clicks.
pub open spec fn list_clicked(c: Context, claimed: Seq<bool>, sel: int, id: int, len: int) -> int {
    match click_rect(c, id) {
        None => sel,
        Some(rect) => list_clicks(c.events@, claimed, c.events@.len() as nat, sel, rect, len),
    }
}

/// Whether a list's click handling claims event `i`.
pub open spec fn click_claims(c: Context, claimed: Seq<bool>, i: int, id: int, len: int) -> bool {
    match click_rect(c, id) {
        None => false,
        Some(rect) => !claimed[i] && rect_hit_left_down(c.events@[i], rect) && c.events@[i]->Mouse_0.y - rect.y < len,
    }
}

impl Context {
    /// A list's input handling: keys when focused, then clicks.
    fn list_input(&mut self, state: &mut ListState, id: usize, focused: bool, reorder: bool) -> (re: Option<(usize, usize)>)
        requires
            old(self).wf(),
            old(state).selected < old(state).items@.len(),
        ensures
            final(self).wf(),
            ({
                let len = old(state).items@.len() as int;
                let keyed = list_keyed(*old(self), old(state).item_views(), old(state).selected as int, focused, reorder);
                let claimed = keys_claimed(*old(self), focused, reorder);
                &&& final(state).item_views() == keyed.0
                &&& final(state).selected == list_clicked(*old(self), claimed, keyed.1, id as int, len)
                &&& final(state).items@.len() == len
                &&& re == keyed.2
                &&& final(self).consumed@.len() == old(self).consumed@.len()
                &&& forall|i: int| 0 <= i < final(self).consumed@.len() ==> #[trigger] final(self).consumed@[i]
                    == (claimed[i] || click_claims(*old(self), claimed, i, id as int, len))
            }),
            *final(self) == (Context { consumed: final(self).consumed, ..*old(self) }),
    {
        let ghost len = state.items@.len() as int;
        let mut reordered: Option<(usize, usize)> = None;
        if focused {
            reordered = self.list_handle_keys(state, reorder, None);
        }
        let ghost after_keys = *self;
        proof {
            assert(after_keys.consumed@ =~= keys_claimed(*old(self), focused, reorder));
            assert(click_rect(after_keys, id as int) == click_rect(*old(self), id as int));
        }
        self.list_handle_clicks(state, id);
        proof {
            assert forall|i: int| 0 <= i < self.consumed@.len() implies #[trigger] self.consumed@[i]
                == (keys_claimed(*old(self), focused, reorder)[i] || click_claims(*old(self),
                    keys_claimed(*old(self), focused, reorder), i, id as int, len)) by {
                if click_rect(*old(self), id as int) is Some {
                    assert(after_keys.live(i) == !keys_claimed(*old(self), focused, reorder)[i]);
                }
            }
        }
        reordered
    }

    #[verifier::rlimit(100)]
    #[verifier::spinoff_prover]
    fn list_impl(&mut self, state: &mut ListState, colors: &WidgetColors, reorder: bool) -> (r: ListResponse)
        requires
            old(self).wf(),
            old(self).commands@.len() + old(state).items@.len() + 4 < usize::MAX,
        ensures
            final(self).wf(),
            old(state).items@.len() == 0 ==> {
                &&& *final(self) == *old(self)
                &&& final(state).items == old(state).items
                &&& final(state).selected == 0
                &&& r == ListResponse { response: crate::context::no_response(), reordered: None }
            },
            old(state).items@.len() > 0 ==> {
                let len = old(state).items@.len() as int;
                let sel0 = if old(state).selected < len { old(state).selected as int } else { len - 1 };
                let focused = old(self).next_focusable_is_focused();
                let id = old(self).interaction_count as int;
                let keyed = list_keyed(*old(self), old(state).item_views(), sel0, focused, reorder);
                let claimed = keys_claimed(*old(self), focused, reorder);
                let sel = list_clicked(*old(self), claimed, keyed.1, id, len);
                let m = if focused { 1int } else { 0int };
                let n0 = old(self).commands@.len();
                &&& final(state).item_views() == keyed.0
                &&& final(state).selected == sel
                &&& r.reordered == keyed.2
                &&& r.response == Response { focused, changed: sel != sel0 || keyed.2 is Some,
                    ..old(self).spec_response_for(id) }
                &&& final(self).consumed@.len() == old(self).consumed@.len()
                &&& forall|i: int| 0 <= i < final(self).consumed@.len() ==> #[trigger] final(self).consumed@[i]
                    == (claimed[i] || click_claims(*old(self), claimed, i, id, len))
                &&& final(self).commands@.len() == n0 + m + 1 + len + 2
                &&& final(self).commands@.take(n0 as int) == old(self).commands@
                &&& (focused ==> final(self).commands@[n0 as int] == Command::FocusMarker(old(self).focus_count))
                &&& final(self).commands@[n0 + m] == Command::InteractionMarker(id as usize)
                &&& final(self).commands@[n0 + m + 1] == Command::BeginContainer(list_column(old(self).theme, *colors))
                &&& list_rows(final(self).commands@, n0 + m + 2, keyed.0, sel, old(self).theme, *colors, focused)
                &&& final(self).commands@[n0 + m + 2 + len] == Command::EndContainer
                &&& *final(self) == (Context {
                    commands: final(self).commands,
                    consumed: final(self).consumed,
                    interaction_count: final(self).interaction_count,
                    focus_count: final(self).focus_count,
                    last_text_idx: None,
                    ..*old(self)
                })
            },
    {
        let len = state.items.len();
        if len == 0 {
            state.selected = 0;
            return ListResponse { response: Response::none(), reordered: None };
        }
        if state.selected >= len {
            state.selected = len - 1;
        }
        let old_selected = state.selected;
        let ghost n0 = self.commands@.len();
        let focused = self.register_focusable();
        let id = self.next_interaction_id();
        let base = self.response_for(id);
        let ghost after_open = *self;
        let reordered = self.list_input(state, id, focused, reorder);
        proof {
            assert(keys_claimed(after_open, focused, reorder) =~= keys_claimed(*old(self), focused, reorder));
            assert(list_keyed(after_open, state.item_views(), old_selected as int, focused, reorder)
                == list_keyed(*old(self), state.item_views(), old_selected as int, focused, reorder)) by {
                assert(after_open.events@ == old(self).events@);
            }
        }
        let ghost before_render = *self;
        self.list_render(state, colors, focused);
        proof {
            let m = if focused { 1int } else { 0int };
            let nb = before_render.commands@.len();
            assert(nb == n0 + m + 1);
            assert forall|k: int| 0 <= k < nb implies self.commands@[k] == before_render.commands@[k] by {
                assert(self.commands@.take(nb as int)[k] == before_render.commands@[k]);
            }
            assert(self.commands@.take(n0 as int) =~= old(self).commands@) by {
                assert forall|k: int| 0 <= k < n0 implies self.commands@[k] == old(self).commands@[k] by {
                    assert(before_render.commands@[k] == after_open.commands@[k]);
                }
            }
            assert(self.commands@[n0 + m] == before_render.commands@[n0 + m]);
            if focused {
                assert(self.commands@[n0 as int] == before_render.commands@[n0 as int]);
            }
            assert(nb + 1 == n0 + m + 2);
        }
        let changed = state.selected != old_selected || reordered.is_some();
        ListResponse { response: Response { focused, changed, ..base }, reordered }
    }

    /// A selectable list. When focused, Up/`k` and Down/`j` move the
    /// selection; a click selects the row under it.
    pub fn list(&mut self, state: &mut ListState) -> (r: Response)
        requires
            old(self).wf(),
            old(self).commands@.len() + old(state).items@.len() + 4 < usize::MAX,
        ensures
            final(self).wf(),
            old(state).items@.len() == 0 ==> {
                &&& *final(self) == *old(self)
                &&& final(state).items == old(state).items
                &&& final(state).selected == 0
                &&& r == crate::context::no_response()
            },
            old(state).items@.len() > 0 ==> {
                let len = old(state).items@.len() as int;
                let sel0 = if old(state).selected < len { old(state).selected as int } else { len - 1 };
                let focused = old(self).next_focusable_is_focused();
                let id = old(self).interaction_count as int;
                let keyed = list_keyed(*old(self), old(state).item_views(), sel0, focused, false);
                let claimed = keys_claimed(*old(self), focused, false);
                let sel = list_clicked(*old(self), claimed, keyed.1, id, len);
                let m = if focused { 1int } else { 0int };
                let n0 = old(self).commands@.len();
                let colors = WidgetColors { fg: None, bg: None, border: None, accent: None };
                &&& final(state).item_views() == old(state).item_views()
                &&& final(state).selected == sel
                &&& r == Response { focused, changed: sel != sel0, ..old(self).spec_response_for(id) }
                &&& final(self).consumed@.len() == old(self).consumed@.len()
                &&& forall|i: int| 0 <= i < final(self).consumed@.len() ==> #[trigger] final(self).consumed@[i]
                    == (claimed[i] || click_claims(*old(self), claimed, i, id, len))
                &&& final(self).commands@.len() == n0 + m + 1 + len + 2
                &&& final(self).commands@.take(n0 as int) == old(self).commands@
                &&& (focused ==> final(self).commands@[n0 as int] == Command::FocusMarker(old(self).focus_count))
                &&& final(self).commands@[n0 + m] == Command::InteractionMarker(id as usize)
                &&& final(self).commands@[n0 + m + 1] == Command::BeginContainer(list_column(old(self).theme, colors))
                &&& list_rows(final(self).commands@, n0 + m + 2, old(state).item_views(), sel, old(self).theme, colors, focused)
                &&& final(self).commands@[n0 + m + 2 + len] == Command::EndContainer
                &&& *final(self) == (Context {
                    commands: final(self).commands,
                    consumed: final(self).consumed,
                    interaction_count: final(self).interaction_count,
                    focus_count: final(self).focus_count,
                    last_text_idx: None,
                    ..*old(self)
                })
            },
    {
        let colors = WidgetColors::theme_default();
        let r = self.list_impl(state, &colors, false);
        proof {
            lemma_nav_keeps_items(*old(self), old(state).item_views(), if old(state).selected < old(state).items@.len() {
                old(state).selected as int } else { old(state).items@.len() - 1 }, old(self).events@.len() as nat);
            if old(state).items@.len() > 0 {
                let focused = old(self).next_focusable_is_focused();
                let m = if focused { 1int } else { 0int };
                let n0 = old(self).commands@.len();
                let len = old(state).items@.len() as int;
                let sel0 = if old(state).selected < len { old(state).selected as int } else { len - 1 };
                let keyed = list_keyed(*old(self), old(state).item_views(), sel0, focused, false);
                assert(keyed.0 == old(state).item_views());
            }
        }
        r.response
    }
}

/// Navigation without reordering never changes the items or records a move.
pub proof fn lemma_nav_keeps_items(c: Context, items: Seq<Seq<char>>, sel0: int, n: nat)
    requires
        n <= c.events@.len(),
        c.consumed@.len() == c.events@.len(),
    ensures
        list_keys(c.events@, c.consumed@, n, (items, sel0, None), false).0 == items,
        list_keys(c.events@, c.consumed@, n, (items, sel0, None), false).2 is None,
    decreases n,
{
    if n > 0 {
        lemma_nav_keeps_items(c, items, sel0, (n - 1) as nat);
    }
}


impl Context {
    /// A selectable list in custom colors; see [`list`](Self::list).
    pub fn list_colored(&mut self, state: &mut ListState, colors: &WidgetColors) -> (r: Response)
        requires
            old(self).wf(),
            old(self).commands@.len() + old(state).items@.len() + 4 < usize::MAX,
        ensures
            final(self).wf(),
            old(state).items@.len() == 0 ==> {
                &&& *final(self) == *old(self)
                &&& final(state).items == old(state).items
                &&& final(state).selected == 0
                &&& r == crate::context::no_response()
            },
            old(state).items@.len() > 0 ==> {
                let len = old(state).items@.len() as int;
                let sel0 = if old(state).selected < len { old(state).selected as int } else { len - 1 };
                let focused = old(self).next_focusable_is_focused();
                let id = old(self).interaction_count as int;
                let keyed = list_keyed(*old(self), old(state).item_views(), sel0, focused, false);
                let claimed = keys_claimed(*old(self), focused, false);
                let sel = list_clicked(*old(self), claimed, keyed.1, id, len);
                let m = if focused { 1int } else { 0int };
                let n0 = old(self).commands@.len();
                &&& final(state).item_views() == old(state).item_views()
                &&& final(state).selected == sel
                &&& r == Response { focused, changed: sel != sel0, ..old(self).spec_response_for(id) }
                &&& final(self).consumed@.len() == old(self).consumed@.len()
                &&& forall|i: int| 0 <= i < final(self).consumed@.len() ==> #[trigger] final(self).consumed@[i]
                    == (claimed[i] || click_claims(*old(self), claimed, i, id, len))
                &&& final(self).commands@.len() == n0 + m + 1 + len + 2
                &&& final(self).commands@.take(n0 as int) == old(self).commands@
                &&& (focused ==> final(self).commands@[n0 as int] == Command::FocusMarker(old(self).focus_count))
                &&& final(self).commands@[n0 + m] == Command::InteractionMarker(id as usize)
                &&& final(self).commands@[n0 + m + 1] == Command::BeginContainer(list_column(old(self).theme, *colors))
                &&& list_rows(final(self).commands@, n0 + m + 2, old(state).item_views(), sel, old(self).theme, *colors, focused)
                &&& final(self).commands@[n0 + m + 2 + len] == Command::EndContainer
                &&& *final(self) == (Context {
                    commands: final(self).commands,
                    consumed: final(self).consumed,
                    interaction_count: final(self).interaction_count,
                    focus_count: final(self).focus_count,
                    last_text_idx: None,
                    ..*old(self)
                })
            },
    {
        let r = self.list_impl(state, colors, false);
        proof {
            lemma_nav_keeps_items(*old(self), old(state).item_views(), if old(state).selected < old(state).items@.len() {
                old(state).selected as int } else { old(state).items@.len() - 1 }, old(self).events@.len() as nat);
        }
        r.response
    }

    /// A selectable list whose selected item can be moved: with Shift or
    /// Alt held, Up/`k`/`K` and Down/`j`/`J` move the item one row (the
    /// selection follows it); without, they move the selection.
    pub fn list_reorderable(&mut self, state: &mut ListState) -> (r: ListResponse)
        requires
            old(self).wf(),
            old(self).commands@.len() + old(state).items@.len() + 4 < usize::MAX,
        ensures
            final(self).wf(),
            old(state).items@.len() == 0 ==> {
                &&& *final(self) == *old(self)
                &&& final(state).items == old(state).items
                &&& final(state).selected == 0
                &&& r == ListResponse { response: crate::context::no_response(), reordered: None }
            },
            old(state).items@.len() > 0 ==> {
                let len = old(state).items@.len() as int;
                let sel0 = if old(state).selected < len { old(state).selected as int } else { len - 1 };
                let focused = old(self).next_focusable_is_focused();
                let id = old(self).interaction_count as int;
                let keyed = list_keyed(*old(self), old(state).item_views(), sel0, focused, true);
                let claimed = keys_claimed(*old(self), focused, true);
                let sel = list_clicked(*old(self), claimed, keyed.1, id, len);
                let m = if focused { 1int } else { 0int };
                let n0 = old(self).commands@.len();
                &&& final(state).item_views() == keyed.0
                &&& final(state).selected == sel
                &&& r.reordered == keyed.2
                &&& r.response == Response { focused, changed: sel != sel0 || keyed.2 is Some,
                    ..old(self).spec_response_for(id) }
                &&& final(self).consumed@.len() == old(self).consumed@.len()
                &&& forall|i: int| 0 <= i < final(self).consumed@.len() ==> #[trigger] final(self).consumed@[i]
                    == (claimed[i] || click_claims(*old(self), claimed, i, id, len))
                &&& final(self).commands@.len() == n0 + m + 1 + len + 2
                &&& final(self).commands@.take(n0 as int) == old(self).commands@
                &&& (focused ==> final(self).commands@[n0 as int] == Command::FocusMarker(old(self).focus_count))
                &&& final(self).commands@[n0 + m] == Command::InteractionMarker(id as usize)
                &&& final(self).commands@[n0 + m + 1] == Command::BeginContainer(list_column(old(self).theme, WidgetColors { fg: None, bg: None, border: None, accent: None }))
                &&& list_rows(final(self).commands@, n0 + m + 2, keyed.0, sel, old(self).theme, WidgetColors { fg: None, bg: None, border: None, accent: None }, focused)
                &&& final(self).commands@[n0 + m + 2 + len] == Command::EndContainer
                &&& *final(self) == (Context {
                    commands: final(self).commands,
                    consumed: final(self).consumed,
                    interaction_count: final(self).interaction_count,
                    focus_count: final(self).focus_count,
                    last_text_idx: None,
                    ..*old(self)
                })
            },
    {
        let colors = WidgetColors::theme_default();
        self.list_impl(state, &colors, true)
    }

    /// A reorderable list in custom colors.
    pub fn list_reorderable_colored(&mut self, state: &mut ListState, colors: &WidgetColors) -> (r: ListResponse)
        requires
            old(self).wf(),
            old(self).commands@.len() + old(state).items@.len() + 4 < usize::MAX,
        ensures
            final(self).wf(),
            old(state).items@.len() == 0 ==> {
                &&& *final(self) == *old(self)
                &&& final(state).items == old(state).items
                &&& final(state).selected == 0
                &&& r == ListResponse { response: crate::context::no_response(), reordered: None }
            },
            old(state).items@.len() > 0 ==> {
                let len = old(state).items@.len() as int;
                let sel0 = if old(state).selected < len { old(state).selected as int } else { len - 1 };
                let focused = old(self).next_focusable_is_focused();
                let id = old(self).interaction_count as int;
                let keyed = list_keyed(*old(self), old(state).item_views(), sel0, focused, true);
                let claimed = keys_claimed(*old(self), focused, true);
                let sel = list_clicked(*old(self), claimed, keyed.1, id, len);
                let m = if focused { 1int } else { 0int };
                let n0 = old(self).commands@.len();
                &&& final(state).item_views() == keyed.0
                &&& final(state).selected == sel
                &&& r.reordered == keyed.2
                &&& r.response == Response { focused, changed: sel != sel0 || keyed.2 is Some,
                    ..old(self).spec_response_for(id) }
                &&& final(self).consumed@.len() == old(self).consumed@.len()
                &&& forall|i: int| 0 <= i < final(self).consumed@.len() ==> #[trigger] final(self).consumed@[i]
                    == (claimed[i] || click_claims(*old(self), claimed, i, id, len))
                &&& final(self).commands@.len() == n0 + m + 1 + len + 2
                &&& final(self).commands@.take(n0 as int) == old(self).commands@
                &&& (focused ==> final(self).commands@[n0 as int] == Command::FocusMarker(old(self).focus_count))
                &&& final(self).commands@[n0 + m] == Command::InteractionMarker(id as usize)
                &&& final(self).commands@[n0 + m + 1] == Command::BeginContainer(list_column(old(self).theme, *colors))
                &&& list_rows(final(self).commands@, n0 + m + 2, keyed.0, sel, old(self).theme, *colors, focused)
                &&& final(self).commands@[n0 + m + 2 + len] == Command::EndContainer
                &&& *final(self) == (Context {
                    commands: final(self).commands,
                    consumed: final(self).consumed,
                    interaction_count: final(self).interaction_count,
                    focus_count: final(self).focus_count,
                    last_text_idx: None,
                    ..*old(self)
                })
            },
    {
        self.list_impl(state, colors, true)
    }
}

/// Moving an item from `a` to `b` and back from `b` to `a` restores the list.
pub proof fn lemma_move_round_trip(items: Seq<Seq<char>>, a: int, b: int)
    requires
        0 <= a < items.len(),
        0 <= b < items.len(),
    ensures
        moved_items(moved_items(items, a, b), b, a) == items,
{
    let once = moved_items(items, a, b);
    assert(once[b] == items[a]);
    assert(moved_items(once, b, a) =~= items);
}

/// Moving an item keeps every item: the list is a permutation of the old
/// one, and the moved item sits at its destination.
pub proof fn lemma_move_keeps_items(items: Seq<Seq<char>>, a: int, b: int)
    requires
        0 <= a < items.len(),
        0 <= b < items.len(),
    ensures
        moved_items(items, a, b).len() == items.len(),
        moved_items(items, a, b).to_multiset() == items.to_multiset(),
        moved_items(items, a, b)[b] == items[a],
{
    let rest = items.remove(a);
    broadcast use vstd::seq_lib::group_to_multiset_ensures;
    assert(items.to_multiset() == rest.to_multiset().insert(items[a])) by {
        assert(items == items.take(a) + seq![items[a]] + items.skip(a + 1));
        assert(rest == items.take(a) + items.skip(a + 1));
        vstd::seq_lib::lemma_multiset_commutative(items.take(a), seq![items[a]] + items.skip(a + 1));
        vstd::seq_lib::lemma_multiset_commutative(seq![items[a]], items.skip(a + 1));
        vstd::seq_lib::lemma_multiset_commutative(items.take(a), items.skip(a + 1));
    }
    let moved = rest.insert(b, items[a]);
    assert(moved.to_multiset() == rest.to_multiset().insert(items[a])) by {
        assert(moved == rest.take(b) + seq![items[a]] + rest.skip(b));
        assert(rest == rest.take(b) + rest.skip(b));
        vstd::seq_lib::lemma_multiset_commutative(rest.take(b), seq![items[a]] + rest.skip(b));
        vstd::seq_lib::lemma_multiset_commutative(seq![items[a]], rest.skip(b));
        vstd::seq_lib::lemma_multiset_commutative(rest.take(b), rest.skip(b));
    }
}

/// Keyboard handling keeps a non-empty list's length and keeps the
/// selection on one of its rows.
pub proof fn lemma_list_keys_in_range(events: Seq<Event>, consumed: Seq<bool>, n: nat, init: ListModel, reorder: bool)
    requires
        n <= events.len(),
        n <= consumed.len(),
        0 <= init.1 < init.0.len(),
    ensures
        list_keys(events, consumed, n, init, reorder).0.len() == init.0.len(),
        0 <= list_keys(events, consumed, n, init, reorder).1 < init.0.len(),
    decreases n,
{
    if n > 0 {
        lemma_list_keys_in_range(events, consumed, (n - 1) as nat, init, reorder);
    }
}

/// Without Shift or Alt a key only navigates: the items and the last move
/// stay as they were.
pub proof fn lemma_plain_key_never_reorders(st: ListModel, k: KeyEvent)
    requires
        !reorder_modded(k.modifiers),
    ensures
        list_key(st, k, true).0 == st.0,
        list_key(st, k, true).2 == st.2,
{
}


/// Up/`k` and Down/`j` move a selection within `[0, last]` by exactly one
/// row, staying put at the ends, and each undoes the other.
pub proof fn lemma_nav_one_row(sel: int, last: int)
    requires
        0 <= sel <= last,
    ensures
        nav_step(sel, last, KeyCode::Down) == (if sel < last { sel + 1 } else { last }),
        nav_step(sel, last, KeyCode::Char('j')) == nav_step(sel, last, KeyCode::Down),
        nav_step(sel, last, KeyCode::Up) == (if sel > 0 { sel - 1 } else { 0 }),
        nav_step(sel, last, KeyCode::Char('k')) == nav_step(sel, last, KeyCode::Up),
        sel > 0 ==> nav_step(nav_step(sel, last, KeyCode::Up), last, KeyCode::Down) == sel,
        sel < last ==> nav_step(nav_step(sel, last, KeyCode::Down), last, KeyCode::Up) == sel,
{
}

} // verus!
