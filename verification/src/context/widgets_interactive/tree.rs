//! Tree views: nested items shown as an outline whose branches open and
//! close.
use vstd::prelude::*;
use crate::command::Command;
use crate::context::{no_response, plain_container_args, Context, Response};
use crate::context::widgets_display::text::is_plain_text;
use crate::context::widgets_interactive::collections::{handle_vertical_nav, list_column, nav_step, WidgetColors};
use crate::context::widgets_interactive::selection::sat_inc_usize;
use crate::event::{Event, KeyCode, KeyEventKind};
use crate::style::{fg_style, with_mods, Direction, Style, Theme, BOLD};

verus! {

/// A node of a tree, stored in pre-order: its children are the nodes right
/// after it that are deeper, up to the next node that is not.
pub struct TreeItem {
    pub label: String,
    /// Nesting level; 0 for the roots.
    pub depth: usize,
    /// Whether its children are shown.
    pub expanded: bool,
}

/// A tree's nodes in pre-order and the selected row among those shown.
pub struct TreeState {
    pub items: Vec<TreeItem>,
    /// Index of the selected row among the shown nodes.
    pub selected: usize,
}

/// The shown nodes among the first `k`, by index, and the depth below which
/// nodes are hidden under a closed node (if any).
pub open spec fn shown_scan(items: Seq<TreeItem>, k: int) -> (Seq<int>, Option<int>)
    decreases k,
{
    if k <= 0 {
        (seq![], None)
    } else {
        let (shown, cut) = shown_scan(items, k - 1);
        let it = items[k - 1];
        let hidden = match cut { Some(d) => it.depth > d, None => false };
        if hidden {
            (shown, cut)
        } else {
            (shown.push(k - 1), if it.expanded { None } else { Some(it.depth as int) })
        }
    }
}

/// The nodes shown, by index: those with no closed node above them.
pub open spec fn shown(items: Seq<TreeItem>) -> Seq<int> {
    shown_scan(items, items.len() as int).0
}

/// Whether node `k` has children: the next node is deeper.
pub open spec fn has_children(items: Seq<TreeItem>, k: int) -> bool {
    let n = items.len();
    k + 1 < n && items[k + 1].depth > items[k].depth
}

proof fn lemma_shown_scan_indices(items: Seq<TreeItem>, k: int)
    requires
        0 <= k <= items.len(),
    ensures
        forall|j: int| 0 <= j < shown_scan(items, k).0.len() ==> 0 <= #[trigger] shown_scan(items, k).0[j] < k,
        shown_scan(items, k).0.len() <= k,
    decreases k,
{
    if k > 0 {
        lemma_shown_scan_indices(items, k - 1);
    }
}

impl TreeState {
    /// The shown nodes' indices (see [`shown`]).
    pub fn flatten(&self) -> (r: Vec<usize>)
        ensures
            r@.len() == shown(self.items@).len(),
            forall|j: int| 0 <= j < r@.len() ==> #[trigger] r@[j] as int == shown(self.items@)[j],
            forall|j: int| 0 <= j < r@.len() ==> #[trigger] r@[j] < self.items@.len(),
    {
        let n = self.items.len();
        let mut out: Vec<usize> = Vec::new();
        let mut cut: Option<usize> = None;
        let mut k: usize = 0;
        while k < n
            invariant
                k <= n == self.items@.len(),
                out@.len() == shown_scan(self.items@, k as int).0.len(),
                forall|j: int| 0 <= j < out@.len() ==> #[trigger] out@[j] as int == shown_scan(self.items@, k as int).0[j],
                shown_scan(self.items@, k as int).1 == (match cut {
                    Some(d) => Some(d as int),
                    None => None,
                }),
            decreases n - k,
        {
            let depth = self.items[k].depth;
            let expanded = self.items[k].expanded;
            let hidden: bool = match cut {
                Some(d) => depth > d,
                None => false,
            };
            if !hidden {
                out.push(k);
                if expanded {
                    cut = None;
                } else {
                    cut = Some(depth);
                }
            }
            k = k + 1;
        }
        proof {
            lemma_shown_scan_indices(self.items@, n as int);
        }
        out
    }

    /// Open the shown node at row `row` when it is closed, close it when it
    /// is open; rows past the end change nothing.
    pub fn toggle_at(&mut self, row: usize)
        ensures
            final(self).selected == old(self).selected,
            final(self).items@.len() == old(self).items@.len(),
            ({
                let sh = shown(old(self).items@);
                forall|k: int| 0 <= k < old(self).items@.len() ==> {
                    &&& (#[trigger] final(self).items@[k]).label == old(self).items@[k].label
                    &&& final(self).items@[k].depth == old(self).items@[k].depth
                    &&& final(self).items@[k].expanded == if row < sh.len() && k == sh[row as int] {
                        !old(self).items@[k].expanded } else { old(self).items@[k].expanded }
                }
            }),
    {
        let sh = self.flatten();
        if row < sh.len() {
            let k = sh[row];
            let old_item = &self.items[k];
            let item = TreeItem { label: old_item.label.clone(), depth: old_item.depth, expanded: !old_item.expanded };
            self.items.set(k, item);
        }
    }
}


/// Depth and open flag of each node, in order.
pub open spec fn tree_shape(items: Seq<TreeItem>) -> Seq<(int, bool)> {
    Seq::new(items.len(), |k: int| (items[k].depth as int, items[k].expanded))
}

/// The shown nodes of a shape (see [`shown`]).
pub open spec fn shape_scan(sh: Seq<(int, bool)>, k: int) -> (Seq<int>, Option<int>)
    decreases k,
{
    if k <= 0 {
        (seq![], None)
    } else {
        let (s, cut) = shape_scan(sh, k - 1);
        let (d, open) = sh[k - 1];
        if (match cut { Some(c) => d > c, None => false }) {
            (s, cut)
        } else {
            (s.push(k - 1), if open { None } else { Some(d) })
        }
    }
}

/// The shown nodes of a shape.
pub open spec fn shape_shown(sh: Seq<(int, bool)>) -> Seq<int> {
    shape_scan(sh, sh.len() as int).0
}

/// A shape with the node shown at `row` opened or closed.
pub open spec fn shape_toggled(sh: Seq<(int, bool)>, row: int) -> Seq<(int, bool)> {
    let s = shape_shown(sh);
    if 0 <= row < s.len() { sh.update(s[row], (sh[s[row]].0, !sh[s[row]].1)) } else { sh }
}

/// Shape, selected row and change flag after one key press of a focused
/// tree; `first` is the shape the frame started with (Left reads it).
pub open spec fn tree_key(st: (Seq<(int, bool)>, int, bool), first: Seq<(int, bool)>, code: KeyCode, sel0: int)
    -> (Seq<(int, bool)>, int, bool) {
    let (sh, sel, changed) = st;
    match code {
        KeyCode::Up | KeyCode::Char('k') | KeyCode::Down | KeyCode::Char('j') => {
            let ns = nav_step(sel, shape_shown(sh).len() - 1, code);
            (sh, ns, changed || ns != sel0)
        },
        KeyCode::Right => {
            let f = shape_shown(sh);
            let at = if sel < f.len() - 1 { sel } else { f.len() - 1 };
            if f.len() > 0 && shape_has_children(sh, f[at]) && !sh[f[at]].1 { (shape_toggled(sh, sel), sel, true) } else { st }
        },
        KeyCode::Enter | KeyCode::Char(' ') => (shape_toggled(sh, sel), sel, true),
        KeyCode::Left => {
            let f = shape_shown(first);
            let at = if sel < f.len() - 1 { sel } else { f.len() - 1 };
            if first[f[at]].1 { (shape_toggled(sh, sel), sel, true) } else { st }
        },
        _ => st,
    }
}

/// The keys a focused tree claims.
pub open spec fn tree_codes() -> Seq<KeyCode> {
    seq![KeyCode::Up, KeyCode::Char('k'), KeyCode::Down, KeyCode::Char('j'), KeyCode::Right, KeyCode::Enter,
        KeyCode::Char(' '), KeyCode::Left]
}

/// The unclaimed key presses among the first `n` events applied in order.
pub open spec fn tree_keys(events: Seq<Event>, consumed: Seq<bool>, n: nat, st: (Seq<(int, bool)>, int, bool),
    first: Seq<(int, bool)>, sel0: int) -> (Seq<(int, bool)>, int, bool)
    decreases n,
{
    if n == 0 {
        st
    } else {
        let prev = tree_keys(events, consumed, (n - 1) as nat, st, first, sel0);
        if consumed[n - 1] {
            prev
        } else {
            match events[n - 1] {
                Event::Key(k) => if k.kind == KeyEventKind::Press { tree_key(prev, first, k.code, sel0) } else { prev },
                _ => prev,
            }
        }
    }
}

proof fn lemma_shape_scan_matches(items: Seq<TreeItem>, k: int)
    requires
        0 <= k <= items.len(),
    ensures
        shape_scan(tree_shape(items), k) == shown_scan(items, k),
    decreases k,
{
    if k > 0 {
        lemma_shape_scan_matches(items, k - 1);
    }
}

proof fn lemma_shape_scan_indices(sh: Seq<(int, bool)>, k: int)
    requires
        0 <= k <= sh.len(),
    ensures
        forall|j: int| 0 <= j < shape_scan(sh, k).0.len() ==> 0 <= #[trigger] shape_scan(sh, k).0[j] < k,
        shape_scan(sh, k).0.len() <= k,
    decreases k,
{
    if k > 0 {
        lemma_shape_scan_indices(sh, k - 1);
        let prev = shape_scan(sh, k - 1).0;
        assert forall|j: int| 0 <= j < shape_scan(sh, k).0.len() implies 0 <= #[trigger] shape_scan(sh, k).0[j] < k by {
            if j < prev.len() {
                assert(shape_scan(sh, k).0[j] == prev[j]);
            }
        }
    }
}

impl TreeState {
    /// The shown rows' shape.
    pub open spec fn shape(&self) -> Seq<(int, bool)> {
        tree_shape(self.items@)
    }
}

/// Style of a tree row.
pub open spec fn tree_row_style(t: Theme, selected: bool, focused: bool) -> Style {
    if selected && focused {
        with_mods(fg_style(t.primary), BOLD)
    } else if selected {
        fg_style(t.primary)
    } else {
        fg_style(t.text)
    }
}

/// `s` repeated `n` times.
pub open spec fn times(s: Seq<char>, n: nat) -> Seq<char>
    decreases n,
{
    if n == 0 { seq![] } else { times(s, (n - 1) as nat) + s }
}

/// The text of the row showing node `k`: the cursor mark, two spaces per
/// level, the branch icon and the label.
pub open spec fn tree_row_text(items: Seq<TreeItem>, k: int, selected: bool, focused: bool) -> Seq<char> {
    let it = items[k];
    let icon = if !has_children(items, k) { seq![' ', ' '] } else if it.expanded { seq!['▾', ' '] } else { seq!['▸', ' '] };
    (if selected && focused { seq!['▸'] } else { seq![' '] }) + times(seq![' ', ' '], it.depth as nat) + icon + it.label@
}


/// The labels of a tree's nodes.
pub open spec fn tree_labels(items: Seq<TreeItem>) -> Seq<Seq<char>> {
    Seq::new(items.len(), |k: int| items[k].label@)
}

impl TreeState {
    /// Open or close the node shown at `row` (see [`shape_toggled`]).
    fn toggle_row(&mut self, row: usize)
        ensures
            final(self).shape() == shape_toggled(old(self).shape(), row as int),
            tree_labels(final(self).items@) == tree_labels(old(self).items@),
            final(self).selected == old(self).selected,
    {
        proof {
            lemma_shape_scan_matches(old(self).items@, old(self).items@.len() as int);
            lemma_shape_scan_indices(old(self).shape(), old(self).items@.len() as int);
        }
        self.toggle_at(row);
        proof {
            let sh = old(self).shape();
            assert(final(self).shape() =~= shape_toggled(sh, row as int));
            assert(tree_labels(final(self).items@) =~= tree_labels(old(self).items@));
        }
    }
}

/// `s` repeated `n` times.
fn repeat_times(s: &str, n: usize) -> (r: String)
    ensures
        r@ == times(s@, n as nat),
{
    let mut out = String::new();
    let mut k: usize = 0;
    while k < n
        invariant
            k <= n,
            out@ == times(s@, k as nat),
        decreases n - k,
    {
        out.append(s);
        k = k + 1;
    }
    out
}

impl Context {
    /// Apply this frame's unclaimed key presses to a focused tree.
    fn tree_handle_keys(&mut self, state: &mut TreeState, first_rows: &Vec<usize>, first_open: &Vec<bool>) -> (ch: bool)
        requires
            old(self).wf(),
            first_rows@.len() > 0,
            first_open@.len() == old(state).items@.len(),
            forall|k: int| 0 <= k < first_open@.len() ==> #[trigger] first_open@[k] == old(state).items@[k].expanded,
            first_rows@.len() == shown(old(state).items@).len(),
            forall|j: int| 0 <= j < first_rows@.len() ==> #[trigger] first_rows@[j] as int == shown(old(state).items@)[j],
            forall|j: int| 0 <= j < first_rows@.len() ==> #[trigger] first_rows@[j] < first_open@.len(),
        ensures
            final(self).wf(),
            ({
                let first = Seq::new(first_open@.len(), |k: int| (old(state).items@[k].depth as int, first_open@[k]));
                let st = tree_keys(old(self).events@, old(self).consumed@, old(self).events@.len() as nat,
                    (old(state).shape(), old(state).selected as int, false), first, old(state).selected as int);
                &&& final(state).shape() == st.0
                &&& final(state).selected == st.1
                &&& ch == st.2
                &&& tree_labels(final(state).items@) == tree_labels(old(state).items@)
            }),
            forall|i: int| 0 <= i < final(self).consumed@.len() ==> #[trigger] final(self).consumed@[i]
                == (old(self).consumed@[i] || old(self).live_press_in(i, tree_codes())),
            final(self).consumed@.len() == old(self).consumed@.len(),
            *final(self) == (Context { consumed: final(self).consumed, ..*old(self) }),
    {
        let ghost first = Seq::new(first_open@.len(), |k: int| (old(state).items@[k].depth as int, first_open@[k]));
        proof {
            assert(first =~= old(state).shape());
            lemma_shape_scan_matches(old(state).items@, old(state).items@.len() as int);
        }
        let n = self.events.len();
        let sel_start = state.selected;
        let mut changed = false;
        let mut i: usize = 0;
        while i < n
            invariant
                n == self.events@.len(),
                sel_start == old(state).selected,
                i <= n,
                self.wf(),
                self.consumed@.len() == n,
                first_rows@.len() > 0,
                first == Seq::new(first_open@.len(), |k: int| (old(state).items@[k].depth as int, first_open@[k])),
                first == old(state).shape(),
                first_open@.len() == old(state).items@.len(),
                first_rows@.len() == shape_shown(first).len(),
                forall|j: int| 0 <= j < first_rows@.len() ==> #[trigger] first_rows@[j] as int == shape_shown(first)[j],
                forall|j: int| 0 <= j < first_rows@.len() ==> #[trigger] first_rows@[j] < first_open@.len(),
                *self == (Context { consumed: self.consumed, ..*old(self) }),
                tree_labels(state.items@) == tree_labels(old(state).items@),
                (state.shape(), state.selected as int, changed) == tree_keys(old(self).events@, old(self).consumed@, i as nat,
                    (old(state).shape(), old(state).selected as int, false), first, old(state).selected as int),
                forall|j: int| 0 <= j < n ==> #[trigger] self.consumed@[j] == (old(self).consumed@[j]
                    || (j < i && old(self).live_press_in(j, tree_codes()))),
            decreases n - i,
        {
            if !self.consumed[i] {
                match &self.events[i] {
                    Event::Key(k) => {
                        if k.kind == KeyEventKind::Press {
                            let ghost tc = tree_codes();
                            let ghost before = (state.shape(), state.selected as int, changed);
                            let code = k.code;
                            let claim = match code {
                                KeyCode::Up | KeyCode::Down | KeyCode::Right | KeyCode::Enter | KeyCode::Left => true,
                                KeyCode::Char(c) => c == 'k' || c == 'j' || c == ' ',
                                _ => false,
                            };
                            let up = match code { KeyCode::Up => true, KeyCode::Char(c) => c == 'k', _ => false };
                            let down = match code { KeyCode::Down => true, KeyCode::Char(c) => c == 'j', _ => false };
                            let flip = match code { KeyCode::Enter => true, KeyCode::Char(c) => c == ' ', _ => false };
                            let right = match code { KeyCode::Right => true, _ => false };
                            let left = match code { KeyCode::Left => true, _ => false };
                            proof {
                                lemma_shape_scan_matches(state.items@, state.items@.len() as int);
                                match code {
                                    KeyCode::Up => assert(tc[0] == code),
                                    KeyCode::Down => assert(tc[2] == code),
                                    KeyCode::Right => assert(tc[4] == code),
                                    KeyCode::Enter => assert(tc[5] == code),
                                    KeyCode::Left => assert(tc[7] == code),
                                    KeyCode::Char(c) => {
                                        if c == 'k' { assert(tc[1] == code); } else if c == 'j' { assert(tc[3] == code); }
                                        else if c == ' ' { assert(tc[6] == code); } else if tc.contains(code) {
                                            let w = choose|w: int| 0 <= w < tc.len() && tc[w] == code;
                                            assert(0 <= w < 8);
                                        }
                                    },
                                    _ => {
                                        if tc.contains(code) {
                                            let w = choose|w: int| 0 <= w < tc.len() && tc[w] == code;
                                            assert(0 <= w < 8);
                                        }
                                    },
                                }
                            }
                            if up {
                                if state.selected > 0 {
                                    state.selected = state.selected - 1;
                                }
                                changed = changed || state.selected != sel_start;
                            } else if down {
                                let rows = state.flatten();
                                if rows.len() > 0 && state.selected < rows.len() - 1 {
                                    state.selected = state.selected + 1;
                                }
                                changed = changed || state.selected != sel_start;
                            } else if flip {
                                let s = state.selected;
                                state.toggle_row(s);
                                changed = true;
                            } else if right {
                                let rows = state.flatten();
                                if rows.len() > 0 {
                                    let at = if state.selected < rows.len() - 1 { state.selected } else { rows.len() - 1 };
                                    let k = rows[at];
                                    let n_items = state.items.len();
                                    let kids = k + 1 < n_items && state.items[k + 1].depth > state.items[k].depth;
                                    if kids && !state.items[k].expanded {
                                        let s = state.selected;
                                        state.toggle_row(s);
                                        changed = true;
                                    }
                                }
                            } else if left {
                                let len0 = first_rows.len();
                                let at = if state.selected < len0 - 1 { state.selected } else { len0 - 1 };
                                if first_open[first_rows[at]] {
                                    let s = state.selected;
                                    state.toggle_row(s);
                                    changed = true;
                                }
                            }
                            proof {
                                assert((state.shape(), state.selected as int, changed) == tree_key(before, first, code, old(state).selected as int));
                            }
                            if claim {
                                self.consumed.set(i, true);
                            }
                        }
                    },
                    _ => {},
                }
            }
            i = i + 1;
        }
        changed
    }
}


fn has_children_exec(items: &Vec<TreeItem>, k: usize) -> (r: bool)
    requires
        k < items@.len(),
    ensures
        r == has_children(items@, k as int),
{
    let n = items.len();
    k + 1 < n && items[k + 1].depth > items[k].depth
}

impl Context {
    fn tree_render(&mut self, state: &TreeState, focused: bool)
        requires
            old(self).wf(),
        ensures
            final(self).wf(),
            ({
                let n0 = old(self).commands@.len() as int;
                let t = old(self).theme;
                let rows = shown(state.items@);
                let c = final(self).commands@;
                &&& c.len() == n0 + rows.len() + 2
                &&& c.take(n0) == old(self).commands@
                &&& c[n0] == Command::BeginContainer(list_column(t, WidgetColors { fg: None, bg: None, border: None, accent: None }))
                &&& forall|j: int| 0 <= j < rows.len() ==> is_plain_text(#[trigger] c[n0 + 1 + j],
                    tree_row_text(state.items@, rows[j], j == state.selected, focused),
                    tree_row_style(t, j == state.selected, focused))
                &&& c[n0 + rows.len() + 1] == Command::EndContainer
                &&& *final(self) == (Context { commands: final(self).commands, last_text_idx: None, ..*old(self) })
            }),
    {
        let t = self.theme;
        let ghost n0 = self.commands@.len() as int;
        let _ = self.commands.len();
        let rows = state.flatten();
        self.begin_container(plain_container_args(Direction::Column, 0, t.border));
        proof {
            crate::style::lemma_single_flags();
            reveal_strlit("▸"); reveal_strlit(" "); reveal_strlit("  "); reveal_strlit("▾ "); reveal_strlit("▸ ");
        }
        let mut j: usize = 0;
        while j < rows.len()
            invariant
                self.wf(),
                j <= rows@.len(),
                rows@.len() == shown(state.items@).len(),
                forall|q: int| 0 <= q < rows@.len() ==> #[trigger] rows@[q] as int == shown(state.items@)[q],
                forall|q: int| 0 <= q < rows@.len() ==> #[trigger] rows@[q] < state.items@.len(),
                n0 == old(self).commands@.len(),
                t == old(self).theme,
                "▸"@ == seq!['▸'], " "@ == seq![' '], "  "@ == seq![' ', ' '], "▾ "@ == seq!['▾', ' '], "▸ "@ == seq!['▸', ' '],
                self.commands@.len() == n0 + 1 + j,
                self.commands@.take(n0) == old(self).commands@,
                self.commands@[n0] == Command::BeginContainer(list_column(t, WidgetColors { fg: None, bg: None, border: None, accent: None })),
                forall|q: int| 0 <= q < j ==> is_plain_text(#[trigger] self.commands@[n0 + 1 + q],
                    tree_row_text(state.items@, shown(state.items@)[q], q == state.selected, focused),
                    tree_row_style(t, q == state.selected, focused)),
                *self == (Context { commands: self.commands, last_text_idx: self.last_text_idx, ..*old(self) }),
            decreases rows@.len() - j,
        {
            let ghost before = self.commands@;
            let k = rows[j];
            let sel = j == state.selected;
            let mut row = String::new();
            row.append(if sel && focused { "▸" } else { " " });
            let indent = repeat_times("  ", state.items[k].depth);
            row.append(indent.as_str());
            let icon: &str = if !has_children_exec(&state.items, k) { "  " } else if state.items[k].expanded { "▾ " } else { "▸ " };
            row.append(icon);
            row.append(state.items[k].label.as_str());
            proof {
                assert(row@ =~= tree_row_text(state.items@, k as int, sel, focused));
            }
            let style = if sel && focused { Style::new().bold().fg(t.primary) } else if sel { Style::new().fg(t.primary) }
                else { Style::new().fg(t.text) };
            self.styled(row.as_str(), style);
            proof {
                assert(self.commands@.drop_last() == before);
                assert forall|q: int| 0 <= q < before.len() implies self.commands@[q] == before[q] by {
                    assert(self.commands@.drop_last()[q] == self.commands@[q]);
                }
                assert(self.commands@.take(n0) =~= before.take(n0));
                assert forall|q: int| 0 <= q < j + 1 implies is_plain_text(#[trigger] self.commands@[n0 + 1 + q],
                    tree_row_text(state.items@, shown(state.items@)[q], q == state.selected, focused),
                    tree_row_style(t, q == state.selected, focused)) by {
                    if q < j {
                        assert(self.commands@[n0 + 1 + q] == before[n0 + 1 + q]);
                    } else {
                        assert(self.commands@[n0 + 1 + q] == self.commands@.last());
                    }
                }
            }
            j = j + 1;
        }
        let ghost body = self.commands@;
        self.end_container();
        proof {
            assert(self.commands@.drop_last() == body);
            assert forall|q: int| 0 <= q < body.len() implies self.commands@[q] == body[q] by {
                assert(self.commands@.drop_last()[q] == self.commands@[q]);
            }
            assert(self.commands@.take(n0) =~= body.take(n0));
        }
    }

    /// A tree view: one row per shown node, indented by depth, with `▾`
    /// on open and `▸` on closed branches. When focused, Up/`k` and Down/`j`
    /// move the selection, Right opens a closed branch, Enter and Space open
    /// or close the selected node, and Left closes it when it was open at the
    /// start of the frame.
    /// With nothing to show nothing is drawn. The response is changed when a
    /// node was opened or closed, or the selection stood off its starting row
    /// after any move this frame (so Down then Up counts).
    #[verifier::rlimit(100)]
    #[verifier::spinoff_prover]
    pub fn tree(&mut self, state: &mut TreeState) -> (r: Response)
        requires
            old(self).wf(),
        ensures
            final(self).wf(),
            tree_labels(final(state).items@) == tree_labels(old(state).items@),
            shown(old(state).items@).len() == 0 ==> *final(self) == *old(self) && final(state).selected == old(state).selected
                && final(state).shape() == old(state).shape() && r == no_response(),
            shown(old(state).items@).len() > 0 ==> {
                let len = shown(old(state).items@).len();
                let sel0 = if old(state).selected < len { old(state).selected as int } else { len - 1 };
                let focused = old(self).next_focusable_is_focused();
                let id = old(self).interaction_count as int;
                let st = if focused { tree_keys(old(self).events@, old(self).consumed@, old(self).events@.len() as nat,
                    (old(state).shape(), sel0, false), old(state).shape(), sel0) } else { (old(state).shape(), sel0, false) };
                let n0 = old(self).commands@.len() as int;
                let m = if focused { 1int } else { 0int };
                let c = final(self).commands@;
                let rows = shown(final(state).items@);
                &&& final(state).shape() == st.0
                &&& final(state).selected == st.1
                &&& r == Response { focused, changed: st.2 || st.1 != sel0, ..old(self).spec_response_for(id) }
                &&& final(self).consumed@.len() == old(self).consumed@.len()
                &&& forall|i: int| 0 <= i < final(self).consumed@.len() ==> #[trigger] final(self).consumed@[i]
                    == (old(self).consumed@[i] || (focused && old(self).live_press_in(i, tree_codes())))
                &&& c.take(n0) == old(self).commands@
                &&& (focused ==> c[n0] == Command::FocusMarker(old(self).focus_count))
                &&& c[n0 + m] == Command::InteractionMarker(id as usize)
                &&& c.len() == n0 + m + rows.len() + 3
                &&& forall|j: int| 0 <= j < rows.len() ==> is_plain_text(#[trigger] c[n0 + m + 2 + j],
                    tree_row_text(final(state).items@, rows[j], j == st.1, focused),
                    tree_row_style(old(self).theme, j == st.1, focused))
                &&& c[n0 + m + 2 + rows.len()] == Command::EndContainer
                &&& *final(self) == (Context {
                    commands: final(self).commands,
                    consumed: final(self).consumed,
                    focus_count: sat_inc_usize(old(self).focus_count),
                    interaction_count: sat_inc_usize(old(self).interaction_count),
                    last_text_idx: None,
                    ..*old(self)
                })
            },
    {
        let first_rows = state.flatten();
        if first_rows.len() == 0 {
            return Response::none();
        }
        let len = first_rows.len();
        if state.selected >= len {
            state.selected = len - 1;
        }
        let old_selected = state.selected;
        let mut first_open: Vec<bool> = Vec::new();
        let mut k: usize = 0;
        while k < state.items.len()
            invariant
                k <= state.items@.len(),
                first_open@.len() == k,
                forall|q: int| 0 <= q < k ==> #[trigger] first_open@[q] == state.items@[q].expanded,
            decreases state.items@.len() - k,
        {
            first_open.push(state.items[k].expanded);
            k = k + 1;
        }
        let ghost start = *state;
        let (focused, base) = self.open_control();
        let ghost opened = *self;
        let mut changed = false;
        proof {
            assert(Seq::new(first_open@.len(), |q: int| (start.items@[q].depth as int, first_open@[q])) =~= start.shape());
            assert(start.shape() =~= old(state).shape());
            lemma_shape_scan_matches(start.items@, start.items@.len() as int);
        }
        if focused {
            changed = self.tree_handle_keys(state, &first_rows, &first_open);
        }
        proof {
            assert(start.shape() == old(state).shape()) by {
                assert(start.items == old(state).items);
            }
            assert(self.consumed@ =~= Seq::new(old(self).consumed@.len(), |i: int| old(self).consumed@[i]
                || (focused && old(self).live_press_in(i, tree_codes()))));
            if !focused {
                assert(tree_labels(state.items@) =~= tree_labels(old(state).items@));
            }
        }
        let ghost before_render = *self;
        self.tree_render(state, focused);
        proof {
            let m = if focused { 1int } else { 0int };
            let n0 = old(self).commands@.len() as int;
            let nb = before_render.commands@.len() as int;
            assert(nb == n0 + m + 1);
            assert forall|q: int| 0 <= q < nb implies self.commands@[q] == before_render.commands@[q] by {
                assert(self.commands@.take(nb)[q] == before_render.commands@[q]);
            }
            assert(self.commands@.take(n0) =~= old(self).commands@) by {
                assert forall|q: int| 0 <= q < n0 implies self.commands@[q] == old(self).commands@[q] by {
                    assert(before_render.commands@[q] == opened.commands@[q]);
                    if focused {
                        assert(opened.commands@[q] == old(self).commands@.push(Command::FocusMarker(old(self).focus_count))[q]);
                    } else {
                        assert(opened.commands@[q] == old(self).commands@.push(Command::InteractionMarker(old(self).interaction_count))[q]);
                    }
                }
            }
            assert(self.commands@[n0 + m] == before_render.commands@[n0 + m]);
            if focused {
                assert(self.commands@[n0] == before_render.commands@[n0]);
            }
            let rows = shown(state.items@);
            assert forall|j: int| 0 <= j < rows.len() implies is_plain_text(#[trigger] self.commands@[n0 + m + 2 + j],
                tree_row_text(state.items@, rows[j], j == state.selected, focused),
                tree_row_style(old(self).theme, j == state.selected, focused)) by {
                assert(nb + 1 + j == n0 + m + 2 + j);
                assert(is_plain_text(self.commands@[nb + 1 + j],
                    tree_row_text(state.items@, rows[j], j == state.selected, focused),
                    tree_row_style(before_render.theme, j == state.selected, focused)));
            }
        }
        let changed_sel = state.selected != old_selected;
        Response { focused, changed: changed || changed_sel, ..base }
    }
}


/// Whether node `j` has a later sibling, scanning from `m`: the next node
/// at its depth before any shallower one.
pub open spec fn later_sibling(sh: Seq<(int, bool)>, j: int, m: int) -> bool
    decreases sh.len() - m,
{
    if m < 0 || m >= sh.len() || j < 0 || j >= sh.len() {
        false
    } else if sh[m].0 < sh[j].0 {
        false
    } else if sh[m].0 == sh[j].0 {
        true
    } else {
        later_sibling(sh, j, m + 1)
    }
}

/// The nearest node at or before `j` no deeper than `level`; -1 if none.
pub open spec fn ancestor_at(sh: Seq<(int, bool)>, level: int, j: int) -> int
    decreases j + 1,
{
    if j < 0 || j >= sh.len() {
        -1
    } else if sh[j].0 <= level {
        j
    } else {
        ancestor_at(sh, level, j - 1)
    }
}

/// Whether the guide column `level` of node `k`'s row shows a line: the
/// enclosing node at that level has a later sibling.
pub open spec fn guide_at(sh: Seq<(int, bool)>, k: int, level: int) -> bool {
    let a = ancestor_at(sh, level, k - 1);
    a >= 0 && sh[a].0 == level && later_sibling(sh, a, a + 1)
}

/// The guides and connector of node `k`'s row: a column per level above
/// it, then `└── ` for a last child or `├── ` otherwise; nothing for roots.
pub open spec fn connector(sh: Seq<(int, bool)>, k: int) -> Seq<char> {
    if sh[k].0 <= 0 {
        seq![]
    } else {
        guides(sh, k, sh[k].0) + if later_sibling(sh, k, k + 1) { seq!['├', '─', '─', ' '] } else { seq!['└', '─', '─', ' '] }
    }
}

/// The guide columns for levels `0..n` of node `k`'s row.
pub open spec fn guides(sh: Seq<(int, bool)>, k: int, n: int) -> Seq<char>
    decreases n,
{
    if n <= 0 {
        seq![]
    } else {
        guides(sh, k, n - 1) + if guide_at(sh, k, n - 1) { seq!['│', ' ', ' ', ' '] } else { seq![' ', ' ', ' ', ' '] }
    }
}

/// The text of a directory row for node `k`.
pub open spec fn dir_row_text(items: Seq<TreeItem>, k: int, selected: bool, focused: bool, icons: bool) -> Seq<char> {
    let sh = tree_shape(items);
    let it = items[k];
    let icon = if !has_children(items, k) { seq![' ', ' '] } else if it.expanded { seq!['▾', ' '] } else { seq!['▸', ' '] };
    (if selected && focused { seq!['▸'] } else { seq![' '] }) + seq![' '] + connector(sh, k)
        + (if icons { icon } else { seq![] }) + it.label@
}

fn later_sibling_exec(items: &Vec<TreeItem>, j: usize) -> (r: bool)
    requires
        j < items@.len(),
    ensures
        r == later_sibling(tree_shape(items@), j as int, j + 1),
{
    let n = items.len();
    let d = items[j].depth;
    let mut m = j + 1;
    while m < n
        invariant
            j < n == items@.len(),
            j + 1 <= m <= n,
            d == items@[j as int].depth,
            later_sibling(tree_shape(items@), j as int, m as int) == later_sibling(tree_shape(items@), j as int, j + 1),
        decreases n - m,
    {
        if items[m].depth < d {
            return false;
        }
        if items[m].depth == d {
            return true;
        }
        m = m + 1;
    }
    false
}

fn guide_at_exec(items: &Vec<TreeItem>, k: usize, level: usize) -> (r: bool)
    requires
        k < items@.len(),
    ensures
        r == guide_at(tree_shape(items@), k as int, level as int),
{
    let ghost sh = tree_shape(items@);
    let mut j: usize = k;
    while j > 0 && items[j - 1].depth > level
        invariant
            j <= k < items@.len(),
            sh == tree_shape(items@),
            ancestor_at(sh, level as int, j - 1) == ancestor_at(sh, level as int, k - 1),
        decreases j,
    {
        j = j - 1;
    }
    if j == 0 {
        return false;
    }
    let a = j - 1;
    items[a].depth == level && later_sibling_exec(items, a)
}

fn guides_exec(items: &Vec<TreeItem>, k: usize, n: usize) -> (r: String)
    requires
        k < items@.len(),
    ensures
        r@ == guides(tree_shape(items@), k as int, n as int),
{
    let mut out = String::new();
    let mut l: usize = 0;
    proof {
        reveal_strlit("│   ");
        reveal_strlit("    ");
    }
    while l < n
        invariant
            l <= n,
            k < items@.len(),
            "│   "@ == seq!['│', ' ', ' ', ' '],
            "    "@ == seq![' ', ' ', ' ', ' '],
            out@ == guides(tree_shape(items@), k as int, l as int),
        decreases n - l,
    {
        if guide_at_exec(items, k, l) {
            out.append("│   ");
        } else {
            out.append("    ");
        }
        l = l + 1;
    }
    out
}

fn connector_exec(items: &Vec<TreeItem>, k: usize) -> (r: String)
    requires
        k < items@.len(),
    ensures
        r@ == connector(tree_shape(items@), k as int),
{
    let d = items[k].depth;
    if d == 0 {
        return String::new();
    }
    let mut out = guides_exec(items, k, d);
    proof {
        reveal_strlit("├── ");
        reveal_strlit("└── ");
    }
    if later_sibling_exec(items, k) {
        out.append("├── ");
    } else {
        out.append("└── ");
    }
    out
}


/// A tree drawn with guide lines and branch connectors.
pub struct DirectoryTreeState {
    pub tree: TreeState,
    /// Show the branch icons before the labels.
    pub show_icons: bool,
}

/// Whether node `k` of a shape has children.
pub open spec fn shape_has_children(sh: Seq<(int, bool)>, k: int) -> bool {
    k + 1 < sh.len() && sh[k + 1].0 > sh[k].0
}

/// Shape, selected row and change flag after one key press of a focused
/// directory tree: Up/`k`, Down/`j` move; Right opens a closed branch;
/// Enter and Space open or close; Left closes an open node.
pub open spec fn dir_key(st: (Seq<(int, bool)>, int, bool), code: KeyCode, sel0: int) -> (Seq<(int, bool)>, int, bool) {
    let (sh, sel, changed) = st;
    let f = shape_shown(sh);
    let at = if sel < f.len() - 1 { sel } else { f.len() - 1 };
    match code {
        KeyCode::Up | KeyCode::Char('k') | KeyCode::Down | KeyCode::Char('j') => {
            let ns = nav_step(sel, f.len() - 1, code);
            (sh, ns, changed || ns != sel0)
        },
        KeyCode::Right => if f.len() > 0 && shape_has_children(sh, f[at]) && !sh[f[at]].1 {
            (shape_toggled(sh, sel), sel, true) } else { st },
        KeyCode::Enter | KeyCode::Char(' ') => (shape_toggled(sh, sel), sel, true),
        KeyCode::Left => if f.len() > 0 && sh[f[at]].1 { (shape_toggled(sh, sel), sel, true) } else { st },
        _ => st,
    }
}

/// The unclaimed key presses among the first `n` events applied in order.
pub open spec fn dir_keys(events: Seq<Event>, consumed: Seq<bool>, n: nat, st: (Seq<(int, bool)>, int, bool), sel0: int)
    -> (Seq<(int, bool)>, int, bool)
    decreases n,
{
    if n == 0 {
        st
    } else {
        let prev = dir_keys(events, consumed, (n - 1) as nat, st, sel0);
        if consumed[n - 1] {
            prev
        } else {
            match events[n - 1] {
                Event::Key(k) => if k.kind == KeyEventKind::Press { dir_key(prev, k.code, sel0) } else { prev },
                _ => prev,
            }
        }
    }
}

impl Context {
    fn dir_handle_keys(&mut self, state: &mut TreeState) -> (ch: bool)
        requires
            old(self).wf(),
        ensures
            final(self).wf(),
            ({
                let st = dir_keys(old(self).events@, old(self).consumed@, old(self).events@.len() as nat,
                    (old(state).shape(), old(state).selected as int, false), old(state).selected as int);
                &&& final(state).shape() == st.0
                &&& final(state).selected == st.1
                &&& ch == st.2
                &&& tree_labels(final(state).items@) == tree_labels(old(state).items@)
            }),
            forall|i: int| 0 <= i < final(self).consumed@.len() ==> #[trigger] final(self).consumed@[i]
                == (old(self).consumed@[i] || old(self).live_press_in(i, tree_codes())),
            final(self).consumed@.len() == old(self).consumed@.len(),
            *final(self) == (Context { consumed: final(self).consumed, ..*old(self) }),
    {
        let n = self.events.len();
        let sel_start = state.selected;
        let mut changed = false;
        let mut i: usize = 0;
        while i < n
            invariant
                n == self.events@.len(),
                sel_start == old(state).selected,
                i <= n,
                self.wf(),
                self.consumed@.len() == n,
                *self == (Context { consumed: self.consumed, ..*old(self) }),
                tree_labels(state.items@) == tree_labels(old(state).items@),
                (state.shape(), state.selected as int, changed) == dir_keys(old(self).events@, old(self).consumed@, i as nat,
                    (old(state).shape(), old(state).selected as int, false), old(state).selected as int),
                forall|j: int| 0 <= j < n ==> #[trigger] self.consumed@[j] == (old(self).consumed@[j]
                    || (j < i && old(self).live_press_in(j, tree_codes()))),
            decreases n - i,
        {
            if !self.consumed[i] {
                match &self.events[i] {
                    Event::Key(k) => {
                        if k.kind == KeyEventKind::Press {
                            let ghost tc = tree_codes();
                            let ghost before = (state.shape(), state.selected as int, changed);
                            let code = k.code;
                            let claim = match code {
                                KeyCode::Up | KeyCode::Down | KeyCode::Right | KeyCode::Enter | KeyCode::Left => true,
                                KeyCode::Char(c) => c == 'k' || c == 'j' || c == ' ',
                                _ => false,
                            };
                            let up = match code { KeyCode::Up => true, KeyCode::Char(c) => c == 'k', _ => false };
                            let down = match code { KeyCode::Down => true, KeyCode::Char(c) => c == 'j', _ => false };
                            let flip = match code { KeyCode::Enter => true, KeyCode::Char(c) => c == ' ', _ => false };
                            let right = match code { KeyCode::Right => true, _ => false };
                            let left = match code { KeyCode::Left => true, _ => false };
                            proof {
                                lemma_shape_scan_matches(state.items@, state.items@.len() as int);
                                match code {
                                    KeyCode::Up => assert(tc[0] == code),
                                    KeyCode::Down => assert(tc[2] == code),
                                    KeyCode::Right => assert(tc[4] == code),
                                    KeyCode::Enter => assert(tc[5] == code),
                                    KeyCode::Left => assert(tc[7] == code),
                                    KeyCode::Char(c) => {
                                        if c == 'k' { assert(tc[1] == code); } else if c == 'j' { assert(tc[3] == code); }
                                        else if c == ' ' { assert(tc[6] == code); } else if tc.contains(code) {
                                            let w = choose|w: int| 0 <= w < tc.len() && tc[w] == code;
                                            assert(0 <= w < 8);
                                        }
                                    },
                                    _ => {
                                        if tc.contains(code) {
                                            let w = choose|w: int| 0 <= w < tc.len() && tc[w] == code;
                                            assert(0 <= w < 8);
                                        }
                                    },
                                }
                            }
                            if up {
                                if state.selected > 0 {
                                    state.selected = state.selected - 1;
                                }
                                changed = changed || state.selected != sel_start;
                            } else if down {
                                let rows = state.flatten();
                                if rows.len() > 0 && state.selected < rows.len() - 1 {
                                    state.selected = state.selected + 1;
                                }
                                changed = changed || state.selected != sel_start;
                            } else if flip {
                                let s = state.selected;
                                state.toggle_row(s);
                                changed = true;
                            } else if right || left {
                                let rows = state.flatten();
                                if rows.len() > 0 {
                                    let at = if state.selected < rows.len() - 1 { state.selected } else { rows.len() - 1 };
                                    let k = rows[at];
                                    let n_items = state.items.len();
                                    let kids = k + 1 < n_items && state.items[k + 1].depth > state.items[k].depth;
                                    let open = state.items[k].expanded;
                                    if (right && kids && !open) || (left && open) {
                                        let s = state.selected;
                                        state.toggle_row(s);
                                        changed = true;
                                    }
                                }
                            }
                            proof {
                                assert((state.shape(), state.selected as int, changed) == dir_key(before, code, old(state).selected as int));
                            }
                            if claim {
                                self.consumed.set(i, true);
                            }
                        }
                    },
                    _ => {},
                }
            }
            i = i + 1;
        }
        changed
    }

    fn dir_render(&mut self, state: &DirectoryTreeState, focused: bool)
        requires
            old(self).wf(),
        ensures
            final(self).wf(),
            ({
                let n0 = old(self).commands@.len() as int;
                let t = old(self).theme;
                let items = state.tree.items@;
                let rows = shown(items);
                let c = final(self).commands@;
                &&& c.len() == n0 + rows.len() + 2
                &&& c.take(n0) == old(self).commands@
                &&& c[n0] == Command::BeginContainer(list_column(t, WidgetColors { fg: None, bg: None, border: None, accent: None }))
                &&& forall|j: int| 0 <= j < rows.len() ==> is_plain_text(#[trigger] c[n0 + 1 + j],
                    dir_row_text(items, rows[j], j == state.tree.selected, focused, state.show_icons),
                    tree_row_style(t, j == state.tree.selected, focused))
                &&& c[n0 + rows.len() + 1] == Command::EndContainer
                &&& *final(self) == (Context { commands: final(self).commands, last_text_idx: None, ..*old(self) })
            }),
    {
        let t = self.theme;
        let ghost n0 = self.commands@.len() as int;
        let _ = self.commands.len();
        let tree = &state.tree;
        let rows = tree.flatten();
        self.begin_container(plain_container_args(Direction::Column, 0, t.border));
        proof {
            crate::style::lemma_single_flags();
            reveal_strlit("▸"); reveal_strlit(" "); reveal_strlit("  "); reveal_strlit("▾ "); reveal_strlit("▸ ");
        }
        let mut j: usize = 0;
        while j < rows.len()
            invariant
                self.wf(),
                j <= rows@.len(),
                rows@.len() == shown(tree.items@).len(),
                forall|q: int| 0 <= q < rows@.len() ==> #[trigger] rows@[q] as int == shown(tree.items@)[q],
                forall|q: int| 0 <= q < rows@.len() ==> #[trigger] rows@[q] < tree.items@.len(),
                n0 == old(self).commands@.len(),
                t == old(self).theme,
                "▸"@ == seq!['▸'], " "@ == seq![' '], "  "@ == seq![' ', ' '], "▾ "@ == seq!['▾', ' '], "▸ "@ == seq!['▸', ' '],
                self.commands@.len() == n0 + 1 + j,
                self.commands@.take(n0) == old(self).commands@,
                self.commands@[n0] == Command::BeginContainer(list_column(t, WidgetColors { fg: None, bg: None, border: None, accent: None })),
                forall|q: int| 0 <= q < j ==> is_plain_text(#[trigger] self.commands@[n0 + 1 + q],
                    dir_row_text(tree.items@, shown(tree.items@)[q], q == tree.selected, focused, state.show_icons),
                    tree_row_style(t, q == tree.selected, focused)),
                *self == (Context { commands: self.commands, last_text_idx: self.last_text_idx, ..*old(self) }),
            decreases rows@.len() - j,
        {
            let ghost before = self.commands@;
            let k = rows[j];
            let sel = j == tree.selected;
            let mut row = String::new();
            row.append(if sel && focused { "▸" } else { " " });
            row.append(" ");
            let conn = connector_exec(&tree.items, k);
            row.append(conn.as_str());
            if state.show_icons {
                let icon: &str = if !has_children_exec(&tree.items, k) { "  " } else if tree.items[k].expanded { "▾ " } else { "▸ " };
                row.append(icon);
            }
            row.append(tree.items[k].label.as_str());
            proof {
                assert(row@ =~= dir_row_text(tree.items@, k as int, sel, focused, state.show_icons));
            }
            let style = if sel && focused { Style::new().bold().fg(t.primary) } else if sel { Style::new().fg(t.primary) }
                else { Style::new().fg(t.text) };
            self.styled(row.as_str(), style);
            proof {
                assert(self.commands@.drop_last() == before);
                assert forall|q: int| 0 <= q < before.len() implies self.commands@[q] == before[q] by {
                    assert(self.commands@.drop_last()[q] == self.commands@[q]);
                }
                assert(self.commands@.take(n0) =~= before.take(n0));
                assert forall|q: int| 0 <= q < j + 1 implies is_plain_text(#[trigger] self.commands@[n0 + 1 + q],
                    dir_row_text(tree.items@, shown(tree.items@)[q], q == tree.selected, focused, state.show_icons),
                    tree_row_style(t, q == tree.selected, focused)) by {
                    if q < j {
                        assert(self.commands@[n0 + 1 + q] == before[n0 + 1 + q]);
                    } else {
                        assert(self.commands@[n0 + 1 + q] == self.commands@.last());
                    }
                }
            }
            j = j + 1;
        }
        let ghost body = self.commands@;
        self.end_container();
        proof {
            assert(self.commands@.drop_last() == body);
            assert forall|q: int| 0 <= q < body.len() implies self.commands@[q] == body[q] by {
                assert(self.commands@.drop_last()[q] == self.commands@[q]);
            }
            assert(self.commands@.take(n0) =~= body.take(n0));
        }
    }
}


impl Context {
    /// A tree drawn like a directory listing: guide lines `│` for open
    /// levels with more entries below, `├── ` or `└── ` before each nested
    /// entry, the branch icons when enabled, then the label. When focused,
    /// Up/`k` and Down/`j` move the selection, Right opens a closed branch,
    /// Enter and Space open or close the selected node, and Left closes it.
    /// With nothing to show nothing is drawn. The response is changed when a
    /// node was opened or closed, or the selection stood off its starting row
    /// after any move this frame (so Down then Up counts).
    #[verifier::rlimit(100)]
    #[verifier::spinoff_prover]
    pub fn directory_tree(&mut self, state: &mut DirectoryTreeState) -> (r: Response)
        requires
            old(self).wf(),
        ensures
            final(self).wf(),
            final(state).show_icons == old(state).show_icons,
            tree_labels(final(state).tree.items@) == tree_labels(old(state).tree.items@),
            shown(old(state).tree.items@).len() == 0 ==> *final(self) == *old(self)
                && final(state).tree.selected == old(state).tree.selected
                && final(state).tree.shape() == old(state).tree.shape() && r == no_response(),
            shown(old(state).tree.items@).len() > 0 ==> {
                let len = shown(old(state).tree.items@).len();
                let sel0 = if old(state).tree.selected < len { old(state).tree.selected as int } else { len - 1 };
                let focused = old(self).next_focusable_is_focused();
                let id = old(self).interaction_count as int;
                let st = if focused { dir_keys(old(self).events@, old(self).consumed@, old(self).events@.len() as nat,
                    (old(state).tree.shape(), sel0, false), sel0) } else { (old(state).tree.shape(), sel0, false) };
                let n0 = old(self).commands@.len() as int;
                let m = if focused { 1int } else { 0int };
                let c = final(self).commands@;
                let items = final(state).tree.items@;
                let rows = shown(items);
                &&& final(state).tree.shape() == st.0
                &&& final(state).tree.selected == st.1
                &&& r == Response { focused, changed: st.2 || st.1 != sel0, ..old(self).spec_response_for(id) }
                &&& final(self).consumed@.len() == old(self).consumed@.len()
                &&& forall|i: int| 0 <= i < final(self).consumed@.len() ==> #[trigger] final(self).consumed@[i]
                    == (old(self).consumed@[i] || (focused && old(self).live_press_in(i, tree_codes())))
                &&& c.take(n0) == old(self).commands@
                &&& (focused ==> c[n0] == Command::FocusMarker(old(self).focus_count))
                &&& c[n0 + m] == Command::InteractionMarker(id as usize)
                &&& c.len() == n0 + m + rows.len() + 3
                &&& forall|j: int| 0 <= j < rows.len() ==> is_plain_text(#[trigger] c[n0 + m + 2 + j],
                    dir_row_text(items, rows[j], j == st.1, focused, old(state).show_icons),
                    tree_row_style(old(self).theme, j == st.1, focused))
                &&& c[n0 + m + 2 + rows.len()] == Command::EndContainer
                &&& *final(self) == (Context {
                    commands: final(self).commands,
                    consumed: final(self).consumed,
                    focus_count: sat_inc_usize(old(self).focus_count),
                    interaction_count: sat_inc_usize(old(self).interaction_count),
                    last_text_idx: None,
                    ..*old(self)
                })
            },
    {
        let first_rows = state.tree.flatten();
        if first_rows.len() == 0 {
            return Response::none();
        }
        let len = first_rows.len();
        if state.tree.selected >= len {
            state.tree.selected = len - 1;
        }
        let old_selected = state.tree.selected;
        let ghost start = *state;
        let (focused, base) = self.open_control();
        let ghost opened = *self;
        let mut changed = false;
        if focused {
            changed = self.dir_handle_keys(&mut state.tree);
        }
        proof {
            assert(self.consumed@ =~= Seq::new(old(self).consumed@.len(), |i: int| old(self).consumed@[i]
                || (focused && old(self).live_press_in(i, tree_codes()))));
            assert(start.tree.shape() =~= old(state).tree.shape());
            if !focused {
                assert(tree_labels(state.tree.items@) =~= tree_labels(old(state).tree.items@));
            }
        }
        let ghost before_render = *self;
        self.dir_render(state, focused);
        proof {
            let m = if focused { 1int } else { 0int };
            let n0 = old(self).commands@.len() as int;
            let nb = before_render.commands@.len() as int;
            assert(nb == n0 + m + 1);
            assert forall|q: int| 0 <= q < nb implies self.commands@[q] == before_render.commands@[q] by {
                assert(self.commands@.take(nb)[q] == before_render.commands@[q]);
            }
            assert(self.commands@.take(n0) =~= old(self).commands@) by {
                assert forall|q: int| 0 <= q < n0 implies self.commands@[q] == old(self).commands@[q] by {
                    assert(before_render.commands@[q] == opened.commands@[q]);
                    if focused {
                        assert(opened.commands@[q] == old(self).commands@.push(Command::FocusMarker(old(self).focus_count))[q]);
                    } else {
                        assert(opened.commands@[q] == old(self).commands@.push(Command::InteractionMarker(old(self).interaction_count))[q]);
                    }
                }
            }
            assert(self.commands@[n0 + m] == before_render.commands@[n0 + m]);
            if focused {
                assert(self.commands@[n0] == before_render.commands@[n0]);
            }
            let rows = shown(state.tree.items@);
            assert forall|j: int| 0 <= j < rows.len() implies is_plain_text(#[trigger] self.commands@[n0 + m + 2 + j],
                dir_row_text(state.tree.items@, rows[j], j == state.tree.selected, focused, state.show_icons),
                tree_row_style(old(self).theme, j == state.tree.selected, focused)) by {
                assert(nb + 1 + j == n0 + m + 2 + j);
                assert(is_plain_text(self.commands@[nb + 1 + j],
                    dir_row_text(state.tree.items@, rows[j], j == state.tree.selected, focused, state.show_icons),
                    tree_row_style(before_render.theme, j == state.tree.selected, focused)));
            }
        }
        let changed_sel = state.tree.selected != old_selected;
        Response { focused, changed: changed || changed_sel, ..base }
    }
}


/// Right never closes a node: on an open or childless selected node it
/// changes nothing, and on a closed node with children it opens exactly
/// that node, keeps the selection and reports a change. Enter and Space
/// flip the selected node either way.
pub proof fn lemma_tree_right_only_opens(st: (Seq<(int, bool)>, int, bool), first: Seq<(int, bool)>, sel0: int)
    requires
        0 <= st.1 < shape_shown(st.0).len(),
    ensures
        ({
            let sh = st.0;
            let k = shape_shown(sh)[st.1];
            let r = tree_key(st, first, KeyCode::Right, sel0);
            let e = tree_key(st, first, KeyCode::Enter, sel0);
            &&& (sh[k].1 || !shape_has_children(sh, k)) ==> r == st
            &&& (!sh[k].1 && shape_has_children(sh, k)) ==> r.0 == sh.update(k, (sh[k].0, true)) && r.1 == st.1 && r.2
            &&& e.0 == sh.update(k, (sh[k].0, !sh[k].1)) && e.1 == st.1 && e.2
        }),
{
}

/// The directory tree's Right, too, only opens: on an open or childless
/// selected node it changes nothing, on a closed node with children it
/// opens that node; Left closes an open node and leaves a closed one.
pub proof fn lemma_dir_right_only_opens(st: (Seq<(int, bool)>, int, bool), sel0: int)
    requires
        0 <= st.1 < shape_shown(st.0).len(),
    ensures
        ({
            let sh = st.0;
            let k = shape_shown(sh)[st.1];
            let r = dir_key(st, KeyCode::Right, sel0);
            let l = dir_key(st, KeyCode::Left, sel0);
            &&& (sh[k].1 || !shape_has_children(sh, k)) ==> r == st
            &&& (!sh[k].1 && shape_has_children(sh, k)) ==> r.0 == sh.update(k, (sh[k].0, true)) && r.1 == st.1 && r.2
            &&& sh[k].1 ==> l.0 == sh.update(k, (sh[k].0, false)) && l.1 == st.1 && l.2
            &&& !sh[k].1 ==> l == st
        }),
{
}

} // verus!
