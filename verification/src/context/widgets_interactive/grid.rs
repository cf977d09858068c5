//! Grids: children laid out left to right in rows of a fixed column count.
use vstd::prelude::*;
use crate::command::{Command, ContainerArgs};
use crate::context::{plain_container, plain_container_args, Context, Response};
use crate::context::widgets_interactive::selection::sat_inc_usize;
use crate::style::{open_constraints, Color, Constraints, Direction};

verus! {

/// How wide a grid column is.
#[derive(Debug, Clone, Copy, PartialEq, Eq, Structural)]
pub enum GridColumn {
    /// An equal share of the free width.
    Auto,
    /// Exactly this many cells.
    Fixed(u32),
    /// A share of the free width with this weight.
    Grow(u16),
    /// This percentage of the grid's width.
    Percent(u8),
}

/// Index just past the container that is open at `depth` when scanning
/// from `j`; the end of `cs` when it is never closed.
pub open spec fn group_end(cs: Seq<Command>, j: int, depth: int) -> int
    decreases cs.len() - j,
{
    if j < 0 || j >= cs.len() {
        cs.len() as int
    } else {
        match cs[j] {
            Command::BeginContainer(_) => group_end(cs, j + 1, depth + 1),
            Command::EndContainer => if depth <= 1 { j + 1 } else { group_end(cs, j + 1, depth - 1) },
            _ => group_end(cs, j + 1, depth),
        }
    }
}

/// The grid elements of `cs` from `i` on, with `pending` interaction markers
/// waiting for the element they belong to. An element is its markers and
/// then one whole container (to its matching close) or one other command;
/// a stray close is dropped, and markers left at the end form an element.
pub open spec fn elements_from(cs: Seq<Command>, i: int, pending: Seq<Command>) -> Seq<Seq<Command>>
    decreases cs.len() - i,
{
    if i < 0 || i >= cs.len() {
        if pending.len() > 0 { seq![pending] } else { seq![] }
    } else {
        match cs[i] {
            Command::InteractionMarker(_) => elements_from(cs, i + 1, pending.push(cs[i])),
            Command::BeginContainer(_) => {
                let e = group_end(cs, i + 1, 1);
                if e <= i || e > cs.len() { seq![] } else {
                    seq![pending + cs.subrange(i, e)] + elements_from(cs, e, seq![])
                }
            },
            Command::EndContainer => elements_from(cs, i + 1, pending),
            _ => seq![pending.push(cs[i])] + elements_from(cs, i + 1, seq![]),
        }
    }
}

/// The children of a grid, grouped into cells.
pub open spec fn grid_elements(cs: Seq<Command>) -> Seq<Seq<Command>> {
    elements_from(cs, 0, seq![])
}

/// The nested sequences of a vector of vectors.
pub open spec fn nested_views(v: Seq<Vec<Command>>) -> Seq<Seq<Command>> {
    Seq::new(v.len(), |k: int| v[k]@)
}

/// A container group always ends after where its scan starts.
proof fn lemma_group_end_after(cs: Seq<Command>, j: int, depth: int)
    requires
        0 <= j,
    ensures
        j <= group_end(cs, j, depth) <= cs.len() || j > cs.len(),
        j <= cs.len() ==> j <= group_end(cs, j, depth) <= cs.len(),
    decreases cs.len() - j,
{
    if j < cs.len() {
        lemma_group_end_after(cs, j + 1, depth + 1);
        lemma_group_end_after(cs, j + 1, depth - 1);
        lemma_group_end_after(cs, j + 1, depth);
    }
}

/// `v` in reverse order.
fn reversed<T>(v: Vec<T>) -> (r: Vec<T>)
    ensures
        r@.len() == v@.len(),
        forall|k: int| 0 <= k < r@.len() ==> #[trigger] r@[k] == v@[v@.len() - 1 - k],
{
    let mut v = v;
    let ghost orig = v@;
    let mut r: Vec<T> = Vec::new();
    while v.len() > 0
        invariant
            v@ == orig.take(v@.len() as int),
            v@.len() <= orig.len(),
            r@.len() == orig.len() - v@.len(),
            forall|k: int| 0 <= k < r@.len() ==> #[trigger] r@[k] == orig[orig.len() - 1 - k],
        decreases v@.len(),
    {
        let ghost before = v@;
        let c = v.pop().unwrap();
        proof {
            assert(c == orig[before.len() - 1]);
            assert(v@ =~= orig.take(v@.len() as int));
        }
        r.push(c);
    }
    r
}

/// Group a grid's child commands into cells (see [`elements_from`]).
pub fn collect_grid_elements(child: Vec<Command>) -> (r: Vec<Vec<Command>>)
    ensures
        nested_views(r@) == grid_elements(child@),
{
    let ghost cs = child@;
    let n = child.len();
    let mut rest = reversed(child);
    let mut elements: Vec<Vec<Command>> = Vec::new();
    let mut pending: Vec<Command> = Vec::new();
    let mut i: usize = 0;
    while rest.len() > 0
        invariant
            n == cs.len(),
            i <= n,
            rest@.len() == n - i,
            forall|k: int| 0 <= k < rest@.len() ==> #[trigger] rest@[k] == cs[n - 1 - k],
            nested_views(elements@) + elements_from(cs, i as int, pending@) == grid_elements(cs),
        decreases rest@.len(),
    {
        let ghost i0 = i as int;
        let cmd = rest.pop().unwrap();
        proof {
            assert(cmd == cs[i0]);
        }
        i = i + 1;
        match cmd {
            Command::InteractionMarker(_) => {
                pending.push(cmd);
            },
            Command::BeginContainer(_) => {
                let ghost p0 = pending@;
                let mut element = Vec::new();
                element.append(&mut pending);
                element.push(cmd);
                let mut depth: usize = 1;
                let mut done = false;
                while !done && rest.len() > 0
                    invariant
                        n == cs.len(),
                        0 <= i0,
                        i0 + 1 <= i <= n,
                        rest@.len() == n - i,
                        forall|k: int| 0 <= k < rest@.len() ==> #[trigger] rest@[k] == cs[n - 1 - k],
                        pending@.len() == 0,
                        element@ == p0 + cs.subrange(i0, i as int),
                        !done ==> 1 <= depth <= i,
                        !done ==> group_end(cs, i as int, depth as int) == group_end(cs, i0 + 1, 1),
                        done ==> i as int == group_end(cs, i0 + 1, 1),
                    decreases rest@.len(),
                {
                    let ghost j = i as int;
                    let ghost el0 = element@;
                    let next = rest.pop().unwrap();
                    proof {
                        assert(next == cs[j]);
                    }
                    let at_end = match &next {
                        Command::BeginContainer(_) => {
                            depth = depth + 1;
                            false
                        },
                        Command::EndContainer => {
                            depth = depth - 1;
                            depth == 0
                        },
                        _ => false,
                    };
                    element.push(next);
                    i = i + 1;
                    proof {
                        assert(i0 <= j < cs.len());
                        assert(i as int == j + 1);
                        assert(cs.subrange(i0, j + 1) =~= cs.subrange(i0, j).push(cs[j]));
                        assert(element@ =~= p0 + cs.subrange(i0, i as int));
                    }
                    if at_end {
                        done = true;
                    }
                }
                proof {
                    if !done {
                        assert(group_end(cs, i as int, depth as int) == n);
                    }
                    lemma_group_end_after(cs, i0 + 1, 1);
                    assert(elements_from(cs, i0, p0) == seq![p0 + cs.subrange(i0, i as int)] + elements_from(cs, i as int, seq![]));
                    assert(pending@ =~= seq![]);
                }
                let ghost before = elements@;
                elements.push(element);
                proof {
                    assert(nested_views(elements@) =~= nested_views(before).push(p0 + cs.subrange(i0, i as int)));
                    assert(nested_views(elements@) + elements_from(cs, i as int, pending@)
                        =~= nested_views(before) + (seq![p0 + cs.subrange(i0, i as int)] + elements_from(cs, i as int, seq![])));
                }
            },
            Command::EndContainer => {},
            _ => {
                let ghost p0 = pending@;
                let mut element = Vec::new();
                element.append(&mut pending);
                element.push(cmd);
                let ghost before = elements@;
                elements.push(element);
                proof {
                    assert(element@ == p0.push(cs[i0]));
                    assert(nested_views(elements@) =~= nested_views(before).push(p0.push(cs[i0])));
                    assert(pending@ =~= seq![]);
                    assert(nested_views(elements@) + elements_from(cs, i as int, pending@)
                        =~= nested_views(before) + (seq![p0.push(cs[i0])] + elements_from(cs, i as int, seq![])));
                }
            },
        }
    }
    if pending.len() > 0 {
        let ghost before = elements@;
        let ghost pend = pending@;
        elements.push(pending);
        proof {
            assert(nested_views(elements@) =~= nested_views(before) + elements_from(cs, i as int, pend));
        }
    } else {
        proof {
            assert(nested_views(elements@) =~= nested_views(elements@) + elements_from(cs, i as int, pending@));
        }
    }
    elements
}


/// The width rule of grid column `j`: those past the given ones are `Auto`.
pub open spec fn column_at(columns: Seq<GridColumn>, j: int) -> GridColumn {
    if 0 <= j < columns.len() { columns[j] } else { GridColumn::Auto }
}

/// The container a grid cell under column rule `c` is drawn in.
pub open spec fn grid_cell(c: GridColumn, border: Color) -> ContainerArgs {
    let (grow, constraints) = match c {
        GridColumn::Auto => (1u16, open_constraints()),
        GridColumn::Fixed(w) => (0u16, Constraints { min_width: Some(w), max_width: Some(w), width_pct: None, ..open_constraints() }),
        GridColumn::Grow(g) => (g, open_constraints()),
        GridColumn::Percent(p) => (0u16, Constraints { width_pct: Some(p), ..open_constraints() }),
    };
    ContainerArgs { grow, constraints, ..plain_container(Direction::Column, 0, border) }
}

/// Cells `from..to` of a row that starts at element `row_start`.
pub open spec fn grid_cells(els: Seq<Seq<Command>>, columns: Seq<GridColumn>, from: int, to: int, row_start: int,
    border: Color) -> Seq<Command>
    decreases to - from,
{
    if from >= to || from < 0 || from >= els.len() {
        seq![]
    } else {
        seq![Command::BeginContainer(grid_cell(column_at(columns, from - row_start), border))] + els[from]
            + seq![Command::EndContainer] + grid_cells(els, columns, from + 1, to, row_start, border)
    }
}

/// The rows of a grid of `cols` columns, from element `k` on.
pub open spec fn grid_rows(els: Seq<Seq<Command>>, columns: Seq<GridColumn>, cols: int, k: int, border: Color) -> Seq<Command>
    decreases els.len() - k,
{
    if k < 0 || k >= els.len() || cols <= 0 {
        seq![]
    } else {
        let e = if k + cols < els.len() { k + cols } else { els.len() as int };
        seq![Command::BeginContainer(plain_container(Direction::Row, 0, border))] + grid_cells(els, columns, k, e, k, border)
            + seq![Command::EndContainer] + grid_rows(els, columns, cols, e, border)
    }
}

fn grid_cell_args(c: GridColumn, border: Color) -> (r: ContainerArgs)
    ensures
        r == grid_cell(c, border),
{
    let (grow, constraints) = match c {
        GridColumn::Auto => (1u16, Constraints::none()),
        GridColumn::Fixed(w) => (0u16, Constraints::none().w(w)),
        GridColumn::Grow(g) => (g, Constraints::none()),
        GridColumn::Percent(p) => (0u16, Constraints::none().w_pct(p)),
    };
    ContainerArgs { grow, constraints, ..plain_container_args(Direction::Column, 0, border) }
}

impl Context {
    /// Reserve an interaction slot for a layout container that draws no
    /// marker of its own.
    pub(crate) fn skip_interaction_slot(&mut self)
        requires
            old(self).wf(),
        ensures
            final(self).wf(),
            *final(self) == (Context { interaction_count: sat_inc_usize(old(self).interaction_count), ..*old(self) }),
    {
        self.interaction_count = self.interaction_count.saturating_add(1);
    }

    /// Append the rows of a grid over `elements` (see [`grid_rows`]).
    fn push_grid_rows(&mut self, elements: Vec<Vec<Command>>, columns: &[GridColumn], cols: usize, border: Color)
        requires
            old(self).wf(),
            cols > 0,
        ensures
            final(self).wf(),
            final(self).commands@ == old(self).commands@ + grid_rows(nested_views(elements@), columns@, cols as int, 0, border),
            *final(self) == (Context { commands: final(self).commands, interaction_count: final(self).interaction_count,
                ..*old(self) }),
    {
        let ghost els = nested_views(elements@);
        let ghost target = old(self).commands@ + grid_rows(els, columns@, cols as int, 0, border);
        let len = elements.len();
        let mut rest = reversed(elements);
        let mut k: usize = 0;
        proof {
            assert(self.commands@ + grid_rows(els, columns@, cols as int, 0, border) == target);
        }
        while k < len
            invariant
                len == els.len(),
                k <= len,
                cols > 0,
                self.wf(),
                rest@.len() == len - k,
                forall|j: int| 0 <= j < rest@.len() ==> (#[trigger] rest@[j])@ == els[len - 1 - j],
                self.commands@ + grid_rows(els, columns@, cols as int, k as int, border) == target,
                *self == (Context { commands: self.commands, interaction_count: self.interaction_count, ..*old(self) }),
            decreases len - k,
        {
            let e: usize = if cols < len - k { k + cols } else { len };
            let row_start = k;
            let ghost rs = k as int;
            proof {
                assert(grid_rows(els, columns@, cols as int, rs, border) ==
                    seq![Command::BeginContainer(plain_container(Direction::Row, 0, border))]
                    + grid_cells(els, columns@, rs, e as int, rs, border)
                    + seq![Command::EndContainer] + grid_rows(els, columns@, cols as int, e as int, border));
            }
            let ghost c0 = self.commands@;
            self.skip_interaction_slot();
            self.commands.push(Command::BeginContainer(plain_container_args(Direction::Row, 0, border)));
            proof {
                assert(self.commands@ + grid_cells(els, columns@, rs, e as int, rs, border)
                    + seq![Command::EndContainer] + grid_rows(els, columns@, cols as int, e as int, border) =~= target);
            }
            while k < e
                invariant
                    len == els.len(),
                    rs <= k <= e <= len,
                    0 <= rs,
                    row_start == rs,
                    cols > 0,
                    self.wf(),
                    rest@.len() == len - k,
                    forall|j: int| 0 <= j < rest@.len() ==> (#[trigger] rest@[j])@ == els[len - 1 - j],
                    self.commands@ + grid_cells(els, columns@, k as int, e as int, rs, border)
                        + seq![Command::EndContainer] + grid_rows(els, columns@, cols as int, e as int, border) == target,
                    *self == (Context { commands: self.commands, interaction_count: self.interaction_count, ..*old(self) }),
                decreases e - k,
            {
                let mut el = rest.pop().unwrap();
                let ghost ev = el@;
                proof {
                    assert(ev == els[k as int]);
                }
                let spec_c = if k - row_start < columns.len() { columns[k - row_start] } else { GridColumn::Auto };
                let ghost c1 = self.commands@;
                self.skip_interaction_slot();
                self.commands.push(Command::BeginContainer(grid_cell_args(spec_c, border)));
                self.commands.append(&mut el);
                self.commands.push(Command::EndContainer);
                proof {
                    let cell = seq![Command::BeginContainer(grid_cell(column_at(columns@, k - rs), border))] + ev
                        + seq![Command::EndContainer];
                    assert(self.commands@ =~= c1 + cell);
                    assert(grid_cells(els, columns@, k as int, e as int, rs, border)
                        == cell + grid_cells(els, columns@, k + 1, e as int, rs, border));
                    assert(self.commands@ + grid_cells(els, columns@, k + 1, e as int, rs, border)
                        + seq![Command::EndContainer] + grid_rows(els, columns@, cols as int, e as int, border) =~= target);
                }
                k = k + 1;
            }
            self.commands.push(Command::EndContainer);
            proof {
                assert(grid_cells(els, columns@, k as int, e as int, rs, border) == Seq::<Command>::empty());
                assert(self.commands@ + grid_rows(els, columns@, cols as int, k as int, border) =~= target);
            }
        }
        proof {
            assert(grid_rows(els, columns@, cols as int, k as int, border) == Seq::<Command>::empty());
            assert(self.commands@ =~= target);
        }
    }
}


/// How many columns a grid with column rules `columns` has: at least one.
pub open spec fn column_count(columns: Seq<GridColumn>) -> int {
    if columns.len() > 0 { columns.len() as int } else { 1 }
}

/// What a grid leaves in the draw list `c`: everything up to `p`, then the
/// rows over the cells of the children `child`, then the grid's close.
pub open spec fn grid_drawn(c: Seq<Command>, p: int, child: Seq<Command>, columns: Seq<GridColumn>, cols: int,
    border: Color) -> bool {
    &&& 0 <= p <= c.len()
    &&& c == c.take(p) + grid_rows(grid_elements(child), columns, cols, 0, border).push(Command::EndContainer)
}

impl Context {
    fn grid_impl<F: FnOnce(&mut Context)>(&mut self, cols: usize, columns: &[GridColumn], f: F) -> (r: Response)
        requires
            old(self).wf(),
            cols > 0,
            forall|s: &mut Context| #[trigger] f.requires((s,)),
            forall|s: &mut Context| #[trigger] f.ensures((s,), ()) ==> final(s).wf()
                && final(s).commands@.len() >= s.commands@.len(),
        ensures
            final(self).wf(),
            final(self).last_text_idx is None,
            r == final(self).spec_response_for(old(self).interaction_count as int),
            exists|p: int, child: Seq<Command>| #[trigger] grid_drawn(final(self).commands@, p, child, columns@, cols as int,
                old(self).theme.border)
                && ((forall|s: &mut Context| #[trigger] f.ensures((s,), ()) ==>
                    final(s).commands@.take(s.commands@.len() as int) == s.commands@) ==>
                    p == old(self).commands@.len() + 2 && final(self).commands@.take(p) == old(self).commands@.push(
                        Command::InteractionMarker(old(self).interaction_count)).push(
                        Command::BeginContainer(plain_container(Direction::Column, 0, old(self).theme.border)))),
    {
        let id = self.next_interaction_id();
        let border = self.theme.border;
        self.begin_container(plain_container_args(Direction::Column, 0, border));
        let ghost opened = self.commands@;
        let start = self.commands.len();
        f(self);
        let ghost drawn = self.commands@;
        self.last_text_idx = None;
        let child = self.commands.split_off(start);
        let ghost cv = child@;
        let ghost kept = self.commands@;
        let elements = collect_grid_elements(child);
        self.push_grid_rows(elements, columns, cols, border);
        self.end_container();
        proof {
            let c = self.commands@;
            let rows = grid_rows(grid_elements(cv), columns@, cols as int, 0, border);
            assert(c == kept + rows.push(Command::EndContainer)) by {
                assert(c =~= kept + rows.push(Command::EndContainer));
            }
            assert(c.take(start as int) =~= kept);
            assert(grid_drawn(c, start as int, cv, columns@, cols as int, border));
        }
        self.response_for(id)
    }

    /// Lay the children drawn by `f` out in a grid of `cols` equal columns,
    /// left to right and top to bottom; each child (its interaction markers
    /// and one whole container, or one other element) becomes one cell.
    pub fn grid<F: FnOnce(&mut Context)>(&mut self, cols: u32, f: F) -> (r: Response)
        requires
            old(self).wf(),
            cols > 0,
            forall|s: &mut Context| #[trigger] f.requires((s,)),
            forall|s: &mut Context| #[trigger] f.ensures((s,), ()) ==> final(s).wf()
                && final(s).commands@.len() >= s.commands@.len(),
        ensures
            final(self).wf(),
            final(self).last_text_idx is None,
            r == final(self).spec_response_for(old(self).interaction_count as int),
            exists|p: int, child: Seq<Command>| #[trigger] grid_drawn(final(self).commands@, p, child, Seq::empty(), cols as int,
                old(self).theme.border)
                && ((forall|s: &mut Context| #[trigger] f.ensures((s,), ()) ==>
                    final(s).commands@.take(s.commands@.len() as int) == s.commands@) ==>
                    p == old(self).commands@.len() + 2 && final(self).commands@.take(p) == old(self).commands@.push(
                        Command::InteractionMarker(old(self).interaction_count)).push(
                        Command::BeginContainer(plain_container(Direction::Column, 0, old(self).theme.border)))),
    {
        let no_columns: [GridColumn; 0] = [];
        proof {
            assert(no_columns@ =~= Seq::<GridColumn>::empty());
        }
        self.grid_impl(cols as usize, &no_columns, f)
    }

    /// A grid whose column count and widths come from `columns` (at least
    /// one column); see [`grid`](Self::grid) and [`grid_cell`].
    pub fn grid_with<F: FnOnce(&mut Context)>(&mut self, columns: &[GridColumn], f: F) -> (r: Response)
        requires
            old(self).wf(),
            forall|s: &mut Context| #[trigger] f.requires((s,)),
            forall|s: &mut Context| #[trigger] f.ensures((s,), ()) ==> final(s).wf()
                && final(s).commands@.len() >= s.commands@.len(),
        ensures
            final(self).wf(),
            final(self).last_text_idx is None,
            r == final(self).spec_response_for(old(self).interaction_count as int),
            exists|p: int, child: Seq<Command>| #[trigger] grid_drawn(final(self).commands@, p, child, columns@,
                column_count(columns@), old(self).theme.border)
                && ((forall|s: &mut Context| #[trigger] f.ensures((s,), ()) ==>
                    final(s).commands@.take(s.commands@.len() as int) == s.commands@) ==>
                    p == old(self).commands@.len() + 2 && final(self).commands@.take(p) == old(self).commands@.push(
                        Command::InteractionMarker(old(self).interaction_count)).push(
                        Command::BeginContainer(plain_container(Direction::Column, 0, old(self).theme.border)))),
    {
        let cols = if columns.len() > 0 { columns.len() } else { 1 };
        assert(column_count(columns@) == cols as int);
        self.grid_impl(cols, columns, f)
    }
}


/// A command that stands alone in a grid: no container edge or marker.
pub open spec fn is_leaf(c: Command) -> bool {
    !(c is BeginContainer || c is EndContainer || c is InteractionMarker)
}

proof fn lemma_leaves_from(cs: Seq<Command>, i: int)
    requires
        0 <= i <= cs.len(),
        forall|k: int| 0 <= k < cs.len() ==> is_leaf(#[trigger] cs[k]),
    ensures
        elements_from(cs, i, seq![]) == Seq::new((cs.len() - i) as nat, |k: int| seq![cs[i + k]]),
    decreases cs.len() - i,
{
    if i < cs.len() {
        lemma_leaves_from(cs, i + 1);
        assert(is_leaf(cs[i]));
        assert(seq![seq![cs[i]]] + Seq::new((cs.len() - i - 1) as nat, |k: int| seq![cs[i + 1 + k]])
            =~= Seq::new((cs.len() - i) as nat, |k: int| seq![cs[i + k]]));
        assert(Seq::<Command>::empty().push(cs[i]) == seq![cs[i]]);
    } else {
        assert(Seq::new((cs.len() - i) as nat, |k: int| seq![cs[i + k]]) =~= Seq::<Seq<Command>>::empty());
    }
}

/// Children that are single elements (texts and the like) each get a cell
/// of their own, in the order they were drawn.
pub proof fn lemma_leaf_children_are_cells(cs: Seq<Command>)
    requires
        forall|k: int| 0 <= k < cs.len() ==> is_leaf(#[trigger] cs[k]),
    ensures
        grid_elements(cs).len() == cs.len(),
        forall|k: int| 0 <= k < cs.len() ==> #[trigger] grid_elements(cs)[k] == seq![cs[k]],
{
    lemma_leaves_from(cs, 0);
}

} // verus!
