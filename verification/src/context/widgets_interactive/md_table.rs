//! Markdown pipe tables: rows split into cells, column widths, and the
//! box-drawing lines around them.
use vstd::prelude::*;
use crate::command::Command;
use crate::context::{plain_container, Context};
use crate::context::widgets_display::status::{repeat, repeat_str};
use crate::context::widgets_display::text::is_plain_text;
use crate::context::widgets_interactive::markdown::md_links;
use crate::context::widgets_interactive::md_render::{drawn_texts, has_link_piece, inline_frame, inline_runs};
use crate::style::{Direction, Style, Theme};
use crate::context::widgets_interactive::markdown::{md_strip, strip_from};
use crate::context::widgets_interactive::md_blocks::{line_views, trim_chars, trimmed};
use crate::unicode::{chars_of, push_char, str_width, text_width};

verus! {

/// The first index from `i` on that is not `c`.
pub open spec fn skip_while_from(l: Seq<char>, i: int, c: char) -> int
    decreases l.len() - i,
{
    if i < 0 || i >= l.len() || l[i] != c { i } else { skip_while_from(l, i + 1, c) }
}

/// The end of `l` before a run of `c`, looking left from `j`.
pub open spec fn back_while_from(l: Seq<char>, j: int, c: char) -> int
    decreases j,
{
    if j <= 0 || j > l.len() || l[j - 1] != c { j } else { back_while_from(l, j - 1, c) }
}

/// `l` without any `|` at either end.
pub open spec fn trim_bars(l: Seq<char>) -> Seq<char> {
    let a = skip_while_from(l, 0, '|');
    let b = back_while_from(l, l.len() as int, '|');
    if a >= b { seq![] } else { l.subrange(a, b) }
}

/// Whether a table line only separates the header: once the outer bars and
/// spaces are gone, something is left and it is all `-`, `:`, `|` or space.
pub open spec fn is_separator_row(l: Seq<char>) -> bool {
    let inner = trimmed(trim_bars(l));
    &&& inner.len() > 0
    &&& forall|k: int| 0 <= k < inner.len() ==> rule_char(#[trigger] inner[k])
}

/// A character a header separator line is made of.
pub open spec fn rule_char(c: char) -> bool {
    c == '-' || c == ':' || c == '|' || c == ' '
}

/// The pieces of `s` between bars, from `i` on, `cur` being the piece read so far.
pub open spec fn split_bars_from(s: Seq<char>, i: int, cur: Seq<char>) -> Seq<Seq<char>>
    decreases s.len() - i,
{
    if i < 0 || i >= s.len() {
        seq![cur]
    } else if s[i] == '|' {
        seq![cur] + split_bars_from(s, i + 1, seq![])
    } else {
        split_bars_from(s, i + 1, cur.push(s[i]))
    }
}

/// The cells of a table line: between the bars, each trimmed.
pub open spec fn row_cells(l: Seq<char>) -> Seq<Seq<char>> {
    let parts = split_bars_from(trim_bars(trimmed(l)), 0, seq![]);
    Seq::new(parts.len(), |k: int| trimmed(parts[k]))
}

/// A table's header row (the first line, unless it is a separator) and
/// its data rows (the other lines that are no separator).
pub open spec fn table_rows(lines: Seq<Seq<char>>) -> (Option<Seq<Seq<char>>>, Seq<Seq<Seq<char>>>) {
    let header = if lines.len() > 0 && !is_separator_row(lines[0]) { Some(row_cells(lines[0])) } else { None };
    let data = data_rows_from(lines, 1);
    let found = exists|k: int| 0 <= k < lines.len() && is_separator_row(lines[k]);
    if !found && header is None && data.len() > 0 { (Some(data[0]), data.skip(1)) } else { (header, data) }
}

/// The cells of the lines from `i` on that are no separator.
pub open spec fn data_rows_from(lines: Seq<Seq<char>>, i: int) -> Seq<Seq<Seq<char>>>
    decreases lines.len() - i,
{
    if i < 0 || i >= lines.len() {
        seq![]
    } else if is_separator_row(lines[i]) {
        data_rows_from(lines, i + 1)
    } else {
        seq![row_cells(lines[i])] + data_rows_from(lines, i + 1)
    }
}

/// The header (when there is one) followed by the data rows.
pub open spec fn all_rows(lines: Seq<Seq<char>>) -> Seq<Seq<Seq<char>>> {
    let (h, d) = table_rows(lines);
    match h { Some(x) => seq![x] + d, None => d }
}

/// The widest row's cell count.
pub open spec fn column_total(rows: Seq<Seq<Seq<char>>>) -> nat
    decreases rows.len(),
{
    if rows.len() == 0 {
        0
    } else {
        let m = column_total(rows.drop_last());
        if rows.last().len() > m { rows.last().len() } else { m }
    }
}

/// The display width of column `i`: its widest cell once inline
/// formatting is stripped.
pub open spec fn column_width(rows: Seq<Seq<Seq<char>>>, i: int) -> nat
    decreases rows.len(),
{
    if rows.len() == 0 {
        0
    } else {
        let m = column_width(rows.drop_last(), i);
        let r = rows.last();
        let w = if 0 <= i < r.len() { text_width(strip_from(r[i], 0)) } else { 0 };
        if w > m { w } else { m }
    }
}

/// `c` repeated `n` times.
pub open spec fn run_of(c: char, n: nat) -> Seq<char>
    decreases n,
{
    if n == 0 { seq![] } else { run_of(c, (n - 1) as nat).push(c) }
}

/// The box line over columns of `widths`: `left`, then per column a run of
/// `─` two cells wider than the column and `mid` (`right` after the last).
pub open spec fn border_line(widths: Seq<nat>, left: char, mid: char, right: char) -> Seq<char>
    decreases widths.len(),
{
    if widths.len() == 0 {
        seq![left]
    } else {
        border_line_upto(widths, widths.len() - 1, left, mid) + run_of('─', widths.last() + 2).push(right)
    }
}

/// `left` and the first `k` columns of a border line, each closed by `mid`.
pub open spec fn border_line_upto(widths: Seq<nat>, k: int, left: char, mid: char) -> Seq<char>
    decreases k,
{
    if k <= 0 || k > widths.len() {
        seq![left]
    } else {
        border_line_upto(widths, k - 1, left, mid) + run_of('─', widths[k - 1] + 2).push(mid)
    }
}


/// `l` without any `|` at either end (see [`trim_bars`]).
fn trim_bars_exec(l: &Vec<char>) -> (r: Vec<char>)
    ensures
        r@ == trim_bars(l@),
{
    let n = l.len();
    let mut a: usize = 0;
    while a < n && l[a] == '|'
        invariant
            a <= n == l@.len(),
            skip_while_from(l@, a as int, '|') == skip_while_from(l@, 0, '|'),
        decreases n - a,
    {
        a = a + 1;
    }
    let mut b: usize = n;
    while b > 0 && l[b - 1] == '|'
        invariant
            b <= n == l@.len(),
            back_while_from(l@, b as int, '|') == back_while_from(l@, n as int, '|'),
        decreases b,
    {
        b = b - 1;
    }
    let mut out: Vec<char> = Vec::new();
    if a < b {
        let mut k = a;
        while k < b
            invariant
                a <= k <= b <= n == l@.len(),
                out@ == l@.subrange(a as int, k as int),
            decreases b - k,
        {
            out.push(l[k]);
            proof {
                assert(l@.subrange(a as int, k + 1) == l@.subrange(a as int, k as int).push(l@[k as int]));
            }
            k = k + 1;
        }
    }
    proof {
        if a >= b {
            assert(out@ =~= Seq::<char>::empty());
        }
    }
    out
}

/// Whether a table line only separates the header (see [`is_separator_row`]).
fn is_separator_exec(l: &Vec<char>) -> (r: bool)
    ensures
        r == is_separator_row(l@),
{
    let tb = trim_bars_exec(l);
    let inner = trim_chars(&tb);
    if inner.len() == 0 {
        return false;
    }
    let mut k: usize = 0;
    while k < inner.len()
        invariant
            k <= inner@.len(),
            inner@ == trimmed(trim_bars(l@)),
            forall|j: int| 0 <= j < k ==> rule_char(#[trigger] inner@[j]),
        decreases inner@.len() - k,
    {
        let c = inner[k];
        if !(c == '-' || c == ':' || c == '|' || c == ' ') {
            proof {
                assert(inner@[k as int] == c);
                assert(!rule_char(inner@[k as int]));
                assert(inner@ == trimmed(trim_bars(l@)));
            }
            return false;
        }
        k = k + 1;
    }
    true
}

/// The cells of a table line (see [`row_cells`]).
fn row_cells_exec(l: &Vec<char>) -> (r: Vec<String>)
    ensures
        line_views(r@) == row_cells(l@),
{
    let t = trim_chars(l);
    let s = trim_bars_exec(&t);
    let ghost parts = split_bars_from(s@, 0, seq![]);
    let n = s.len();
    let mut out: Vec<String> = Vec::new();
    let mut cur: Vec<char> = Vec::new();
    let mut i: usize = 0;
    while i < n
        invariant
            n == s@.len(),
            i <= n,
            parts == split_bars_from(s@, 0, seq![]),
            line_views(out@) + Seq::new(split_bars_from(s@, i as int, cur@).len(),
                |k: int| trimmed(split_bars_from(s@, i as int, cur@)[k]))
                == Seq::new(parts.len(), |k: int| trimmed(parts[k])),
        decreases n - i,
    {
        if s[i] == '|' {
            let cell = trim_chars(&cur);
            let ghost before = out@;
            let ghost c0 = cur@;
            out.push(string_from(&cell));
            cur = Vec::new();
            proof {
                let rest = split_bars_from(s@, i + 1, seq![]);
                assert(split_bars_from(s@, i as int, c0) == seq![c0] + rest);
                assert(line_views(out@) + Seq::new(rest.len(), |k: int| trimmed(rest[k]))
                    =~= line_views(before) + Seq::new((seq![c0] + rest).len(), |k: int| trimmed((seq![c0] + rest)[k])));
            }
        } else {
            cur.push(s[i]);
        }
        i = i + 1;
    }
    let cell = trim_chars(&cur);
    let ghost before = out@;
    out.push(string_from(&cell));
    proof {
        assert(line_views(out@) =~= line_views(before) + Seq::new(split_bars_from(s@, n as int, cur@).len(),
            |k: int| trimmed(split_bars_from(s@, n as int, cur@)[k])));
    }
    out
}

/// The characters of `cs` as a string.
fn string_from(cs: &Vec<char>) -> (r: String)
    ensures
        r@ == cs@,
{
    let mut out = String::new();
    let mut k: usize = 0;
    while k < cs.len()
        invariant
            k <= cs@.len(),
            out@ == cs@.take(k as int),
        decreases cs@.len() - k,
    {
        push_char(&mut out, cs[k]);
        proof {
            assert(cs@.take(k + 1) =~= cs@.take(k as int).push(cs@[k as int]));
        }
        k = k + 1;
    }
    proof {
        assert(cs@.take(cs@.len() as int) =~= cs@);
    }
    out
}


/// The cells of a vector of rows.
pub open spec fn rows_view(v: Seq<Vec<String>>) -> Seq<Seq<Seq<char>>> {
    Seq::new(v.len(), |k: int| line_views(v[k]@))
}

/// A table's header row and data rows (see [`table_rows`]).
fn parse_table_rows(lines: &Vec<String>) -> (r: (Option<Vec<String>>, Vec<Vec<String>>))
    ensures
        ({
            let (h, d) = table_rows(line_views(lines@));
            &&& match h {
                None => r.0 is None,
                Some(x) => r.0 matches Some(rh) && line_views(rh@) == x,
            }
            &&& rows_view(r.1@) == d
        }),
{
    let ghost lv = line_views(lines@);
    let n = lines.len();
    let mut header: Option<Vec<String>> = None;
    let mut data: Vec<Vec<String>> = Vec::new();
    let mut found = false;
    let mut i: usize = 0;
    while i < n
        invariant
            n == lines@.len(),
            lv == line_views(lines@),
            i <= n,
            found == exists|k: int| 0 <= k < i && is_separator_row(lv[k]),
            i == 0 ==> header is None && data@.len() == 0,
            i > 0 ==> match header {
                None => is_separator_row(lv[0]),
                Some(x) => !is_separator_row(lv[0]) && line_views(x@) == row_cells(lv[0]),
            },
            i > 0 ==> rows_view(data@) + data_rows_from(lv, i as int) == data_rows_from(lv, 1),
        decreases n - i,
    {
        let lc = chars_of(lines[i].as_str());
        if is_separator_exec(&lc) {
            found = true;
            proof {
                if i > 0 {
                    assert(data_rows_from(lv, i as int) == data_rows_from(lv, i + 1));
                } else {
                    assert(rows_view(data@) =~= Seq::<Seq<Seq<char>>>::empty());
                    assert(rows_view(data@) + data_rows_from(lv, 1) =~= data_rows_from(lv, 1));
                }
            }
        } else if i == 0 && !found {
            header = Some(row_cells_exec(&lc));
            proof {
                assert(rows_view(data@) =~= Seq::<Seq<Seq<char>>>::empty());
                assert(rows_view(data@) + data_rows_from(lv, 1) =~= data_rows_from(lv, 1));
            }
        } else {
            let cells = row_cells_exec(&lc);
            let ghost before = data@;
            data.push(cells);
            proof {
                assert(i > 0);
                assert(data_rows_from(lv, i as int) == seq![row_cells(lv[i as int])] + data_rows_from(lv, i + 1));
                assert(rows_view(data@) =~= rows_view(before).push(row_cells(lv[i as int])));
                assert(rows_view(data@) + data_rows_from(lv, i + 1) =~= rows_view(before) + data_rows_from(lv, i as int));
            }
        }
        i = i + 1;
    }
    proof {
        if n > 0 {
            assert(data_rows_from(lv, n as int) == Seq::<Seq<Seq<char>>>::empty());
            assert(rows_view(data@) =~= data_rows_from(lv, 1));
        } else {
            assert(data_rows_from(lv, 1) == Seq::<Seq<Seq<char>>>::empty());
            assert(rows_view(data@) =~= data_rows_from(lv, 1));
        }
    }
    if !found && header.is_none() && data.len() > 0 {
        let first = data.remove(0);
        proof {
            assert(rows_view(data@) =~= data_rows_from(lv, 1).skip(1));
        }
        header = Some(first);
    }
    (header, data)
}

/// The cells of a table with its header first.
fn table_all_rows(h: Option<Vec<String>>, d: Vec<Vec<String>>) -> (r: Vec<Vec<String>>)
    ensures
        rows_view(r@) == match h { Some(x) => seq![line_views(x@)] + rows_view(d@), None => rows_view(d@) },
{
    let ghost dv = rows_view(d@);
    let ghost hv = h;
    let mut out: Vec<Vec<String>> = Vec::new();
    match h {
        Some(x) => out.push(x),
        None => {},
    }
    let ghost o0 = out@;
    let mut d = d;
    out.append(&mut d);
    proof {
        assert(rows_view(out@) =~= rows_view(o0) + dv);
        match hv {
            Some(x) => assert(rows_view(o0) =~= seq![line_views(x@)]),
            None => assert(rows_view(o0) =~= Seq::<Seq<Seq<char>>>::empty()),
        }
    }
    out
}

/// The widest row's cell count (see [`column_total`]).
fn column_total_exec(rows: &Vec<Vec<String>>) -> (r: usize)
    ensures
        r == column_total(rows_view(rows@)),
{
    let mut m: usize = 0;
    let mut k: usize = 0;
    while k < rows.len()
        invariant
            k <= rows@.len(),
            m == column_total(rows_view(rows@).take(k as int)),
        decreases rows@.len() - k,
    {
        proof {
            assert(rows_view(rows@).take(k + 1).drop_last() =~= rows_view(rows@).take(k as int));
        }
        if rows[k].len() > m {
            m = rows[k].len();
        }
        k = k + 1;
    }
    proof {
        assert(rows_view(rows@).take(rows@.len() as int) =~= rows_view(rows@));
    }
    m
}

/// The width of every column below `cols` (see [`column_width`]).
fn column_widths(rows: &Vec<Vec<String>>, cols: usize) -> (r: Vec<usize>)
    ensures
        r@.len() == cols,
        forall|i: int| 0 <= i < cols ==> #[trigger] r@[i] == column_width(rows_view(rows@), i),
{
    let mut out: Vec<usize> = Vec::new();
    let mut i: usize = 0;
    while i < cols
        invariant
            i <= cols,
            out@.len() == i,
            forall|j: int| 0 <= j < i ==> #[trigger] out@[j] == column_width(rows_view(rows@), j),
        decreases cols - i,
    {
        let mut w: usize = 0;
        let mut k: usize = 0;
        while k < rows.len()
            invariant
                k <= rows@.len(),
                i < cols,
                w == column_width(rows_view(rows@).take(k as int), i as int),
            decreases rows@.len() - k,
        {
            proof {
                assert(rows_view(rows@).take(k + 1).drop_last() =~= rows_view(rows@).take(k as int));
                assert(rows_view(rows@).take(k + 1).last() == line_views(rows@[k as int]@));
            }
            if i < rows[k].len() {
                let cc = chars_of(rows[k][i].as_str());
                let stripped = md_strip(&cc);
                let cw = str_width(stripped.as_str());
                if cw > w {
                    w = cw;
                }
            }
            k = k + 1;
        }
        proof {
            assert(rows_view(rows@).take(rows@.len() as int) =~= rows_view(rows@));
        }
        out.push(w);
        i = i + 1;
    }
    out
}

/// The box line over columns of `widths` (see [`border_line`]).
fn border_line_exec(widths: &Vec<usize>, left: char, mid: char, right: char) -> (r: String)
    ensures
        r@ == border_line(Seq::new(widths@.len(), |k: int| widths@[k] as nat), left, mid, right),
{
    let ghost ws = Seq::new(widths@.len(), |k: int| widths@[k] as nat);
    let mut out = String::new();
    push_char(&mut out, left);
    let n = widths.len();
    if n == 0 {
        return out;
    }
    let mut k: usize = 0;
    while k < n - 1
        invariant
            n == widths@.len(),
            n > 0,
            k <= n - 1,
            ws == Seq::new(widths@.len(), |j: int| widths@[j] as nat),
            out@ == border_line_upto(ws, k as int, left, mid),
        decreases n - 1 - k,
    {
        push_run(&mut out, '─', widths[k]);
        push_char(&mut out, mid);
        k = k + 1;
    }
    push_run(&mut out, '─', widths[n - 1]);
    push_char(&mut out, right);
    out
}

/// Append `c` to `out` two more times than `w`.
fn push_run(out: &mut String, c: char, w: usize)
    ensures
        final(out)@ == old(out)@ + run_of(c, w as nat + 2),
{
    let total: u128 = w as u128 + 2;
    let mut k: u128 = 0;
    while k < total
        invariant
            k <= total,
            total == w + 2,
            out@ == old(out)@ + run_of(c, k as nat),
        decreases total - k,
    {
        push_char(out, c);
        proof {
            assert(old(out)@ + run_of(c, (k + 1) as nat) =~= (old(out)@ + run_of(c, k as nat)).push(c));
        }
        k = k + 1;
    }
}


/// The widths of a table's columns, by column.
pub open spec fn table_widths(lines: Seq<Seq<char>>) -> Seq<nat> {
    let ar = all_rows(lines);
    Seq::new(column_total(ar), |i: int| column_width(ar, i))
}

/// `b` is `a` with commands appended.
pub open spec fn extends(a: Seq<Command>, b: Seq<Command>) -> bool {
    b.len() >= a.len() && b.take(a.len() as int) == a
}

pub(crate) proof fn lemma_extends_trans(a: Seq<Command>, b: Seq<Command>, c: Seq<Command>)
    requires
        extends(a, b),
        extends(b, c),
    ensures
        extends(a, c),
{
    assert forall|j: int| 0 <= j < a.len() implies c[j] == a[j] by {
        assert(c.take(b.len() as int)[j] == c[j]);
        assert(b.take(a.len() as int)[j] == b[j]);
    }
    assert(c.take(a.len() as int) =~= a);
}

pub(crate) proof fn lemma_extends_push(a: Seq<Command>, b: Seq<Command>)
    requires
        b.len() == a.len() + 1,
        b.drop_last() == a,
    ensures
        extends(a, b),
{
    assert(b.take(a.len() as int) =~= b.drop_last());
}


/// Cell `i` of a row; empty past the row's last cell.
pub open spec fn cell_at(cells: Seq<Seq<char>>, i: int) -> Seq<char> {
    if 0 <= i < cells.len() { cells[i] } else { seq![] }
}

/// The column widths held in `widths`.
pub open spec fn widths_view(widths: Seq<usize>) -> Seq<nat> {
    Seq::new(widths.len(), |k: int| widths[k] as nat)
}

/// One cell from `lo` to `hi` in `c`: a space, the cell (a header cell as
/// its text stripped of inline formatting, in bold; a data cell as its
/// inline runs, stated when it holds no link), spaces up to the column
/// width `w`, and a closing bar.
pub open spec fn table_cell_at(c: Seq<Command>, lo: int, hi: int, raw: Seq<char>, w: nat, header: bool,
    text: Style, bold: Style, code: Style, border: Style) -> bool {
    let disp = strip_from(raw, 0);
    let st = if header { bold } else { text };
    let cw = text_width(disp);
    let pad: nat = if w > cw { (w - cw) as nat } else { 0 };
    &&& 0 <= lo && lo + 3 <= hi <= c.len()
    &&& is_plain_text(c[lo], seq![' '], st)
    &&& (header ==> hi == lo + 4 && is_plain_text(c[lo + 1], disp, bold))
    &&& (!header && !has_link_piece(md_links(raw)) ==> drawn_texts(c.take(hi - 2), lo + 1,
        inline_runs(md_links(raw), text, bold, code)))
    &&& is_plain_text(c[hi - 2], repeat(seq![' '], pad), st)
    &&& is_plain_text(c[hi - 1], seq![' ', '│'], border)
}

/// The cells of a row laid out at the bounds `b`: cell `i` from `b[i]` to `b[i + 1]`.
pub open spec fn cells_at(c: Seq<Command>, b: Seq<int>, cells: Seq<Seq<char>>, ws: Seq<nat>, header: bool,
    text: Style, bold: Style, code: Style, border: Style) -> bool {
    &&& b.len() == ws.len() + 1
    &&& forall|i: int| 0 <= i < ws.len() ==> #[trigger] table_cell_at(c, b[i], b[i + 1], cell_at(cells, i), ws[i],
        header, text, bold, code, border)
}

/// One table row from `lo` to `hi` in `c`: its own row group, a bar, and
/// one cell per column.
pub open spec fn table_row_at(c: Seq<Command>, lo: int, hi: int, cells: Seq<Seq<char>>, ws: Seq<nat>, header: bool,
    t: Theme, text: Style, bold: Style, code: Style, border: Style) -> bool {
    &&& 0 <= lo && lo + 4 <= hi <= c.len()
    &&& c[lo] is InteractionMarker
    &&& c[lo + 1] == Command::BeginContainer(plain_container(Direction::Row, 0, t.border))
    &&& is_plain_text(c[lo + 2], seq!['│'], border)
    &&& c[hi - 1] == Command::EndContainer
    &&& exists|b: Seq<int>| #[trigger] cells_at(c, b, cells, ws, header, text, bold, code, border)
        && b[0] == lo + 3 && b[ws.len() as int] == hi - 1
}

/// A cell stays as drawn when more commands follow.
pub proof fn lemma_cell_stable(c: Seq<Command>, c2: Seq<Command>, lo: int, hi: int, raw: Seq<char>, w: nat, header: bool,
    text: Style, bold: Style, code: Style, border: Style)
    requires
        table_cell_at(c, lo, hi, raw, w, header, text, bold, code, border),
        extends(c, c2),
    ensures
        table_cell_at(c2, lo, hi, raw, w, header, text, bold, code, border),
{
    assert forall|j: int| 0 <= j < c.len() implies c2[j] == c[j] by {
        assert(c2.take(c.len() as int)[j] == c2[j]);
    }
    assert forall|j: int| 0 <= j < hi - 2 implies #[trigger] c2.take(hi - 2)[j] == c.take(hi - 2)[j] by {
        assert(c2[j] == c[j]);
    }
    assert(c2.take(hi - 2) =~= c.take(hi - 2));
    assert(c2[lo] == c[lo] && c2[hi - 2] == c[hi - 2] && c2[hi - 1] == c[hi - 1]);
    if header {
        assert(c2[lo + 1] == c[lo + 1]);
    }
}

/// A row stays as drawn when more commands follow.
pub proof fn lemma_row_stable(c: Seq<Command>, c2: Seq<Command>, lo: int, hi: int, cells: Seq<Seq<char>>, ws: Seq<nat>,
    header: bool, t: Theme, text: Style, bold: Style, code: Style, border: Style)
    requires
        table_row_at(c, lo, hi, cells, ws, header, t, text, bold, code, border),
        extends(c, c2),
    ensures
        table_row_at(c2, lo, hi, cells, ws, header, t, text, bold, code, border),
{
    assert forall|j: int| 0 <= j < c.len() implies c2[j] == c[j] by {
        assert(c2.take(c.len() as int)[j] == c2[j]);
    }
    let b = choose|b: Seq<int>| #[trigger] cells_at(c, b, cells, ws, header, text, bold, code, border)
        && b[0] == lo + 3 && b[ws.len() as int] == hi - 1;
    assert forall|i: int| 0 <= i < ws.len() implies #[trigger] table_cell_at(c2, b[i], b[i + 1], cell_at(cells, i), ws[i],
        header, text, bold, code, border) by {
        lemma_cell_stable(c, c2, b[i], b[i + 1], cell_at(cells, i), ws[i], header, text, bold, code, border);
    }
    assert(cells_at(c2, b, cells, ws, header, text, bold, code, border));
    assert(c2[lo] == c[lo] && c2[lo + 1] == c[lo + 1] && c2[lo + 2] == c[lo + 2] && c2[hi - 1] == c[hi - 1]);
}


/// Whether row `k` is a table's header row.
pub open spec fn is_header_row(hh: bool, k: int) -> bool {
    hh && k == 0
}

/// Where row `k` of a table laid out at `b` ends: before the next row, and
/// before the separator line that follows a header row.
pub open spec fn row_end(b: Seq<int>, k: int, hh: bool) -> int {
    if hh && k == 0 { b[k + 1] - 1 } else { b[k + 1] }
}

/// The rows `all` of a table drawn at the bounds `b` (row `k` from `b[k]`),
/// the first a header when `hh`, with its separator line after it.
pub open spec fn rows_at(c: Seq<Command>, b: Seq<int>, all: Seq<Seq<Seq<char>>>, hh: bool, ws: Seq<nat>, t: Theme,
    text: Style, bold: Style, code: Style, border: Style) -> bool {
    &&& b.len() == all.len() + 1
    &&& forall|k: int| 0 <= k < all.len() ==> #[trigger] table_row_at(c, b[k], row_end(b, k, hh), all[k], ws, is_header_row(hh, k),
        t, text, bold, code, border)
    &&& (hh && all.len() > 0 ==> 1 <= b[1] <= c.len() && is_plain_text(c[b[1] - 1], border_line(ws, '├', '┼', '┤'), border))
}

/// A table from `lo` to `hi` in `c`: its top border, its rows (a bold header
/// row and a separator line first when it has a header), and its bottom border.
pub open spec fn table_at(c: Seq<Command>, lo: int, hi: int, lines: Seq<Seq<char>>, t: Theme,
    text: Style, bold: Style, code: Style, border: Style) -> bool {
    let ws = table_widths(lines);
    let all = all_rows(lines);
    let hh = table_rows(lines).0 is Some;
    &&& 0 <= lo && lo + 2 <= hi <= c.len()
    &&& is_plain_text(c[lo], border_line(ws, '┌', '┬', '┐'), border)
    &&& is_plain_text(c[hi - 1], border_line(ws, '└', '┴', '┘'), border)
    &&& exists|b: Seq<int>| #[trigger] rows_at(c, b, all, hh, ws, t, text, bold, code, border)
        && b[0] == lo + 1 && b[all.len() as int] == hi - 1
}

/// A table stays as drawn when more commands follow.
pub proof fn lemma_table_stable(c: Seq<Command>, c2: Seq<Command>, lo: int, hi: int, lines: Seq<Seq<char>>, t: Theme,
    text: Style, bold: Style, code: Style, border: Style)
    requires
        table_at(c, lo, hi, lines, t, text, bold, code, border),
        extends(c, c2),
    ensures
        table_at(c2, lo, hi, lines, t, text, bold, code, border),
{
    let ws = table_widths(lines);
    let all = all_rows(lines);
    let hh = table_rows(lines).0 is Some;
    assert forall|j: int| 0 <= j < c.len() implies c2[j] == c[j] by {
        assert(c2.take(c.len() as int)[j] == c2[j]);
    }
    let b = choose|b: Seq<int>| #[trigger] rows_at(c, b, all, hh, ws, t, text, bold, code, border)
        && b[0] == lo + 1 && b[all.len() as int] == hi - 1;
    assert forall|k: int| 0 <= k < all.len() implies #[trigger] table_row_at(c2, b[k], row_end(b, k, hh), all[k], ws,
        is_header_row(hh, k), t, text, bold, code, border) by {
        lemma_row_stable(c, c2, b[k], row_end(b, k, hh), all[k], ws, is_header_row(hh, k), t, text, bold, code, border);
    }
    if hh && all.len() > 0 {
        assert(c2[b[1] - 1] == c[b[1] - 1]);
    }
    assert(rows_at(c2, b, all, hh, ws, t, text, bold, code, border));
    assert(c2[lo] == c[lo] && c2[hi - 1] == c[hi - 1]);
}

impl Context {
    /// Draw one table row on a line: bars between cells, each cell padded
    /// to its column's width; header cells bold and stripped of inline
    /// formatting, data cells with it.
    fn draw_table_row(&mut self, cells: &Vec<String>, widths: &Vec<usize>, header: bool, text: Style, bold: Style,
        code: Style, border: Style)
        requires
            old(self).wf(),
        ensures
            final(self).wf(),
            extends(old(self).commands@, final(self).commands@),
            final(self).last_text_idx is None,
            inline_frame(*old(self), *final(self)),
            table_row_at(final(self).commands@, old(self).commands@.len() as int, final(self).commands@.len() as int,
                line_views(cells@), widths_view(widths@), header, old(self).theme, text, bold, code, border),
    {
        let ghost cv = line_views(cells@);
        let ghost ws = widths_view(widths@);
        let ghost t = self.theme;
        proof {
            reveal_strlit("│");
            reveal_strlit(" ");
            reveal_strlit(" │");
            reveal_strlit("");
        }
        let ghost c0 = self.commands@;
        let id = self.open_group(Direction::Row, 0);
        proof {
            assert(c0.push(Command::InteractionMarker(id)).drop_last() =~= c0);
            assert(self.commands@.drop_last() =~= c0.push(Command::InteractionMarker(id)));
            lemma_extends_push(c0, c0.push(Command::InteractionMarker(id)));
            lemma_extends_push(c0.push(Command::InteractionMarker(id)), self.commands@);
            lemma_extends_trans(c0, c0.push(Command::InteractionMarker(id)), self.commands@);
        }
        let ghost c1 = self.commands@;
        self.styled("│", border);
        proof {
            lemma_extends_push(c1, self.commands@);
            lemma_extends_trans(c0, c1, self.commands@);
        }
        let ghost n0 = c0.len() as int;
        let ghost mut bnds: Seq<int> = seq![n0 + 3];
        proof {
            let c = self.commands@;
            assert(c.drop_last() == c1);
            assert(c[n0] == c1[n0] && c[n0 + 1] == c1[n0 + 1]);
            assert(c1[n0] == Command::InteractionMarker(id));
            assert(c1[n0 + 1] == Command::BeginContainer(plain_container(Direction::Row, 0, t.border)));
            assert(c[n0 + 2] == c.last());
            assert(is_plain_text(c.last(), "│"@, border));
            assert("│"@ == seq!['│']);
        }
        let mut i: usize = 0;
        while i < widths.len()
            invariant
                self.wf(),
                i <= widths@.len(),
                c0 == old(self).commands@,
                n0 == c0.len(),
                extends(c0, self.commands@),
                inline_frame(*old(self), *self),
                t == old(self).theme,
                cv == line_views(cells@),
                ws == widths_view(widths@),
                "│"@ == seq!['│'],
                " "@ == seq![' '],
                " │"@ == seq![' ', '│'],
                ""@ == Seq::<char>::empty(),
                self.commands@.len() >= n0 + 3,
                self.commands@[n0] is InteractionMarker,
                self.commands@[n0 + 1] == Command::BeginContainer(plain_container(Direction::Row, 0, t.border)),
                is_plain_text(self.commands@[n0 + 2], seq!['│'], border),
                bnds.len() == i + 1,
                bnds[0] == n0 + 3,
                bnds[i as int] == self.commands@.len(),
                forall|j: int| 0 <= j < i ==> #[trigger] table_cell_at(self.commands@, bnds[j], bnds[j + 1],
                    cell_at(cv, j), ws[j], header, text, bold, code, border),
            decreases widths@.len() - i,
        {
            let ghost s0 = self.commands@;
            let raw: &str = if i < cells.len() { cells[i].as_str() } else { "" };
            let rc = chars_of(raw);
            let disp = md_strip(&rc);
            let cw = str_width(disp.as_str());
            let pad = repeat_str(" ", widths[i].saturating_sub(cw));
            let style = if header { bold } else { text };
            self.styled(" ", style);
            proof { lemma_extends_push(s0, self.commands@); }
            let ghost s1 = self.commands@;
            if header {
                self.styled(disp.as_str(), bold);
                proof { lemma_extends_push(s1, self.commands@); }
            } else {
                self.render_md_inline_into(&rc, text, bold, code);
            }
            let ghost s2 = self.commands@;
            self.styled(pad.as_str(), style);
            proof { lemma_extends_push(s2, self.commands@); }
            let ghost s3 = self.commands@;
            self.styled(" │", border);
            proof {
                lemma_extends_push(s3, self.commands@);
                lemma_extends_trans(s0, s1, s2);
                lemma_extends_trans(s0, s2, s3);
                lemma_extends_trans(s0, s3, self.commands@);
                lemma_extends_trans(c0, s0, self.commands@);
                let c = self.commands@;
                let lo = s0.len() as int;
                let hi = c.len() as int;
                assert(rc@ == cell_at(cv, i as int));
                assert(c[n0] == s0[n0] && c[n0 + 1] == s0[n0 + 1] && c[n0 + 2] == s0[n0 + 2]) by {
                    assert(c.take(s0.len() as int)[n0] == c[n0]);
                    assert(c.take(s0.len() as int)[n0 + 1] == c[n0 + 1]);
                    assert(c.take(s0.len() as int)[n0 + 2] == c[n0 + 2]);
                }
                assert(c[lo] == s1[lo]) by {
                    assert(c.take(s1.len() as int)[lo] == c[lo]);
                }
                if header {
                    assert(c[lo + 1] == s2[lo + 1]) by {
                        assert(c.take(s2.len() as int)[lo + 1] == c[lo + 1]);
                    }
                } else {
                    assert(c.take(hi - 2) =~= s2);
                }
                assert(c[hi - 2] == s3[hi - 2]) by {
                    assert(c.take(s3.len() as int)[hi - 2] == c[hi - 2]);
                }
                assert(table_cell_at(c, lo, hi, cell_at(cv, i as int), ws[i as int], header, text, bold, code, border));
                assert forall|j: int| 0 <= j < i implies #[trigger] table_cell_at(c, bnds[j], bnds[j + 1],
                    cell_at(cv, j), ws[j], header, text, bold, code, border) by {
                    lemma_cell_stable(s0, c, bnds[j], bnds[j + 1], cell_at(cv, j), ws[j], header, text, bold, code, border);
                }
                bnds = bnds.push(hi);
            }
            i = i + 1;
        }
        let ghost c2 = self.commands@;
        let _ = self.close_group(id);
        proof {
            assert(self.commands@.drop_last() =~= c2);
            lemma_extends_push(c2, self.commands@);
            lemma_extends_trans(c0, c2, self.commands@);
            let c = self.commands@;
            assert forall|j: int| 0 <= j < ws.len() implies #[trigger] table_cell_at(c, bnds[j], bnds[j + 1],
                cell_at(cv, j), ws[j], header, text, bold, code, border) by {
                lemma_cell_stable(c2, c, bnds[j], bnds[j + 1], cell_at(cv, j), ws[j], header, text, bold, code, border);
            }
            assert(cells_at(c, bnds, cv, ws, header, text, bold, code, border));
            assert(c[n0] == c2[n0] && c[n0 + 1] == c2[n0 + 1] && c[n0 + 2] == c2[n0 + 2]);
        }
    }

    /// Draw a pipe table from its trimmed lines: a box around a bold header
    /// row (when the first line is not a separator) and the data rows, every
    /// column as wide as its widest cell. Nothing is drawn when no row has
    /// a cell.
    #[verifier::rlimit(100)]
    #[verifier::spinoff_prover]
    pub(crate) fn render_markdown_table(&mut self, lines: &Vec<String>, text: Style, bold: Style, code: Style, border: Style)
        requires
            old(self).wf(),
        ensures
            final(self).wf(),
            extends(old(self).commands@, final(self).commands@),
            inline_frame(*old(self), *final(self)),
            ({
                let ws = table_widths(line_views(lines@));
                let n = old(self).commands@.len() as int;
                let c = final(self).commands@;
                if ws.len() == 0 {
                    *final(self) == *old(self)
                } else {
                    table_at(c, n, c.len() as int, line_views(lines@), old(self).theme, text, bold, code, border)
                }
            }),
    {
        let ghost lv = line_views(lines@);
        if lines.len() == 0 {
            proof {
                assert(all_rows(lv) =~= Seq::<Seq<Seq<char>>>::empty());
                assert(old(self).commands@.take(old(self).commands@.len() as int) =~= old(self).commands@);
            }
            return;
        }
        let (header, data) = parse_table_rows(lines);
        let has_header = header.is_some();
        let all = table_all_rows(header, data);
        proof {
            assert(rows_view(all@) == all_rows(lv));
        }
        let cols = column_total_exec(&all);
        if cols == 0 {
            proof {
                assert(old(self).commands@.take(old(self).commands@.len() as int) =~= old(self).commands@);
            }
            return;
        }
        let widths = column_widths(&all, cols);
        let ghost ws = table_widths(lv);
        proof {
            assert(Seq::new(widths@.len(), |k: int| widths@[k] as nat) =~= ws);
        }
        let ghost c0 = self.commands@;
        let top = border_line_exec(&widths, '┌', '┬', '┐');
        self.styled(top.as_str(), border);
        let ghost c1 = self.commands@;
        proof {
            lemma_extends_push(c0, c1);
        }
        let mut k: usize = 0;
        let ghost av = rows_view(all@);
        let ghost hh = table_rows(lv).0 is Some;
        let ghost t = self.theme;
        let ghost mut bnds: Seq<int> = seq![c1.len() as int];
        proof {
            assert(c1.take(c1.len() as int) =~= c1);
            assert(widths_view(widths@) == ws);
            assert(hh == has_header);
        }
        if has_header {
            let ghost r0 = self.commands@;
            self.draw_table_row(&all[0], &widths, true, text, bold, code, border);
            let ghost c2 = self.commands@;
            let sep = border_line_exec(&widths, '├', '┼', '┤');
            self.styled(sep.as_str(), border);
            proof {
                lemma_extends_push(c2, self.commands@);
                lemma_extends_trans(c1, c2, self.commands@);
                let c = self.commands@;
                assert(av[0] == line_views(all@[0]@));
                lemma_row_stable(c2, c, r0.len() as int, c2.len() as int, av[0], ws, true, t, text, bold, code, border);
                bnds = bnds.push(c.len() as int);
                assert(row_end(bnds, 0, hh) == c2.len());
                assert(c[bnds[1] - 1] == c.last());
            }
            k = 1;
        }
        while k < all.len()
            invariant
                self.wf(),
                c1.len() == c0.len() + 1,
                c1.take(c0.len() as int) == c0,
                is_plain_text(c1[c0.len() as int], border_line(ws, '┌', '┬', '┐'), border),
                extends(c1, self.commands@),
                inline_frame(*old(self), *self),
                c0 == old(self).commands@,
                t == old(self).theme,
                av == rows_view(all@),
                widths_view(widths@) == ws,
                hh == has_header,
                k <= all@.len(),
                hh ==> k >= 1,
                bnds.len() == k + 1,
                bnds[0] == c1.len(),
                bnds[k as int] == self.commands@.len(),
                forall|j: int| 0 <= j < k ==> #[trigger] table_row_at(self.commands@, bnds[j], row_end(bnds, j, hh), av[j], ws,
                    is_header_row(hh, j), t, text, bold, code, border),
                hh && k > 0 ==> 1 <= bnds[1] <= self.commands@.len()
                    && is_plain_text(self.commands@[bnds[1] - 1], border_line(ws, '├', '┼', '┤'), border),
            decreases all@.len() - k,
        {
            let ghost s0 = self.commands@;
            self.draw_table_row(&all[k], &widths, false, text, bold, code, border);
            proof {
                lemma_extends_trans(c1, s0, self.commands@);
                let c = self.commands@;
                assert(av[k as int] == line_views(all@[k as int]@));
                let nb = bnds.push(c.len() as int);
                assert forall|j: int| 0 <= j < k + 1 implies #[trigger] table_row_at(c, nb[j], row_end(nb, j, hh), av[j], ws,
                    is_header_row(hh, j), t, text, bold, code, border) by {
                    if j < k {
                        assert(row_end(nb, j, hh) == row_end(bnds, j, hh));
                        lemma_row_stable(s0, c, bnds[j], row_end(bnds, j, hh), av[j], ws, is_header_row(hh, j), t, text, bold, code, border);
                    } else {
                        assert(row_end(nb, j, hh) == c.len());
                    }
                }
                if hh && k > 0 {
                    assert(c.take(s0.len() as int)[bnds[1] - 1] == c[bnds[1] - 1]);
                }
                bnds = nb;
            }
            k = k + 1;
        }
        let ghost c3 = self.commands@;
        let bottom = border_line_exec(&widths, '└', '┴', '┘');
        self.styled(bottom.as_str(), border);
        proof {
            lemma_extends_push(c3, self.commands@);
            lemma_extends_trans(c1, c3, self.commands@);
            lemma_extends_push(c0, c1);
            lemma_extends_trans(c0, c1, self.commands@);
            let c = self.commands@;
            let n = c0.len() as int;
            assert(c.take(c1.len() as int)[n] == c[n]);
            assert forall|j: int| 0 <= j < av.len() implies #[trigger] table_row_at(c, bnds[j], row_end(bnds, j, hh), av[j], ws,
                is_header_row(hh, j), t, text, bold, code, border) by {
                lemma_row_stable(c3, c, bnds[j], row_end(bnds, j, hh), av[j], ws, is_header_row(hh, j), t, text, bold, code, border);
            }
            if hh && av.len() > 0 {
                assert(c.take(c3.len() as int)[bnds[1] - 1] == c[bnds[1] - 1]);
            }
            assert(rows_at(c, bnds, av, hh, ws, t, text, bold, code, border));
            assert(c[c.len() - 1] == c.last());
        }
    }
}

} // verus!
