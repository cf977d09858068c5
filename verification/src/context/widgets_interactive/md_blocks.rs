//! Markdown block structure: a text's lines sorted into headings, lists,
//! quotes, rules, code blocks, tables and paragraphs.
use vstd::prelude::*;
use crate::unicode::{chars_of, is_space, push_char, white_space};

verus! {

/// `l` without one `'\r'` at its end.
pub open spec fn strip_cr(l: Seq<char>) -> Seq<char> {
    if l.len() > 0 && l.last() == '\r' { l.drop_last() } else { l }
}

/// The lines of `cs` from `i` on, `cur` being the part of the current line
/// read so far: lines end at `'\n'`, which is dropped with a `'\r'` just
/// before it; a final `'\n'` starts no further line.
pub open spec fn lines_from(cs: Seq<char>, i: int, cur: Seq<char>) -> Seq<Seq<char>>
    decreases cs.len() - i,
{
    if i < 0 || i >= cs.len() {
        if cur.len() > 0 { seq![cur] } else { seq![] }
    } else if cs[i] == '\n' {
        seq![strip_cr(cur)] + lines_from(cs, i + 1, seq![])
    } else {
        lines_from(cs, i + 1, cur.push(cs[i]))
    }
}

/// The lines of a text, as `str::lines` splits it.
pub open spec fn text_lines(cs: Seq<char>) -> Seq<Seq<char>> {
    lines_from(cs, 0, seq![])
}

/// The number of white-space characters `l` starts with, from `i` on.
pub open spec fn lead_from(l: Seq<char>, i: int) -> int
    decreases l.len() - i,
{
    if i < 0 || i >= l.len() || !white_space(l[i]) { i } else { lead_from(l, i + 1) }
}

/// The end of `l` before its trailing white space, looking left from `j`.
pub open spec fn trail_from(l: Seq<char>, j: int) -> int
    decreases j,
{
    if j <= 0 || j > l.len() || !white_space(l[j - 1]) { j } else { trail_from(l, j - 1) }
}

/// `l` without white space at either end, as `str::trim` gives it.
pub open spec fn trimmed(l: Seq<char>) -> Seq<char> {
    let a = lead_from(l, 0);
    let b = trail_from(l, l.len() as int);
    if a >= b { seq![] } else { l.subrange(a, b) }
}

/// Whether `l` begins with `p`.
pub open spec fn starts_with(l: Seq<char>, p: Seq<char>) -> bool {
    l.len() >= p.len() && l.take(p.len() as int) == p
}

/// How many times `c` occurs in `l`.
pub open spec fn count_of(l: Seq<char>, c: char) -> nat
    decreases l.len(),
{
    if l.len() == 0 { 0 } else { count_of(l.drop_last(), c) + if l.last() == c { 1nat } else { 0nat } }
}

/// The first index from `i` on where `". "` starts.
pub open spec fn find_dot_space(l: Seq<char>, i: int) -> Option<int>
    decreases l.len() - i,
{
    if i < 0 || i + 1 >= l.len() {
        None
    } else if l[i] == '.' && l[i + 1] == ' ' {
        Some(i)
    } else {
        find_dot_space(l, i + 1)
    }
}

/// A block of a markdown text, by character sequences.
pub enum MdBlockView {
    /// An empty line.
    Blank,
    /// `---`, `***` or `___`.
    Rule,
    /// `> text`.
    Quote(Seq<char>),
    /// `#`, `##` or `###` and the heading text.
    Heading(nat, Seq<char>),
    /// `- item` or `* item`.
    Bullet(Seq<char>),
    /// `12. item`: the number and the item.
    Ordered(Seq<char>, Seq<char>),
    /// Any other line.
    Paragraph(Seq<char>),
    /// A fenced code block that was closed, by its lines.
    Code(Seq<Seq<char>>),
    /// A fenced code block still open at the end of the text.
    OpenCode(Seq<Seq<char>>),
    /// Consecutive table rows, trimmed.
    Table(Seq<Seq<char>>),
}

/// Whether a trimmed line is a table row: it starts with `|` and holds two.
pub open spec fn is_table_row(t: Seq<char>) -> bool {
    starts_with(t, seq!['|']) && count_of(t, '|') >= 2
}

/// Whether a trimmed line opens or closes a code fence.
pub open spec fn is_fence(t: Seq<char>) -> bool {
    starts_with(t, seq!['`', '`', '`'])
}

/// The block of a trimmed line outside code and tables; `None` for a fence.
pub open spec fn line_block(t: Seq<char>) -> Option<MdBlockView> {
    if t.len() == 0 {
        Some(MdBlockView::Blank)
    } else if t == seq!['-', '-', '-'] || t == seq!['*', '*', '*'] || t == seq!['_', '_', '_'] {
        Some(MdBlockView::Rule)
    } else if starts_with(t, seq!['>', ' ']) {
        Some(MdBlockView::Quote(t.skip(2)))
    } else if starts_with(t, seq!['#', '#', '#', ' ']) {
        Some(MdBlockView::Heading(3, t.skip(4)))
    } else if starts_with(t, seq!['#', '#', ' ']) {
        Some(MdBlockView::Heading(2, t.skip(3)))
    } else if starts_with(t, seq!['#', ' ']) {
        Some(MdBlockView::Heading(1, t.skip(2)))
    } else if starts_with(t, seq!['-', ' ']) || starts_with(t, seq!['*', ' ']) {
        Some(MdBlockView::Bullet(t.skip(2)))
    } else if '0' <= t[0] <= '9' && find_dot_space(t, 0) is Some {
        let j = find_dot_space(t, 0)->Some_0;
        Some(MdBlockView::Ordered(t.take(j), t.skip(j + 2)))
    } else if is_fence(t) {
        None
    } else {
        Some(MdBlockView::Paragraph(t))
    }
}

/// Where the parse of a markdown text stands between lines.
pub struct MdScan {
    pub in_code: bool,
    pub code: Seq<Seq<char>>,
    pub table: Seq<Seq<char>>,
    pub blocks: Seq<MdBlockView>,
}

/// The pending table rows as a block, when there are any.
pub open spec fn table_flushed(table: Seq<Seq<char>>) -> Seq<MdBlockView> {
    if table.len() > 0 { seq![MdBlockView::Table(table)] } else { seq![] }
}

/// One line read: inside a fence lines are kept as they are until a closing
/// fence; table rows gather; any other line ends the gathered table.
pub open spec fn md_step(st: MdScan, line: Seq<char>) -> MdScan {
    let t = trimmed(line);
    if st.in_code {
        if is_fence(t) {
            MdScan { in_code: false, code: seq![], blocks: st.blocks.push(MdBlockView::Code(st.code)), ..st }
        } else {
            MdScan { code: st.code.push(line), ..st }
        }
    } else if is_table_row(t) {
        MdScan { table: st.table.push(t), ..st }
    } else {
        let flushed = st.blocks + table_flushed(st.table);
        match line_block(t) {
            None => MdScan { in_code: true, table: seq![], blocks: flushed, ..st },
            Some(b) => MdScan { table: seq![], blocks: flushed.push(b), ..st },
        }
    }
}

/// The scan after the first `k` lines.
pub open spec fn md_scan(lines: Seq<Seq<char>>, k: int) -> MdScan
    decreases k,
{
    if k <= 0 || k > lines.len() {
        MdScan { in_code: false, code: seq![], table: seq![], blocks: seq![] }
    } else {
        md_step(md_scan(lines, k - 1), lines[k - 1])
    }
}

/// The blocks once every line is read: an open fence with lines keeps them,
/// and gathered table rows form the last table.
pub open spec fn md_finish(st: MdScan) -> Seq<MdBlockView> {
    st.blocks + (if st.in_code && st.code.len() > 0 { seq![MdBlockView::OpenCode(st.code)] } else { seq![] })
        + table_flushed(st.table)
}

/// The blocks of a markdown text.
pub open spec fn md_blocks(cs: Seq<char>) -> Seq<MdBlockView> {
    let lines = text_lines(cs);
    md_finish(md_scan(lines, lines.len() as int))
}


/// A block of a markdown text.
pub enum MdBlock {
    Blank,
    Rule,
    Quote(String),
    Heading(u8, String),
    Bullet(String),
    Ordered(String, String),
    Paragraph(String),
    Code(Vec<String>),
    OpenCode(Vec<String>),
    Table(Vec<String>),
}

/// The character sequences of a vector of strings.
pub open spec fn line_views(v: Seq<String>) -> Seq<Seq<char>> {
    Seq::new(v.len(), |k: int| v[k]@)
}

impl MdBlock {
    pub open spec fn view_block(&self) -> MdBlockView {
        match self {
            MdBlock::Blank => MdBlockView::Blank,
            MdBlock::Rule => MdBlockView::Rule,
            MdBlock::Quote(t) => MdBlockView::Quote(t@),
            MdBlock::Heading(n, t) => MdBlockView::Heading(*n as nat, t@),
            MdBlock::Bullet(t) => MdBlockView::Bullet(t@),
            MdBlock::Ordered(a, b) => MdBlockView::Ordered(a@, b@),
            MdBlock::Paragraph(t) => MdBlockView::Paragraph(t@),
            MdBlock::Code(v) => MdBlockView::Code(line_views(v@)),
            MdBlock::OpenCode(v) => MdBlockView::OpenCode(line_views(v@)),
            MdBlock::Table(v) => MdBlockView::Table(line_views(v@)),
        }
    }
}

/// The blocks of a vector of blocks.
pub open spec fn block_views(v: Seq<MdBlock>) -> Seq<MdBlockView> {
    Seq::new(v.len(), |k: int| v[k].view_block())
}

/// `cs[from..to]` as a string.
pub(crate) fn chars_string(cs: &Vec<char>, from: usize, to: usize) -> (r: String)
    requires
        from <= to <= cs@.len(),
    ensures
        r@ == cs@.subrange(from as int, to as int),
{
    let mut out = String::new();
    let mut k = from;
    while k < to
        invariant
            from <= k <= to <= cs@.len(),
            out@ == cs@.subrange(from as int, k as int),
        decreases to - k,
    {
        push_char(&mut out, cs[k]);
        proof {
            assert(cs@.subrange(from as int, k + 1) == cs@.subrange(from as int, k as int).push(cs@[k as int]));
        }
        k = k + 1;
    }
    out
}

/// Split a text into lines (see [`text_lines`]).
pub(crate) fn split_lines(cs: &Vec<char>) -> (r: Vec<String>)
    ensures
        line_views(r@) == text_lines(cs@),
{
    let n = cs.len();
    let mut out: Vec<String> = Vec::new();
    let mut start: usize = 0;
    let mut i: usize = 0;
    proof {
        assert(cs@.subrange(0, 0) =~= Seq::<char>::empty());
        assert(line_views(out@) + text_lines(cs@) =~= text_lines(cs@));
    }
    while i < n
        invariant
            n == cs@.len(),
            start <= i <= n,
            line_views(out@) + lines_from(cs@, i as int, cs@.subrange(start as int, i as int)) == text_lines(cs@),
        decreases n - i,
    {
        if cs[i] == '\n' {
            let end = if i > start && cs[i - 1] == '\r' { i - 1 } else { i };
            let line = chars_string(cs, start, end);
            let ghost before = out@;
            out.push(line);
            proof {
                let cur = cs@.subrange(start as int, i as int);
                assert(line@ == strip_cr(cur)) by {
                    if cur.len() > 0 && cur.last() == '\r' {
                        assert(cur.drop_last() =~= cs@.subrange(start as int, i - 1));
                    }
                }
                assert(line_views(out@) =~= line_views(before).push(line@));
                assert(cs@.subrange(i + 1, i + 1) =~= Seq::<char>::empty());
                assert(line_views(out@) + lines_from(cs@, i + 1, seq![]) =~= line_views(before)
                    + lines_from(cs@, i as int, cur));
            }
            i = i + 1;
            start = i;
        } else {
            proof {
                assert(cs@.subrange(start as int, i + 1) =~= cs@.subrange(start as int, i as int).push(cs@[i as int]));
            }
            i = i + 1;
        }
    }
    if start < n {
        let line = chars_string(cs, start, n);
        let ghost before = out@;
        out.push(line);
        proof {
            assert(line_views(out@) =~= line_views(before) + lines_from(cs@, n as int, cs@.subrange(start as int, n as int)));
        }
    } else {
        proof {
            assert(cs@.subrange(start as int, n as int) =~= Seq::<char>::empty());
            assert(line_views(out@) =~= line_views(out@) + lines_from(cs@, n as int, cs@.subrange(start as int, n as int)));
        }
    }
    out
}

/// `l` trimmed (see [`trimmed`]).
pub(crate) fn trim_chars(l: &Vec<char>) -> (r: Vec<char>)
    ensures
        r@ == trimmed(l@),
{
    let n = l.len();
    let mut a: usize = 0;
    while a < n && is_space(l[a])
        invariant
            a <= n == l@.len(),
            lead_from(l@, a as int) == lead_from(l@, 0),
        decreases n - a,
    {
        a = a + 1;
    }
    let mut b: usize = n;
    while b > 0 && is_space(l[b - 1])
        invariant
            b <= n == l@.len(),
            trail_from(l@, b as int) == trail_from(l@, n as int),
        decreases b,
    {
        b = b - 1;
    }
    let mut out: Vec<char> = Vec::new();
    if a < b {
        let mut k = a;
        while k < b
            invariant
                a <= k <= b <= n == l@.len(),
                out@ == l@.subrange(a as int, k as int),
            decreases b - k,
        {
            out.push(l[k]);
            proof {
                assert(l@.subrange(a as int, k + 1) == l@.subrange(a as int, k as int).push(l@[k as int]));
            }
            k = k + 1;
        }
    }
    proof {
        if a >= b {
            assert(out@ =~= Seq::<char>::empty());
        }
    }
    out
}

/// Whether `l` begins with the characters of `p`.
pub(crate) fn starts_with_exec(l: &Vec<char>, p: &[char]) -> (r: bool)
    ensures
        r == starts_with(l@, p@),
{
    if l.len() < p.len() {
        return false;
    }
    let mut k: usize = 0;
    while k < p.len()
        invariant
            p@.len() <= l@.len(),
            k <= p@.len(),
            forall|j: int| 0 <= j < k ==> l@[j] == p@[j],
        decreases p@.len() - k,
    {
        if l[k] != p[k] {
            proof {
                assert(l@.take(p@.len() as int)[k as int] != p@[k as int]);
            }
            return false;
        }
        k = k + 1;
    }
    proof {
        assert(l@.take(p@.len() as int) =~= p@);
    }
    true
}

fn count_exec(l: &Vec<char>, c: char) -> (r: usize)
    ensures
        r == count_of(l@, c),
{
    let n = l.len();
    let mut k: usize = 0;
    let mut m: usize = 0;
    while k < n
        invariant
            k <= n == l@.len(),
            m == count_of(l@.take(k as int), c),
            m <= k,
        decreases n - k,
    {
        proof {
            assert(l@.take(k + 1).drop_last() =~= l@.take(k as int));
        }
        if l[k] == c {
            m = m + 1;
        }
        k = k + 1;
    }
    proof {
        assert(l@.take(n as int) =~= l@);
    }
    m
}

pub(crate) fn find_dot_space_exec(l: &Vec<char>) -> (r: Option<usize>)
    ensures
        match find_dot_space(l@, 0) {
            None => r is None,
            Some(j) => r == Some(j as usize),
        },
{
    let n = l.len();
    let mut j: usize = 0;
    while j < n && j + 1 < n
        invariant
            n == l@.len(),
            find_dot_space(l@, j as int) == find_dot_space(l@, 0),
        decreases n - j,
    {
        if l[j] == '.' && l[j + 1] == ' ' {
            return Some(j);
        }
        j = j + 1;
    }
    None
}


/// Whether `t` is three copies of `c`.
pub(crate) fn is_triple(t: &Vec<char>, c: char) -> (r: bool)
    ensures
        r == (t@ == seq![c, c, c]),
{
    let r = t.len() == 3 && t[0] == c && t[1] == c && t[2] == c;
    proof {
        if r {
            assert(t@ =~= seq![c, c, c]);
        }
    }
    r
}

/// The block of a trimmed line outside code and tables (see [`line_block`]).
fn line_block_exec(t: &Vec<char>) -> (r: Option<MdBlock>)
    ensures
        match line_block(t@) {
            None => r is None,
            Some(b) => r matches Some(x) && x.view_block() == b,
        },
{
    let n = t.len();
    proof {
        assert(t@.skip(2) =~= t@.subrange(2, n as int)) by {}
    }
    if n == 0 {
        return Some(MdBlock::Blank);
    }
    if is_triple(t, '-') || is_triple(t, '*') || is_triple(t, '_') {
        return Some(MdBlock::Rule);
    }
    let quote = ['>', ' '];
    let h3 = ['#', '#', '#', ' '];
    let h2 = ['#', '#', ' '];
    let h1 = ['#', ' '];
    let dash = ['-', ' '];
    let star = ['*', ' '];
    let fence = ['`', '`', '`'];
    proof {
        assert(quote@ =~= seq!['>', ' ']);
        assert(h3@ =~= seq!['#', '#', '#', ' ']);
        assert(h2@ =~= seq!['#', '#', ' ']);
        assert(h1@ =~= seq!['#', ' ']);
        assert(dash@ =~= seq!['-', ' ']);
        assert(star@ =~= seq!['*', ' ']);
        assert(fence@ =~= seq!['`', '`', '`']);
    }
    if starts_with_exec(t, &quote) {
        let r = chars_string(t, 2, n);
        proof { assert(r@ =~= t@.skip(2)); }
        return Some(MdBlock::Quote(r));
    }
    if starts_with_exec(t, &h3) {
        let r = chars_string(t, 4, n);
        proof { assert(r@ =~= t@.skip(4)); }
        return Some(MdBlock::Heading(3, r));
    }
    if starts_with_exec(t, &h2) {
        let r = chars_string(t, 3, n);
        proof { assert(r@ =~= t@.skip(3)); }
        return Some(MdBlock::Heading(2, r));
    }
    if starts_with_exec(t, &h1) {
        let r = chars_string(t, 2, n);
        proof { assert(r@ =~= t@.skip(2)); }
        return Some(MdBlock::Heading(1, r));
    }
    if starts_with_exec(t, &dash) || starts_with_exec(t, &star) {
        let r = chars_string(t, 2, n);
        proof { assert(r@ =~= t@.skip(2)); }
        return Some(MdBlock::Bullet(r));
    }
    if '0' <= t[0] && t[0] <= '9' {
        match find_dot_space_exec(t) {
            Some(j) => {
                proof {
                    lemma_dot_space_fits(t@, 0);
                }
                let num = chars_string(t, 0, j);
                let item = chars_string(t, j + 2, n);
                proof {
                    assert(num@ =~= t@.take(j as int));
                    assert(item@ =~= t@.skip(j + 2));
                }
                return Some(MdBlock::Ordered(num, item));
            },
            None => {},
        }
    }
    if starts_with_exec(t, &fence) {
        return None;
    }
    let mut whole = String::new();
    let mut k: usize = 0;
    while k < n
        invariant
            n == t@.len(),
            k <= n,
            whole@ == t@.take(k as int),
        decreases n - k,
    {
        push_char(&mut whole, t[k]);
        proof {
            assert(t@.take(k + 1) =~= t@.take(k as int).push(t@[k as int]));
        }
        k = k + 1;
    }
    proof {
        assert(t@.take(n as int) =~= t@);
    }
    Some(MdBlock::Paragraph(whole))
}

pub(crate) proof fn lemma_dot_space_fits(l: Seq<char>, i: int)
    ensures
        find_dot_space(l, i) matches Some(j) ==> i <= j && j + 2 <= l.len(),
    decreases l.len() - i,
{
    if 0 <= i && i + 1 < l.len() {
        lemma_dot_space_fits(l, i + 1);
    }
}

/// The blocks of a markdown text (see [`md_blocks`]).
pub fn parse_markdown(text: &str) -> (r: Vec<MdBlock>)
    ensures
        block_views(r@) == md_blocks(text@),
{
    let cs = chars_of(text);
    let lines = split_lines(&cs);
    let ghost lv = line_views(lines@);
    let mut blocks: Vec<MdBlock> = Vec::new();
    let mut in_code = false;
    let mut code: Vec<String> = Vec::new();
    let mut table: Vec<String> = Vec::new();
    let n = lines.len();
    let mut k: usize = 0;
    let bar = ['|'];
    let fence = ['`', '`', '`'];
    proof {
        assert(bar@ =~= seq!['|']);
        assert(fence@ =~= seq!['`', '`', '`']);
    }
    while k < n
        invariant
            n == lines@.len(),
            lv == line_views(lines@),
            lv == text_lines(text@),
            k <= n,
            bar@ == seq!['|'],
            fence@ == seq!['`', '`', '`'],
            ({
                let st = md_scan(lv, k as int);
                &&& st.in_code == in_code
                &&& st.code == line_views(code@)
                &&& st.table == line_views(table@)
                &&& st.blocks == block_views(blocks@)
            }),
        decreases n - k,
    {
        let lc = chars_of(lines[k].as_str());
        let t = trim_chars(&lc);
        let ghost st = md_scan(lv, k as int);
        proof {
            assert(md_scan(lv, k + 1) == md_step(st, lv[k as int]));
            assert(lc@ == lv[k as int]);
        }
        if in_code {
            if starts_with_exec(&t, &fence) {
                let ghost bb = blocks@;
                let mut done: Vec<String> = Vec::new();
                core::mem::swap(&mut done, &mut code);
                blocks.push(MdBlock::Code(done));
                in_code = false;
                proof {
                    assert(block_views(blocks@) =~= block_views(bb).push(MdBlockView::Code(st.code)));
                    assert(line_views(code@) =~= Seq::<Seq<char>>::empty());
                }
            } else {
                let ghost cb = code@;
                code.push(chars_string(&lc, 0, lc.len()));
                proof {
                    assert(lc@.subrange(0, lc@.len() as int) =~= lc@);
                    assert(line_views(code@) =~= line_views(cb).push(lv[k as int]));
                }
            }
        } else if starts_with_exec(&t, &bar) && count_exec(&t, '|') >= 2 {
            let ghost tb = table@;
            table.push(chars_string(&t, 0, t.len()));
            proof {
                assert(t@.subrange(0, t@.len() as int) =~= t@);
                assert(line_views(table@) =~= line_views(tb).push(trimmed(lv[k as int])));
            }
        } else {
            let ghost bb = blocks@;
            if table.len() > 0 {
                let mut rows: Vec<String> = Vec::new();
                core::mem::swap(&mut rows, &mut table);
                blocks.push(MdBlock::Table(rows));
            }
            proof {
                assert(block_views(blocks@) =~= bb_plus(block_views(bb), st.table));
                assert(line_views(table@) =~= Seq::<Seq<char>>::empty());
            }
            let ghost fb = blocks@;
            match line_block_exec(&t) {
                None => {
                    in_code = true;
                },
                Some(b) => {
                    blocks.push(b);
                    proof {
                        assert(block_views(blocks@) =~= block_views(fb).push(line_block(trimmed(lv[k as int]))->Some_0));
                    }
                },
            }
        }
        k = k + 1;
    }
    let ghost st = md_scan(lv, n as int);
    let ghost bb = blocks@;
    if in_code && code.len() > 0 {
        blocks.push(MdBlock::OpenCode(code));
    }
    let ghost ob = blocks@;
    if table.len() > 0 {
        blocks.push(MdBlock::Table(table));
    }
    proof {
        assert(block_views(ob) =~= block_views(bb) + (if st.in_code && st.code.len() > 0 {
            seq![MdBlockView::OpenCode(st.code)] } else { seq![] }));
        assert(block_views(blocks@) =~= md_finish(st));
    }
    blocks
}

/// `blocks` with the gathered `table` rows appended as a block.
pub open spec fn bb_plus(blocks: Seq<MdBlockView>, table: Seq<Seq<char>>) -> Seq<MdBlockView> {
    blocks + table_flushed(table)
}


/// The three thematic breaks: a trimmed line of three `-`, three `*` or
/// three `_` is a horizontal rule, and no other line of three equal
/// characters is one.
pub proof fn lemma_rule_lines(t: Seq<char>)
    requires
        t.len() == 3,
        t[0] == t[1] && t[1] == t[2],
    ensures
        (t[0] == '-' || t[0] == '*' || t[0] == '_') ==> line_block(t) == Some(MdBlockView::Rule),
        line_block(t) == Some(MdBlockView::Rule) ==> (t[0] == '-' || t[0] == '*' || t[0] == '_'),
{
    if t[0] == '-' {
        assert(t =~= seq!['-', '-', '-']);
    } else if t[0] == '*' {
        assert(t =~= seq!['*', '*', '*']);
    } else if t[0] == '_' {
        assert(t =~= seq!['_', '_', '_']);
    } else {
        assert(t != seq!['-', '-', '-'] && t != seq!['*', '*', '*'] && t != seq!['_', '_', '_']) by {
            if t == seq!['-', '-', '-'] { assert(t[0] == '-'); }
            if t == seq!['*', '*', '*'] { assert(t[0] == '*'); }
            if t == seq!['_', '_', '_'] { assert(t[0] == '_'); }
        }
    }
}


/// Line prefixes choose the block: an empty line is blank; `# `, `## ` and
/// `### ` start headings of levels 1 to 3 holding the rest of the line;
/// `> ` starts a quote and `- ` or `* ` a bullet, holding the rest.
pub proof fn lemma_line_prefixes(rest: Seq<char>)
    ensures
        line_block(seq![]) == Some(MdBlockView::Blank),
        line_block(seq!['#', ' '] + rest) == Some(MdBlockView::Heading(1, rest)),
        line_block(seq!['#', '#', ' '] + rest) == Some(MdBlockView::Heading(2, rest)),
        line_block(seq!['#', '#', '#', ' '] + rest) == Some(MdBlockView::Heading(3, rest)),
        line_block(seq!['>', ' '] + rest) == Some(MdBlockView::Quote(rest)),
        line_block(seq!['-', ' '] + rest) == Some(MdBlockView::Bullet(rest)),
        line_block(seq!['*', ' '] + rest) == Some(MdBlockView::Bullet(rest)),
{
    let h1 = seq!['#', ' '] + rest;
    let h2 = seq!['#', '#', ' '] + rest;
    let h3 = seq!['#', '#', '#', ' '] + rest;
    let q = seq!['>', ' '] + rest;
    let b1 = seq!['-', ' '] + rest;
    let b2 = seq!['*', ' '] + rest;
    assert(h1.take(2) =~= seq!['#', ' '] && h1.skip(2) =~= rest);
    assert(h2.take(3) =~= seq!['#', '#', ' '] && h2.skip(3) =~= rest && h2.take(2) != seq!['#', ' ']) by {
        assert(h2.take(2)[1] == '#');
    }
    assert(h3.take(4) =~= seq!['#', '#', '#', ' '] && h3.skip(4) =~= rest);
    assert(q.take(2) =~= seq!['>', ' '] && q.skip(2) =~= rest);
    assert(b1.take(2) =~= seq!['-', ' '] && b1.skip(2) =~= rest);
    assert(b2.take(2) =~= seq!['*', ' '] && b2.skip(2) =~= rest);
    assert(h1 != seq!['-', '-', '-'] && h1 != seq!['*', '*', '*'] && h1 != seq!['_', '_', '_']) by {
        if h1.len() == 3 { assert(h1[0] == '#'); }
    }
    assert(h2 != seq!['-', '-', '-'] && h2 != seq!['*', '*', '*'] && h2 != seq!['_', '_', '_']) by {
        if h2.len() == 3 { assert(h2[0] == '#'); }
    }
    assert(h3 != seq!['-', '-', '-'] && h3 != seq!['*', '*', '*'] && h3 != seq!['_', '_', '_']) by {
        assert(h3[0] == '#');
    }
    assert(q != seq!['-', '-', '-'] && q != seq!['*', '*', '*'] && q != seq!['_', '_', '_']) by {
        assert(q[0] == '>');
    }
    assert(b1 != seq!['-', '-', '-'] && b1 != seq!['*', '*', '*'] && b1 != seq!['_', '_', '_']) by {
        assert(b1[1] == ' ');
    }
    assert(b2 != seq!['-', '-', '-'] && b2 != seq!['*', '*', '*'] && b2 != seq!['_', '_', '_']) by {
        assert(b2[1] == ' ');
    }
    assert(!starts_with(h1, seq!['>', ' ']) && !starts_with(h2, seq!['>', ' ']) && !starts_with(h3, seq!['>', ' '])) by {
        assert(h1.take(2)[0] == '#' && h2.take(2)[0] == '#' && h3.take(2)[0] == '#');
    }
    assert(!starts_with(h1, seq!['#', '#', '#', ' ']) && !starts_with(h1, seq!['#', '#', ' '])) by {
        if h1.len() >= 3 { assert(h1.take(3)[1] == ' '); }
    }
    assert(!starts_with(h2, seq!['#', '#', '#', ' '])) by {
        if h2.len() >= 4 { assert(h2.take(4)[2] == ' '); }
    }
    assert(!starts_with(b1, seq!['>', ' ']) && !starts_with(b1, seq!['#', '#', '#', ' '])
        && !starts_with(b1, seq!['#', '#', ' ']) && !starts_with(b1, seq!['#', ' '])) by {
        assert(b1.take(2)[0] == '-');
        if b1.len() >= 3 { assert(b1.take(3)[0] == '-'); }
        if b1.len() >= 4 { assert(b1.take(4)[0] == '-'); }
    }
    assert(!starts_with(b2, seq!['>', ' ']) && !starts_with(b2, seq!['#', '#', '#', ' '])
        && !starts_with(b2, seq!['#', '#', ' ']) && !starts_with(b2, seq!['#', ' '])) by {
        assert(b2.take(2)[0] == '*');
        if b2.len() >= 3 { assert(b2.take(3)[0] == '*'); }
        if b2.len() >= 4 { assert(b2.take(4)[0] == '*'); }
    }
}


proof fn lemma_dot_space_at(l: Seq<char>, from: int, end: int)
    requires
        0 <= from <= end,
        end + 1 < l.len(),
        l[end] == '.' && l[end + 1] == ' ',
        forall|k: int| from <= k < end ==> l[k] != '.',
    ensures
        find_dot_space(l, from) == Some(end),
    decreases end - from,
{
    if from < end {
        lemma_dot_space_at(l, from + 1, end);
    }
}

/// A line of digits, a dot, a space and text is an ordered item numbered by
/// those digits and holding that text.
pub proof fn lemma_ordered_line(num: Seq<char>, rest: Seq<char>)
    requires
        num.len() > 0,
        forall|k: int| 0 <= k < num.len() ==> '0' <= #[trigger] num[k] <= '9',
    ensures
        line_block(num + seq!['.', ' '] + rest) == Some(MdBlockView::Ordered(num, rest)),
{
    let t = num + seq!['.', ' '] + rest;
    let j = num.len() as int;
    assert(t[j] == '.' && t[j + 1] == ' ');
    assert forall|k: int| 0 <= k < j implies t[k] != '.' by {
        assert(t[k] == num[k]);
    }
    lemma_dot_space_at(t, 0, j);
    assert(t.take(j) =~= num);
    assert(t.skip(j + 2) =~= rest);
    assert('0' <= t[0] <= '9') by { assert(t[0] == num[0]); }
    assert(t != seq!['-', '-', '-'] && t != seq!['*', '*', '*'] && t != seq!['_', '_', '_']) by {
        if t.len() == 3 { assert(t[0] == num[0]); }
    }
    assert(!starts_with(t, seq!['>', ' ']) && !starts_with(t, seq!['#', '#', '#', ' ']) && !starts_with(t, seq!['#', '#', ' '])
        && !starts_with(t, seq!['#', ' ']) && !starts_with(t, seq!['-', ' ']) && !starts_with(t, seq!['*', ' '])) by {
        assert(t.take(2)[0] == t[0]);
        if t.len() >= 3 { assert(t.take(3)[0] == t[0]); }
        if t.len() >= 4 { assert(t.take(4)[0] == t[0]); }
    }
}


/// A fenced block keeps its lines as they are: an opening fence, a line
/// that is no fence, and a closing fence add one code block holding that
/// line (after any gathered table), and leave the scan outside code.
pub proof fn lemma_fenced_code(st: MdScan, open: Seq<char>, line: Seq<char>, close: Seq<char>)
    requires
        !st.in_code,
        st.code.len() == 0,
        is_fence(trimmed(open)),
        !is_fence(trimmed(line)),
        is_fence(trimmed(close)),
    ensures
        ({
            let r = md_step(md_step(md_step(st, open), line), close);
            &&& !r.in_code
            &&& r.blocks == st.blocks + table_flushed(st.table) + seq![MdBlockView::Code(seq![line])]
            &&& r.table.len() == 0
        }),
{
    assert(!is_table_row(trimmed(open))) by {
        let t = trimmed(open);
        assert(t.take(3)[0] == '`');
        assert(t.take(1)[0] == '`');
    }
    assert(line_block(trimmed(open)) is None) by {
        let t = trimmed(open);
        assert(t.take(3) == seq!['`', '`', '`']);
        assert(t[0] == '`' && t[1] == '`');
        assert(t.len() > 0);
        assert(t != seq!['-', '-', '-'] && t != seq!['*', '*', '*'] && t != seq!['_', '_', '_']) by {
            if t.len() == 3 { assert(t[0] == '`'); }
        }
        assert(!starts_with(t, seq!['>', ' ']) && !starts_with(t, seq!['#', '#', '#', ' ']) && !starts_with(t, seq!['#', '#', ' '])
            && !starts_with(t, seq!['#', ' ']) && !starts_with(t, seq!['-', ' ']) && !starts_with(t, seq!['*', ' '])) by {
            assert(t.take(2)[0] == '`');
            assert(t.take(3)[0] == '`');
            if t.len() >= 4 { assert(t.take(4)[0] == '`'); }
        }
    }
    let s1 = md_step(st, open);
    assert(s1.in_code && s1.code.len() == 0);
    let s2 = md_step(s1, line);
    assert(s2.code =~= seq![line]);
}

} // verus!
