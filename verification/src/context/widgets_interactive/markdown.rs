//! Inline markdown: links, images, bold, italic and code spans.
use vstd::prelude::*;
use crate::style::{with_mods, Style, ITALIC};
use crate::unicode::push_char;

verus! {

/// Scanning from `from` with `depth` brackets open, the index where the
/// count of `open` minus `close` characters falls back to zero.
pub open spec fn matching_close(cs: Seq<char>, from: int, depth: int, open: char, close: char) -> Option<int>
    decreases cs.len() - from,
{
    if from < 0 || from >= cs.len() {
        None
    } else if cs[from] == open {
        matching_close(cs, from + 1, depth + 1, open, close)
    } else if cs[from] == close {
        if depth - 1 == 0 { Some(from) } else { matching_close(cs, from + 1, depth - 1, open, close) }
    } else {
        matching_close(cs, from + 1, depth, open, close)
    }
}

/// `[text](url)` at `start`: the text, the url and how many characters the
/// whole construct takes. Brackets and parentheses may nest inside.
pub open spec fn bracket_paren(cs: Seq<char>, start: int) -> Option<(Seq<char>, Seq<char>, int)> {
    if start < 0 || start >= cs.len() || cs[start] != '[' {
        None
    } else {
        match matching_close(cs, start, 0, '[', ']') {
            None => None,
            Some(be) => if be + 1 >= cs.len() || cs[be + 1] != '(' {
                None
            } else {
                match matching_close(cs, be + 2, 1, '(', ')') {
                    None => None,
                    Some(pe) => Some((cs.subrange(start + 1, be), cs.subrange(be + 2, pe), pe - start + 1)),
                }
            },
        }
    }
}

proof fn lemma_matching_close_after(cs: Seq<char>, from: int, depth: int, open: char, close: char)
    ensures
        matching_close(cs, from, depth, open, close) matches Some(j) ==> from <= j < cs.len(),
    decreases cs.len() - from,
{
    if 0 <= from < cs.len() {
        lemma_matching_close_after(cs, from + 1, depth + 1, open, close);
        lemma_matching_close_after(cs, from + 1, depth - 1, open, close);
        lemma_matching_close_after(cs, from + 1, depth, open, close);
    }
}

/// A found `[text](url)` lies inside the text and takes at least four characters.
pub proof fn lemma_bracket_paren_fits(cs: Seq<char>, start: int)
    ensures
        bracket_paren(cs, start) matches Some((t, u, n)) ==> 4 <= n && start + n <= cs.len(),
{
    if 0 <= start < cs.len() && cs[start] == '[' {
        lemma_matching_close_after(cs, start, 0, '[', ']');
        lemma_close_not_at_open(cs, start, 0);
        if let Some(be) = matching_close(cs, start, 0, '[', ']') {
            lemma_matching_close_after(cs, be + 2, 1, '(', ')');
        }
    }
}

proof fn lemma_close_not_at_open(cs: Seq<char>, start: int, depth: int)
    requires
        0 <= start < cs.len(),
        cs[start] == '[',
    ensures
        matching_close(cs, start, depth, '[', ']') != Some(start),
{
    lemma_matching_close_after(cs, start + 1, depth + 1, '[', ']');
}

/// The characters `cs[from..to]` as a string.
fn string_of(cs: &Vec<char>, from: usize, to: usize) -> (r: String)
    requires
        from <= to <= cs@.len(),
    ensures
        r@ == cs@.subrange(from as int, to as int),
{
    let mut out = String::new();
    let mut k = from;
    while k < to
        invariant
            from <= k <= to <= cs@.len(),
            out@ == cs@.subrange(from as int, k as int),
        decreases to - k,
    {
        push_char(&mut out, cs[k]);
        proof {
            assert(cs@.subrange(from as int, k + 1) == cs@.subrange(from as int, k as int).push(cs@[k as int]));
        }
        k = k + 1;
    }
    out
}

/// Where the nesting opened before `from` (at `depth`) closes.
fn find_matching(cs: &Vec<char>, from: usize, depth: i128, open: char, close: char) -> (r: Option<usize>)
    requires
        -0x1_0000_0000_0000_0000 <= depth <= 1,
    ensures
        match matching_close(cs@, from as int, depth as int, open, close) {
            None => r is None,
            Some(j) => r == Some(j as usize),
        },
{
    let n = cs.len();
    let mut d: i128 = depth;
    let mut j = from;
    proof {
        lemma_matching_close_after(cs@, from as int, depth as int, open, close);
    }
    while j < n
        invariant
            n == cs@.len(),
            from <= j,
            -0x1_0000_0000_0000_0000 - j <= d <= 1 + j,
            matching_close(cs@, j as int, d as int, open, close) == matching_close(cs@, from as int, depth as int, open, close),
        decreases n - j,
    {
        let c = cs[j];
        if c == open {
            d = d + 1;
        } else if c == close {
            d = d - 1;
            if d == 0 {
                return Some(j);
            }
        }
        j = j + 1;
    }
    None
}

/// `[text](url)` at `start` of `cs` (see [`bracket_paren`]).
pub(crate) fn parse_md_bracket_paren(cs: &Vec<char>, start: usize) -> (r: Option<(String, String, usize)>)
    ensures
        match bracket_paren(cs@, start as int) {
            None => r is None,
            Some((t, u, n)) => r matches Some((rt, ru, rn)) && rt@ == t && ru@ == u && rn == n,
        },
{
    if start >= cs.len() || cs[start] != '[' {
        return None;
    }
    let be = match find_matching(cs, start, 0, '[', ']') {
        None => return None,
        Some(b) => b,
    };
    proof {
        lemma_matching_close_after(cs@, start as int, 0, '[', ']');
        lemma_close_not_at_open(cs@, start as int, 0);
    }
    if be + 1 >= cs.len() || cs[be + 1] != '(' {
        return None;
    }
    let pe = match find_matching(cs, be + 2, 1, '(', ')') {
        None => return None,
        Some(p) => p,
    };
    proof {
        lemma_matching_close_after(cs@, be + 2, 1, '(', ')');
    }
    let text = string_of(cs, start + 1, be);
    let url = string_of(cs, be + 2, pe);
    Some((text, url, pe - start + 1))
}


/// A piece of an inline markdown line.
pub enum MdInline {
    Text(String),
    Link { text: String, url: String },
    Image { alt: String },
}

/// A piece of an inline markdown line, as character sequences.
pub enum MdPiece {
    Text(Seq<char>),
    Link(Seq<char>, Seq<char>),
    Image(Seq<char>),
}

impl MdInline {
    pub open spec fn piece(&self) -> MdPiece {
        match self {
            MdInline::Text(t) => MdPiece::Text(t@),
            MdInline::Link { text, url } => MdPiece::Link(text@, url@),
            MdInline::Image { alt } => MdPiece::Image(alt@),
        }
    }
}

/// The pieces of a vector of inline items.
pub open spec fn pieces(v: Seq<MdInline>) -> Seq<MdPiece> {
    Seq::new(v.len(), |k: int| v[k].piece())
}

/// Plain text gathered so far, as a piece when there is any.
pub open spec fn flushed(cur: Seq<char>) -> Seq<MdPiece> {
    if cur.len() > 0 { seq![MdPiece::Text(cur)] } else { seq![] }
}

/// Whether an image `![alt](url)` starts at `i`.
pub open spec fn image_at(cs: Seq<char>, i: int) -> bool {
    0 <= i && i + 1 < cs.len() && cs[i] == '!' && cs[i + 1] == '[' && bracket_paren(cs, i + 1) is Some
}

/// Whether a link `[text](url)` starts at `i`.
pub open spec fn link_at(cs: Seq<char>, i: int) -> bool {
    0 <= i < cs.len() && cs[i] == '[' && bracket_paren(cs, i) is Some
}

/// The pieces of `cs` from `i` on, with plain text `cur` not yet emitted.
pub open spec fn links_from(cs: Seq<char>, i: int, cur: Seq<char>) -> Seq<MdPiece>
    decreases cs.len() - i,
{
    if i < 0 || i >= cs.len() {
        flushed(cur)
    } else if image_at(cs, i) {
        let (alt, _u, n) = bracket_paren(cs, i + 1)->Some_0;
        if n <= 0 || i + 1 + n > cs.len() { seq![] } else {
            flushed(cur) + seq![MdPiece::Image(alt)] + links_from(cs, i + 1 + n, seq![])
        }
    } else if link_at(cs, i) {
        let (t, u, n) = bracket_paren(cs, i)->Some_0;
        if n <= 0 || i + n > cs.len() { seq![] } else {
            flushed(cur) + seq![MdPiece::Link(t, u)] + links_from(cs, i + n, seq![])
        }
    } else {
        links_from(cs, i + 1, cur.push(cs[i]))
    }
}

/// A line split into text, links and images; never empty.
pub open spec fn md_links(cs: Seq<char>) -> Seq<MdPiece> {
    let r = links_from(cs, 0, seq![]);
    if r.len() == 0 { seq![MdPiece::Text(seq![])] } else { r }
}

/// Split a markdown line into text, links and images (see [`md_links`]).
pub(crate) fn split_md_links(cs: &Vec<char>) -> (r: Vec<MdInline>)
    ensures
        pieces(r@) == md_links(cs@),
{
    let n = cs.len();
    let mut items: Vec<MdInline> = Vec::new();
    let mut cur = String::new();
    let mut i: usize = 0;
    while i < n
        invariant
            n == cs@.len(),
            i <= n,
            pieces(items@) + links_from(cs@, i as int, cur@) == links_from(cs@, 0, seq![]),
        decreases n - i,
    {
        let ghost before = items@;
        let ghost c0 = cur@;
        if cs[i] == '!' && i + 1 < n && cs[i + 1] == '[' {
            match parse_md_bracket_paren(cs, i + 1) {
                Some((alt, _url, consumed)) => {
                    proof {
                        lemma_bracket_paren_fits(cs@, i + 1);
                        assert(image_at(cs@, i as int));
                    }
                    if cur.as_str().unicode_len() > 0 {
                        items.push(MdInline::Text(cur));
                        cur = String::new();
                    }
                    items.push(MdInline::Image { alt });
                    proof {
                        assert(pieces(items@) =~= pieces(before) + flushed(c0) + seq![MdPiece::Image(alt@)]);
                        assert(cur@ =~= seq![]);
                        assert(links_from(cs@, i as int, c0) == flushed(c0) + seq![MdPiece::Image(alt@)]
                            + links_from(cs@, i + 1 + consumed, seq![]));
                    }
                    i = i + 1 + consumed;
                    continue;
                },
                None => {},
            }
        }
        if cs[i] == '[' {
            match parse_md_bracket_paren(cs, i) {
                Some((text, url, consumed)) => {
                    proof {
                        lemma_bracket_paren_fits(cs@, i as int);
                        assert(!image_at(cs@, i as int));
                        assert(link_at(cs@, i as int));
                    }
                    if cur.as_str().unicode_len() > 0 {
                        items.push(MdInline::Text(cur));
                        cur = String::new();
                    }
                    items.push(MdInline::Link { text, url });
                    proof {
                        assert(pieces(items@) =~= pieces(before) + flushed(c0) + seq![MdPiece::Link(text@, url@)]);
                        assert(cur@ =~= seq![]);
                        assert(links_from(cs@, i as int, c0) == flushed(c0) + seq![MdPiece::Link(text@, url@)]
                            + links_from(cs@, i + consumed, seq![]));
                    }
                    i = i + consumed;
                    continue;
                },
                None => {},
            }
        }
        proof {
            assert(!image_at(cs@, i as int));
            assert(!link_at(cs@, i as int));
        }
        push_char(&mut cur, cs[i]);
        i = i + 1;
    }
    let ghost before = items@;
    if cur.as_str().unicode_len() > 0 {
        items.push(MdInline::Text(cur));
    }
    proof {
        assert(pieces(items@) =~= pieces(before) + links_from(cs@, i as int, cur@));
    }
    if items.len() == 0 {
        items.push(MdInline::Text(String::new()));
        proof {
            assert(pieces(items@) =~= seq![MdPiece::Text(seq![])]);
        }
    }
    items
}


/// The first index from `from` on that holds `c`.
pub open spec fn find_char(cs: Seq<char>, from: int, c: char) -> Option<int>
    decreases cs.len() - from,
{
    if from < 0 || from >= cs.len() {
        None
    } else if cs[from] == c {
        Some(from)
    } else {
        find_char(cs, from + 1, c)
    }
}

/// The first index from `from` on where `c` stands twice in a row.
pub open spec fn find_double(cs: Seq<char>, from: int, c: char) -> Option<int>
    decreases cs.len() - from,
{
    if from < 0 || from + 1 >= cs.len() {
        None
    } else if cs[from] == c && cs[from + 1] == c {
        Some(from)
    } else {
        find_double(cs, from + 1, c)
    }
}

/// Where the `**` closing a bold span opened at `i` starts.
pub open spec fn bold_at(cs: Seq<char>, i: int) -> Option<int> {
    if 0 <= i && i + 1 < cs.len() && cs[i] == '*' && cs[i + 1] == '*' { find_double(cs, i + 2, '*') } else { None }
}

/// Where the `*` closing an italic span opened at `i` stands; a `*` next to
/// another `*` opens none.
pub open spec fn italic_at(cs: Seq<char>, i: int) -> Option<int> {
    if 0 <= i < cs.len() && cs[i] == '*' && (i + 1 >= cs.len() || cs[i + 1] != '*') && (i == 0 || cs[i - 1] != '*') {
        find_char(cs, i + 1, '*')
    } else {
        None
    }
}

/// Where the backtick closing a code span opened at `i` stands.
pub open spec fn code_at(cs: Seq<char>, i: int) -> Option<int> {
    if 0 <= i < cs.len() && cs[i] == '`' { find_char(cs, i + 1, '`') } else { None }
}

proof fn lemma_find_char_after(cs: Seq<char>, from: int, c: char)
    ensures
        find_char(cs, from, c) matches Some(j) ==> from <= j < cs.len() && cs[j] == c,
    decreases cs.len() - from,
{
    if 0 <= from < cs.len() {
        lemma_find_char_after(cs, from + 1, c);
    }
}

proof fn lemma_find_double_after(cs: Seq<char>, from: int, c: char)
    ensures
        find_double(cs, from, c) matches Some(j) ==> from <= j && j + 1 < cs.len(),
    decreases cs.len() - from,
{
    if 0 <= from && from + 1 < cs.len() {
        lemma_find_double_after(cs, from + 1, c);
    }
}

/// Spans found by the markers lie inside the text.
proof fn lemma_spans_fit(cs: Seq<char>, i: int)
    ensures
        bold_at(cs, i) matches Some(c) ==> i + 2 <= c && c + 2 <= cs.len(),
        italic_at(cs, i) matches Some(c) ==> i + 1 <= c && c + 1 <= cs.len(),
        code_at(cs, i) matches Some(c) ==> i + 1 <= c && c + 1 <= cs.len(),
{
    lemma_find_double_after(cs, i + 2, '*');
    lemma_find_char_after(cs, i + 1, '*');
    lemma_find_char_after(cs, i + 1, '`');
}

fn find_char_exec(cs: &Vec<char>, from: usize, c: char) -> (r: Option<usize>)
    ensures
        match find_char(cs@, from as int, c) {
            None => r is None,
            Some(j) => r == Some(j as usize),
        },
{
    let n = cs.len();
    let mut j = from;
    while j < n
        invariant
            n == cs@.len(),
            from <= j,
            find_char(cs@, j as int, c) == find_char(cs@, from as int, c),
        decreases n - j,
    {
        if cs[j] == c {
            return Some(j);
        }
        j = j + 1;
    }
    None
}

fn find_double_exec(cs: &Vec<char>, from: usize, c: char) -> (r: Option<usize>)
    ensures
        match find_double(cs@, from as int, c) {
            None => r is None,
            Some(j) => r == Some(j as usize),
        },
{
    let n = cs.len();
    let mut j = from;
    while j < n && j + 1 < n
        invariant
            n == cs@.len(),
            from <= j,
            find_double(cs@, j as int, c) == find_double(cs@, from as int, c),
        decreases n - j,
    {
        if cs[j] == c && cs[j + 1] == c {
            return Some(j);
        }
        j = j + 1;
    }
    None
}

fn bold_at_exec(cs: &Vec<char>, i: usize) -> (r: Option<usize>)
    requires
        i < cs@.len(),
    ensures
        match bold_at(cs@, i as int) {
            None => r is None,
            Some(j) => r == Some(j as usize),
        },
{
    let n = cs.len();
    if i + 1 < n && cs[i] == '*' && cs[i + 1] == '*' { find_double_exec(cs, i + 2, '*') } else { None }
}

fn italic_at_exec(cs: &Vec<char>, i: usize) -> (r: Option<usize>)
    requires
        i < cs@.len(),
    ensures
        match italic_at(cs@, i as int) {
            None => r is None,
            Some(j) => r == Some(j as usize),
        },
{
    let n = cs.len();
    if cs[i] == '*' && (i + 1 >= n || cs[i + 1] != '*') && (i == 0 || cs[i - 1] != '*') {
        find_char_exec(cs, i + 1, '*')
    } else {
        None
    }
}

fn code_at_exec(cs: &Vec<char>, i: usize) -> (r: Option<usize>)
    requires
        i < cs@.len(),
    ensures
        match code_at(cs@, i as int) {
            None => r is None,
            Some(j) => r == Some(j as usize),
        },
{
    let n = cs.len();
    if cs[i] == '`' { find_char_exec(cs, i + 1, '`') } else { None }
}

/// Plain text gathered so far, as a segment in `base` when there is any.
pub open spec fn seg_flushed(cur: Seq<char>, base: Style) -> Seq<(Seq<char>, Style)> {
    if cur.len() > 0 { seq![(cur, base)] } else { seq![] }
}

/// The styled segments of `cs` from `i` on: `**bold**` in `bold`, `*italic*`
/// in `base` made italic, `` `code` `` in `code`, the rest in `base`. A
/// marker without its closing partner is plain text.
pub open spec fn segments_from(cs: Seq<char>, i: int, cur: Seq<char>, base: Style, bold: Style, code: Style)
    -> Seq<(Seq<char>, Style)>
    decreases cs.len() - i,
{
    if i < 0 || i >= cs.len() {
        seg_flushed(cur, base)
    } else if let Some(c) = bold_at(cs, i) {
        if c < i || c + 2 > cs.len() { seq![] } else {
            seg_flushed(cur, base) + seq![(cs.subrange(i + 2, c), bold)] + segments_from(cs, c + 2, seq![], base, bold, code)
        }
    } else if let Some(c) = italic_at(cs, i) {
        if c < i || c + 1 > cs.len() { seq![] } else {
            seg_flushed(cur, base) + seq![(cs.subrange(i + 1, c), with_mods(base, ITALIC))]
                + segments_from(cs, c + 1, seq![], base, bold, code)
        }
    } else if let Some(c) = code_at(cs, i) {
        if c < i || c + 1 > cs.len() { seq![] } else {
            seg_flushed(cur, base) + seq![(cs.subrange(i + 1, c), code)] + segments_from(cs, c + 1, seq![], base, bold, code)
        }
    } else {
        segments_from(cs, i + 1, cur.push(cs[i]), base, bold, code)
    }
}

/// The segments of a vector of styled strings.
pub open spec fn seg_views(v: Seq<(String, Style)>) -> Seq<(Seq<char>, Style)> {
    Seq::new(v.len(), |k: int| (v[k].0@, v[k].1))
}

/// Split inline-formatted text into styled segments (see [`segments_from`]).
pub fn parse_inline_segments(cs: &Vec<char>, base: Style, bold: Style, code: Style) -> (r: Vec<(String, Style)>)
    ensures
        seg_views(r@) == segments_from(cs@, 0, seq![], base, bold, code),
{
    let n = cs.len();
    let mut segs: Vec<(String, Style)> = Vec::new();
    let mut cur = String::new();
    let mut i: usize = 0;
    let ghost total = segments_from(cs@, 0, seq![], base, bold, code);
    while i < n
        invariant
            n == cs@.len(),
            i <= n,
            seg_views(segs@) + segments_from(cs@, i as int, cur@, base, bold, code) == total,
        decreases n - i,
    {
        let ghost before = segs@;
        let ghost c0 = cur@;
        proof {
            lemma_spans_fit(cs@, i as int);
        }
        let found = match bold_at_exec(cs, i) {
            Some(c) => Some((i + 2, c, c + 2, bold)),
            None => match italic_at_exec(cs, i) {
                Some(c) => Some((i + 1, c, c + 1, with_italic(base))),
                None => match code_at_exec(cs, i) {
                    Some(c) => Some((i + 1, c, c + 1, code)),
                    None => None,
                },
            },
        };
        match found {
            Some((from, to, next, style)) => {
                if cur.as_str().unicode_len() > 0 {
                    segs.push((cur, base));
                    cur = String::new();
                }
                let inner = string_of(cs, from, to);
                segs.push((inner, style));
                proof {
                    assert(cur@ =~= seq![]);
                    assert(seg_views(segs@) =~= seg_views(before) + seg_flushed(c0, base) + seq![(cs@.subrange(from as int, to as int), style)]);
                    assert(segments_from(cs@, i as int, c0, base, bold, code) == seg_flushed(c0, base)
                        + seq![(cs@.subrange(from as int, to as int), style)] + segments_from(cs@, next as int, seq![], base, bold, code));
                }
                i = next;
            },
            None => {
                push_char(&mut cur, cs[i]);
                i = i + 1;
            },
        }
    }
    let ghost before = segs@;
    if cur.as_str().unicode_len() > 0 {
        segs.push((cur, base));
    }
    proof {
        assert(seg_views(segs@) =~= seg_views(before) + segments_from(cs@, i as int, cur@, base, bold, code));
    }
    segs
}

/// `s` made italic.
fn with_italic(s: Style) -> (r: Style)
    ensures
        r == with_mods(s, ITALIC),
{
    s.add_modifier(ITALIC)
}


/// The display text of `cs` from `i` on with inline formatting removed:
/// links and images keep their text, spans keep what is between markers.
pub open spec fn strip_from(cs: Seq<char>, i: int) -> Seq<char>
    decreases cs.len() - i,
{
    if i < 0 || i >= cs.len() {
        seq![]
    } else if image_at(cs, i) {
        let (alt, _u, n) = bracket_paren(cs, i + 1)->Some_0;
        if n <= 0 || i + 1 + n > cs.len() { seq![] } else { alt + strip_from(cs, i + 1 + n) }
    } else if link_at(cs, i) {
        let (t, _u, n) = bracket_paren(cs, i)->Some_0;
        if n <= 0 || i + n > cs.len() { seq![] } else { t + strip_from(cs, i + n) }
    } else if let Some(c) = bold_at(cs, i) {
        if c < i || c + 2 > cs.len() { seq![] } else { cs.subrange(i + 2, c) + strip_from(cs, c + 2) }
    } else if let Some(c) = italic_at(cs, i) {
        if c < i || c + 1 > cs.len() { seq![] } else { cs.subrange(i + 1, c) + strip_from(cs, c + 1) }
    } else if let Some(c) = code_at(cs, i) {
        if c < i || c + 1 > cs.len() { seq![] } else { cs.subrange(i + 1, c) + strip_from(cs, c + 1) }
    } else {
        seq![cs[i]] + strip_from(cs, i + 1)
    }
}

/// Append the characters `cs[from..to]` to `out`.
fn push_range(out: &mut String, cs: &Vec<char>, from: usize, to: usize)
    requires
        from <= to <= cs@.len(),
    ensures
        final(out)@ == old(out)@ + cs@.subrange(from as int, to as int),
{
    let mut k = from;
    while k < to
        invariant
            from <= k <= to <= cs@.len(),
            out@ == old(out)@ + cs@.subrange(from as int, k as int),
        decreases to - k,
    {
        push_char(out, cs[k]);
        proof {
            assert(cs@.subrange(from as int, k + 1) == cs@.subrange(from as int, k as int).push(cs@[k as int]));
        }
        k = k + 1;
    }
}

/// Inline formatting stripped from `cs`, leaving the display text (see
/// [`strip_from`]).
pub fn md_strip(cs: &Vec<char>) -> (r: String)
    ensures
        r@ == strip_from(cs@, 0),
{
    let n = cs.len();
    let mut out = String::new();
    let mut i: usize = 0;
    while i < n
        invariant
            n == cs@.len(),
            i <= n,
            out@ + strip_from(cs@, i as int) == strip_from(cs@, 0),
        decreases n - i,
    {
        let ghost o0 = out@;
        proof {
            lemma_spans_fit(cs@, i as int);
        }
        if cs[i] == '!' && i + 1 < n && cs[i + 1] == '[' {
            match parse_md_bracket_paren(cs, i + 1) {
                Some((alt, _url, consumed)) => {
                    proof {
                        lemma_bracket_paren_fits(cs@, i + 1);
                        assert(image_at(cs@, i as int));
                    }
                    out.append(alt.as_str());
                    proof {
                        assert(out@ + strip_from(cs@, i + 1 + consumed) =~= o0 + strip_from(cs@, i as int));
                    }
                    i = i + 1 + consumed;
                    continue;
                },
                None => {},
            }
        }
        if cs[i] == '[' {
            match parse_md_bracket_paren(cs, i) {
                Some((text, _url, consumed)) => {
                    proof {
                        lemma_bracket_paren_fits(cs@, i as int);
                        assert(!image_at(cs@, i as int));
                        assert(link_at(cs@, i as int));
                    }
                    out.append(text.as_str());
                    proof {
                        assert(out@ + strip_from(cs@, i + consumed) =~= o0 + strip_from(cs@, i as int));
                    }
                    i = i + consumed;
                    continue;
                },
                None => {},
            }
        }
        proof {
            assert(!image_at(cs@, i as int));
            assert(!link_at(cs@, i as int));
        }
        let found = match bold_at_exec(cs, i) {
            Some(c) => Some((i + 2, c, c + 2)),
            None => match italic_at_exec(cs, i) {
                Some(c) => Some((i + 1, c, c + 1)),
                None => match code_at_exec(cs, i) {
                    Some(c) => Some((i + 1, c, c + 1)),
                    None => None,
                },
            },
        };
        match found {
            Some((from, to, next)) => {
                push_range(&mut out, cs, from, to);
                proof {
                    assert(strip_from(cs@, i as int) == cs@.subrange(from as int, to as int) + strip_from(cs@, next as int));
                    assert(out@ + strip_from(cs@, next as int) =~= o0 + strip_from(cs@, i as int));
                }
                i = next;
            },
            None => {
                push_char(&mut out, cs[i]);
                proof {
                    assert(out@ + strip_from(cs@, i + 1) =~= o0 + strip_from(cs@, i as int));
                }
                i = i + 1;
            },
        }
    }
    proof {
        assert(out@ =~= out@ + strip_from(cs@, i as int));
    }
    out
}


/// The text of a run of styled segments, joined.
pub open spec fn seg_text(s: Seq<(Seq<char>, Style)>) -> Seq<char>
    decreases s.len(),
{
    if s.len() == 0 { seq![] } else { seg_text(s.drop_last()) + s.last().0 }
}

proof fn lemma_seg_text_concat(a: Seq<(Seq<char>, Style)>, b: Seq<(Seq<char>, Style)>)
    ensures
        seg_text(a + b) == seg_text(a) + seg_text(b),
    decreases b.len(),
{
    if b.len() == 0 {
        assert(a + b =~= a);
        assert(seg_text(a) + seg_text(b) =~= seg_text(a));
    } else {
        lemma_seg_text_concat(a, b.drop_last());
        assert((a + b).drop_last() =~= a + b.drop_last());
        assert(seg_text(a) + seg_text(b) =~= seg_text(a) + seg_text(b.drop_last()) + b.last().0);
    }
}

proof fn lemma_seg_text_one(x: (Seq<char>, Style))
    ensures
        seg_text(seq![x]) == x.0,
{
    let one = seq![x];
    assert(one.len() == 1);
    assert(one.last() == x);
    assert(one.drop_last() =~= Seq::<(Seq<char>, Style)>::empty());
    assert(seg_text(one.drop_last()) == Seq::<char>::empty());
    assert(Seq::<char>::empty() + x.0 =~= x.0);
}

/// Without brackets, the segments the inline renderer draws spell exactly
/// the stripped display text, so widths measured on the stripped text fit
/// what is drawn.
pub proof fn lemma_segments_spell_stripped(cs: Seq<char>, i: int, cur: Seq<char>, base: Style, bold: Style, code: Style)
    requires
        0 <= i <= cs.len(),
        forall|k: int| 0 <= k < cs.len() ==> cs[k] != '[',
    ensures
        seg_text(segments_from(cs, i, cur, base, bold, code)) == cur + strip_from(cs, i),
    decreases cs.len() - i,
{
    lemma_spans_fit(cs, i);
    let fl = seg_flushed(cur, base);
    assert(seg_text(fl) == cur) by {
        if cur.len() > 0 {
            lemma_seg_text_one((cur, base));
        } else {
            assert(cur =~= seq![]);
        }
    }
    if i >= cs.len() {
        assert(cur + strip_from(cs, i) =~= cur);
    } else {
        assert(!link_at(cs, i));
        assert(!image_at(cs, i)) by {
            if i + 1 < cs.len() {
                assert(cs[i + 1] != '[');
            }
        }
        if let Some(c) = bold_at(cs, i) {
            let x = (cs.subrange(i + 2, c), bold);
            let rest = segments_from(cs, c + 2, seq![], base, bold, code);
            lemma_segments_spell_stripped(cs, c + 2, seq![], base, bold, code);
            lemma_seg_text_concat(fl + seq![x], rest);
            lemma_seg_text_concat(fl, seq![x]);
            lemma_seg_text_one(x);
            assert(seq![] + strip_from(cs, c + 2) =~= strip_from(cs, c + 2));
            assert(cur + x.0 + strip_from(cs, c + 2) =~= cur + (x.0 + strip_from(cs, c + 2)));
        } else if let Some(c) = italic_at(cs, i) {
            let x = (cs.subrange(i + 1, c), with_mods(base, ITALIC));
            let rest = segments_from(cs, c + 1, seq![], base, bold, code);
            lemma_segments_spell_stripped(cs, c + 1, seq![], base, bold, code);
            lemma_seg_text_concat(fl + seq![x], rest);
            lemma_seg_text_concat(fl, seq![x]);
            lemma_seg_text_one(x);
            assert(seq![] + strip_from(cs, c + 1) =~= strip_from(cs, c + 1));
            assert(cur + x.0 + strip_from(cs, c + 1) =~= cur + (x.0 + strip_from(cs, c + 1)));
        } else if let Some(c) = code_at(cs, i) {
            let x = (cs.subrange(i + 1, c), code);
            let rest = segments_from(cs, c + 1, seq![], base, bold, code);
            lemma_segments_spell_stripped(cs, c + 1, seq![], base, bold, code);
            lemma_seg_text_concat(fl + seq![x], rest);
            lemma_seg_text_concat(fl, seq![x]);
            lemma_seg_text_one(x);
            assert(seq![] + strip_from(cs, c + 1) =~= strip_from(cs, c + 1));
            assert(cur + x.0 + strip_from(cs, c + 1) =~= cur + (x.0 + strip_from(cs, c + 1)));
        } else {
            lemma_segments_spell_stripped(cs, i + 1, cur.push(cs[i]), base, bold, code);
            assert(cur.push(cs[i]) + strip_from(cs, i + 1) =~= cur + (seq![cs[i]] + strip_from(cs, i + 1)));
        }
    }
}

/// Text without any marker character is its own display text.
pub proof fn lemma_plain_text_strips_to_itself(cs: Seq<char>, i: int)
    requires
        0 <= i <= cs.len(),
        forall|k: int| 0 <= k < cs.len() ==> cs[k] != '[' && cs[k] != '*' && cs[k] != '`',
    ensures
        strip_from(cs, i) == cs.subrange(i, cs.len() as int),
    decreases cs.len() - i,
{
    if i < cs.len() {
        lemma_plain_text_strips_to_itself(cs, i + 1);
        assert(!image_at(cs, i)) by {
            if i + 1 < cs.len() {
                assert(cs[i + 1] != '[');
            }
        }
        assert(seq![cs[i]] + cs.subrange(i + 1, cs.len() as int) =~= cs.subrange(i, cs.len() as int));
    } else {
        assert(cs.subrange(i, cs.len() as int) =~= seq![]);
    }
}


proof fn lemma_find_char_at(cs: Seq<char>, from: int, end: int, c: char)
    requires
        0 <= from <= end < cs.len(),
        cs[end] == c,
        forall|k: int| from <= k < end ==> cs[k] != c,
    ensures
        find_char(cs, from, c) == Some(end),
    decreases end - from,
{
    if from < end {
        lemma_find_char_at(cs, from + 1, end, c);
    }
}

proof fn lemma_find_double_at(cs: Seq<char>, from: int, end: int, c: char)
    requires
        0 <= from <= end,
        end + 1 < cs.len(),
        cs[end] == c && cs[end + 1] == c,
        forall|k: int| from <= k < end ==> cs[k] != c,
    ensures
        find_double(cs, from, c) == Some(end),
    decreases end - from,
{
    if from < end {
        lemma_find_double_at(cs, from + 1, end, c);
    }
}

/// Inline markers style what they enclose: `**x**` is one bold run of `x`,
/// `*x*` one italic run and `` `x` `` one code run, for any non-empty `x`
/// holding no marker character.
pub proof fn lemma_inline_markers(x: Seq<char>, base: Style, bold: Style, code: Style)
    requires
        x.len() > 0,
        forall|k: int| 0 <= k < x.len() ==> x[k] != '*' && x[k] != '`',
    ensures
        segments_from(seq!['*', '*'] + x + seq!['*', '*'], 0, seq![], base, bold, code) == seq![(x, bold)],
        segments_from(seq!['*'] + x + seq!['*'], 0, seq![], base, bold, code) == seq![(x, with_mods(base, ITALIC))],
        segments_from(seq!['`'] + x + seq!['`'], 0, seq![], base, bold, code) == seq![(x, code)],
{
    let n = x.len() as int;
    let b = seq!['*', '*'] + x + seq!['*', '*'];
    lemma_find_double_at(b, 2, n + 2, '*');
    assert(b.subrange(2, n + 2) =~= x);
    assert(segments_from(b, n + 4, seq![], base, bold, code) == Seq::<(Seq<char>, Style)>::empty());
    assert(segments_from(b, 0, seq![], base, bold, code) =~= seq![(x, bold)]);
    let it = seq!['*'] + x + seq!['*'];
    lemma_find_char_at(it, 1, n + 1, '*');
    assert(it.subrange(1, n + 1) =~= x);
    assert(bold_at(it, 0) is None) by {
        assert(it[1] == x[0]);
    }
    assert(segments_from(it, n + 2, seq![], base, bold, code) == Seq::<(Seq<char>, Style)>::empty());
    assert(segments_from(it, 0, seq![], base, bold, code) =~= seq![(x, with_mods(base, ITALIC))]);
    let cd = seq!['`'] + x + seq!['`'];
    lemma_find_char_at(cd, 1, n + 1, '`');
    assert(cd.subrange(1, n + 1) =~= x);
    assert(bold_at(cd, 0) is None && italic_at(cd, 0) is None);
    assert(segments_from(cd, n + 2, seq![], base, bold, code) == Seq::<(Seq<char>, Style)>::empty());
    assert(segments_from(cd, 0, seq![], base, bold, code) =~= seq![(x, code)]);
}

} // verus!
