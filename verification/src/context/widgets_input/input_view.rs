//! What a text input shows: the visible window of its value, scrolled so
//! the cursor stays in view, with the cursor glyph where the cursor is.
use vstd::prelude::*;
use crate::context::widgets_display::text::{cluster_start, sat_add_usize};
use crate::context::widgets_input::input_state::{cluster_count, grapheme_count};
use crate::unicode::{grapheme_clusters, graphemes, push_char, str_width, text_width};

verus! {

/// The display unit for cluster `c`: itself, or a bullet when masked.
pub open spec fn unit_of(c: Seq<char>, masked: bool) -> Seq<char> {
    if masked { seq!['•'] } else { c }
}

/// Cells a display unit takes: its width, at least one.
pub open spec fn unit_cells(u: Seq<char>) -> nat {
    let w = text_width(u);
    if w == 0 { 1 } else { w }
}

/// Cells taken by the first `k` units (capped at `usize::MAX`).
pub open spec fn cells_before(units: Seq<Seq<char>>, k: int) -> nat
    decreases k,
{
    if k <= 0 {
        0
    } else {
        sat_add_usize(cells_before(units, k - 1), unit_cells(units[k - 1]))
    }
}

/// Display units of a value.
pub open spec fn units_of(value: Seq<char>, masked: bool) -> Seq<Seq<char>> {
    let cl = grapheme_clusters(value);
    Seq::new(cl.len(), |i: int| unit_of(cl[i], masked))
}

/// Horizontal scroll that keeps the cursor's cell inside `vw` columns.
pub open spec fn scroll_for(units: Seq<Seq<char>>, cursor: int, vw: nat) -> nat {
    let pos = cells_before(units, if cursor < units.len() { cursor } else { units.len() as int });
    if pos >= vw { sat_add_usize((pos - vw) as nat, 1) } else { 0 }
}

/// `n` spaces.
pub open spec fn spaces(n: nat) -> Seq<char> {
    Seq::new(n, |i: int| ' ')
}

/// The view while the units are laid out left to right: the text so far,
/// where the cursor glyph went (in clusters), cells passed, and whether the
/// window is full.
pub type ViewState = (Seq<char>, Option<nat>, nat, bool);

/// Lay out unit `idx` (of `cw` cells).
pub open spec fn view_step(v: ViewState, idx: int, unit: Seq<char>, cw: nat, cursor: int, focused: bool, scroll: nat, vw: nat) -> ViewState {
    let (text, co, cur, done) = v;
    if done {
        v
    } else if cur + cw <= scroll {
        (text, co, sat_add_usize(cur, cw), false)
    } else if (if cur >= scroll { cur - scroll } else { 0 }) >= vw {
        (text, co, cur, true)
    } else if cur < scroll {
        let pad = (cur + cw - scroll) as nat;
        (text + spaces(if pad < vw { pad } else { vw }), co, sat_add_usize(cur, cw), false)
    } else {
        let at_cursor = focused && idx == cursor;
        let text1 = if at_cursor { text.push('▎') } else { text };
        let co1 = if at_cursor { Some(cluster_count(text)) } else { co };
        let cells = if co1 is Some { 1nat } else { 0nat };
        if cur - scroll + cw + cells > vw {
            (text1, co1, cur, true)
        } else {
            (text1 + unit, co1, sat_add_usize(cur, cw), false)
        }
    }
}

/// The view after laying out the first `k` units.
pub open spec fn view_prefix(units: Seq<Seq<char>>, k: nat, cursor: int, focused: bool, scroll: nat, vw: nat) -> ViewState
    decreases k,
{
    if k == 0 {
        (Seq::empty(), None, 0, false)
    } else {
        view_step(view_prefix(units, (k - 1) as nat, cursor, focused, scroll, vw), k - 1, units[k - 1],
            unit_cells(units[k - 1]), cursor, focused, scroll, vw)
    }
}

/// What the input line shows for `value` and where the cursor glyph is.
pub open spec fn input_view(value: Seq<char>, placeholder: Seq<char>, cursor: int, masked: bool, focused: bool, vw: nat) -> (Seq<char>, Option<nat>) {
    if value.len() == 0 {
        if focused { (seq!['▎'] + placeholder, Some(0)) } else { (placeholder, None) }
    } else {
        let units = units_of(value, masked);
        let scroll = scroll_for(units, cursor, vw);
        let v = view_prefix(units, units.len(), cursor, focused, scroll, vw);
        if focused && vw > 0 && cursor >= units.len() {
            (v.0.push('▎'), Some(cluster_count(v.0)))
        } else {
            (v.0, v.1)
        }
    }
}

fn view_step_exec(text: String, co: Option<usize>, cur: usize, done: bool, idx: usize, unit: &str, cw: usize,
    cursor: usize, focused: bool, scroll: usize, vw: usize) -> (r: (String, Option<usize>, usize, bool))
    requires
        cw > 0,
    ensures
        ({
            let v = view_step((text@, match co { Some(x) => Some(x as nat), None => None }, cur as nat, done),
                idx as int, unit@, cw as nat, cursor as int, focused, scroll as nat, vw as nat);
            &&& r.0@ == v.0
            &&& (r.2 as nat) == v.2
            &&& r.3 == v.3
            &&& (r.1 matches Some(x) ==> v.1 == Some(x as nat))
            &&& (r.1 is None ==> v.1 is None)
        }),
{
    let mut text = text;
    let mut co = co;
    if done {
        return (text, co, cur, done);
    }
    if (cur as u128) + (cw as u128) <= scroll as u128 {
        return (text, co, cur + cw, false);
    }
    let offset = if cur >= scroll { cur - scroll } else { 0 };
    if offset >= vw {
        return (text, co, cur, true);
    }
    if cur < scroll {
        let pad = cw - (scroll - cur);
        let count = if pad < vw { pad } else { vw };
        let mut i: usize = 0;
        let ghost base = text@;
        while i < count
            invariant
                i <= count,
                text@ == base + spaces(i as nat),
            decreases count - i,
        {
            push_char(&mut text, ' ');
            proof {
                assert(base + spaces((i + 1) as nat) =~= (base + spaces(i as nat)).push(' '));
            }
            i = i + 1;
        }
        return (text, co, cur.saturating_add(cw), false);
    }
    if focused && idx == cursor {
        let c = grapheme_count(text.as_str());
        co = Some(c);
        push_char(&mut text, '▎');
    }
    let cells: usize = if co.is_some() { 1 } else { 0 };
    if (cur - scroll) as u128 + cw as u128 + cells as u128 > vw as u128 {
        (text, co, cur, true)
    } else {
        text.append(unit);
        (text, co, cur.saturating_add(cw), false)
    }
}

/// Compute [`input_view`].
pub fn render_input(value: &str, placeholder: &str, cursor: usize, masked: bool, focused: bool, vw: usize) -> (r: (String, Option<usize>))
    ensures
        r.0@ == input_view(value@, placeholder@, cursor as int, masked, focused, vw as nat).0,
        r.1 matches Some(x) ==> input_view(value@, placeholder@, cursor as int, masked, focused, vw as nat).1 == Some(x as nat),
        r.1 is None ==> input_view(value@, placeholder@, cursor as int, masked, focused, vw as nat).1 is None,
{
    if value.unicode_len() == 0 {
        if focused {
            let mut ph = String::new();
            push_char(&mut ph, '▎');
            ph.append(placeholder);
            assert(ph@ =~= seq!['▎'] + placeholder@);
            return (ph, Some(0));
        } else {
            return (placeholder.to_owned(), None);
        }
    }
    let parts = graphemes(value);
    let ghost cl = grapheme_clusters(value@);
    let ghost units = units_of(value@, masked);
    let n = parts.len();
    proof {
        reveal_strlit("•");
    }
    // Cells before the cursor.
    let stop = if cursor < n { cursor } else { n };
    let mut pos: usize = 0;
    let mut j: usize = 0;
    while j < stop
        invariant
            n == parts@.len(),
            n == cl.len(),
            units == units_of(value@, masked),
            cl == grapheme_clusters(value@),
            forall|k: int| 0 <= k < n ==> (#[trigger] parts@[k])@ == cl[k],
            stop <= n,
            j <= stop,
            pos == cells_before(units, j as int),
            "•"@ == seq!['•'],
        decreases stop - j,
    {
        let w = if masked { str_width("•") } else { str_width(parts[j].as_str()) };
        let cw = if w == 0 { 1 } else { w };
        proof {
            assert(units[j as int] == unit_of(cl[j as int], masked));
        }
        pos = pos.saturating_add(cw);
        j = j + 1;
    }
    let scroll: usize = if pos >= vw { (pos - vw).saturating_add(1) } else { 0 };
    let mut text = String::new();
    let mut co: Option<usize> = None;
    let mut cur: usize = 0;
    let mut done = false;
    let mut k: usize = 0;
    while k < n
        invariant
            n == parts@.len(),
            n == cl.len(),
            units == units_of(value@, masked),
            cl == grapheme_clusters(value@),
            forall|i: int| 0 <= i < n ==> (#[trigger] parts@[i])@ == cl[i],
            k <= n,
            scroll == scroll_for(units, cursor as int, vw as nat),
            "•"@ == seq!['•'],
            ({
                let v = view_prefix(units, k as nat, cursor as int, focused, scroll as nat, vw as nat);
                &&& text@ == v.0
                &&& (co matches Some(x) ==> v.1 == Some(x as nat))
                &&& (co is None ==> v.1 is None)
                &&& cur == v.2
                &&& done == v.3
            }),
        decreases n - k,
    {
        let unit: &str = if masked { "•" } else { parts[k].as_str() };
        let w = str_width(unit);
        let cw = if w == 0 { 1 } else { w };
        proof {
            assert(units[k as int] == unit_of(cl[k as int], masked));
            assert(unit@ == units[k as int]);
        }
        let (t2, co2, cur2, done2) = view_step_exec(text, co, cur, done, k, unit, cw, cursor, focused, scroll, vw);
        text = t2;
        co = co2;
        cur = cur2;
        done = done2;
        k = k + 1;
    }
    if focused && vw > 0 && cursor >= n {
        let c = grapheme_count(text.as_str());
        co = Some(c);
        push_char(&mut text, '▎');
    }
    (text, co)
}

} // verus!
