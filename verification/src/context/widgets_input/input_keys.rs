//! How a focused text input reacts to this frame's keys and pastes.
use vstd::prelude::*;
use crate::context::Context;
use crate::context::widgets_input::input_state::{
    cluster_count, grapheme_count, insert_at, inserted, matching, remove_at, removed, TextInputState,
};
use crate::event::{Event, KeyCode, KeyEvent, KeyEventKind, KeyModifiers};
use crate::unicode::{concat, grapheme_clusters, graphemes, push_char, string_views};

verus! {

/// Value, cursor, dropdown open, highlighted completion, and whether Enter
/// submitted, while an input handles events.
pub type InputModel = (Seq<char>, int, bool, int, bool);

/// Control, Alt or Super is held: the key is a shortcut, not typing.
pub open spec fn shortcut_held(m: KeyModifiers) -> bool {
    m.spec_contains(KeyModifiers(2)) || m.spec_contains(KeyModifiers(4)) || m.spec_contains(KeyModifiers(8))
}

/// A cluster that may be pasted: no control characters.
pub open spec fn printable_cluster(c: Seq<char>) -> bool {
    forall|i: int| 0 <= i < c.len() ==> (#[trigger] c[i]) as u32 >= 0x20 && c[i] != '\x7f'
}

/// The printable clusters of `clusters`, in order.
pub open spec fn printable_clusters(clusters: Seq<Seq<char>>) -> Seq<Seq<char>>
    decreases clusters.len(),
{
    if clusters.len() == 0 {
        Seq::empty()
    } else {
        let prev = printable_clusters(clusters.drop_last());
        if printable_cluster(clusters.last()) { prev.push(clusters.last()) } else { prev }
    }
}

/// What a paste of `text` inserts: its printable clusters.
pub open spec fn paste_text(text: Seq<char>) -> Seq<char> {
    concat(printable_clusters(grapheme_clusters(text)))
}

/// The completions on show for a model.
pub open spec fn shown(st: InputModel, sugg: Seq<Seq<char>>) -> Seq<Seq<char>> {
    if st.2 { matching(sugg, st.0) } else { Seq::empty() }
}

/// The model after an edit that produced `value` and `cursor`: the dropdown
/// reopens at the top when there are completions at all.
pub open spec fn edited_to(st: InputModel, value: Seq<char>, cursor: int, sugg: Seq<Seq<char>>) -> InputModel {
    if sugg.len() > 0 { (value, cursor, true, 0, st.4) } else { (value, cursor, st.2, st.3, st.4) }
}

/// The cursor, kept within the value's clusters.
pub open spec fn clamped_cursor(st: InputModel) -> int {
    let count = cluster_count(st.0) as int;
    if st.1 <= count { st.1 } else { count }
}

/// Insert `ins` at the cursor, unless the result would exceed `max`.
pub open spec fn insert_model(st: InputModel, ins: Seq<char>, sugg: Seq<Seq<char>>, max: Option<usize>) -> InputModel {
    let r = inserted(st.0, clamped_cursor(st), ins);
    if max matches Some(m) && cluster_count(r.0) > m {
        st
    } else {
        edited_to(st, r.0, r.1 as int, sugg)
    }
}

/// Accept the highlighted completion `c`.
pub open spec fn accept_model(st: InputModel, c: Seq<char>) -> InputModel {
    (c, cluster_count(c) as int, false, 0, st.4)
}

/// A key press on a focused input: the new model and whether the input
/// claims the key.
pub open spec fn input_key(st0: InputModel, k: KeyEvent, sugg: Seq<Seq<char>>, max: Option<usize>) -> (InputModel, bool) {
    let m = shown(st0, sugg);
    let visible = m.len() > 0;
    let st = if visible && st0.3 > m.len() - 1 { (st0.0, st0.1, st0.2, m.len() - 1, st0.4) } else { st0 };
    let count = cluster_count(st.0) as int;
    match k.code {
        KeyCode::Up if visible => ((st.0, st.1, st.2, if st.3 > 0 { st.3 - 1 } else { 0 }, st.4), true),
        KeyCode::Down if visible => ((st.0, st.1, st.2, if st.3 + 1 < m.len() { st.3 + 1 } else { m.len() - 1 }, st.4), true),
        KeyCode::Esc if st.2 => ((st.0, st.1, false, 0, st.4), true),
        KeyCode::Tab if visible => (accept_model(st, m[st.3]), true),
        KeyCode::Char(c) if !shortcut_held(k.modifiers) => (insert_model(st, seq![c], sugg, max), true),
        KeyCode::Backspace => {
            let c = clamped_cursor(st);
            let after = if c > 0 {
                let r = removed(st.0, c - 1);
                (r.0, r.1 as int, st.2, st.3, st.4)
            } else {
                st
            };
            (edited_to(after, after.0, after.1, sugg), true)
        },
        KeyCode::Left => ((st.0, if st.1 > 0 { st.1 - 1 } else { 0 }, st.2, st.3, st.4), true),
        KeyCode::Right => ((st.0, if st.1 + 1 < count { st.1 + 1 } else { count }, st.2, st.3, st.4), true),
        KeyCode::Home => ((st.0, 0, st.2, st.3, st.4), true),
        KeyCode::Delete => {
            let c = clamped_cursor(st);
            let after = if c < count {
                let r = removed(st.0, c);
                (r.0, r.1 as int, st.2, st.3, st.4)
            } else {
                st
            };
            (edited_to(after, after.0, after.1, sugg), true)
        },
        KeyCode::End => ((st.0, count, st.2, st.3, st.4), true),
        KeyCode::Enter => if visible {
            (accept_model(st, m[st.3]), true)
        } else {
            ((st.0, st.1, st.2, st.3, true), true)
        },
        _ => (st, false),
    }
}

/// An event on a focused input: the new model and whether it is claimed.
pub open spec fn input_event(st: InputModel, e: Event, sugg: Seq<Seq<char>>, max: Option<usize>) -> (InputModel, bool) {
    match e {
        Event::Paste(text) => (insert_model(st, paste_text(text@), sugg, max), true),
        Event::Key(k) => if k.kind == KeyEventKind::Press { input_key(st, k, sugg, max) } else { (st, false) },
        _ => (st, false),
    }
}

/// The unclaimed events among the first `n` applied in order.
pub open spec fn input_events(events: Seq<Event>, consumed: Seq<bool>, n: nat, init: InputModel,
    sugg: Seq<Seq<char>>, max: Option<usize>) -> InputModel
    decreases n,
{
    if n == 0 {
        init
    } else {
        let prev = input_events(events, consumed, (n - 1) as nat, init, sugg, max);
        if consumed[n - 1] { prev } else { input_event(prev, events[n - 1], sugg, max).0 }
    }
}

/// Whether the input claims event `i`.
pub open spec fn input_claims(events: Seq<Event>, consumed: Seq<bool>, i: int, init: InputModel,
    sugg: Seq<Seq<char>>, max: Option<usize>) -> bool {
    !consumed[i] && input_event(input_events(events, consumed, i as nat, init, sugg, max), events[i], sugg, max).1
}

/// The model of `s`.
pub open spec fn model_of(s: TextInputState, submitted: bool) -> InputModel {
    (s.value@, s.cursor as int, s.show_suggestions, s.suggestion_index as int, submitted)
}

/// The printable clusters of `text`, joined.
pub(crate) fn printable_paste(text: &str) -> (r: String)
    ensures
        r@ == paste_text(text@),
{
    let parts = graphemes(text);
    let ghost cl = grapheme_clusters(text@);
    let mut out = String::new();
    let n = parts.len();
    let mut k: usize = 0;
    while k < n
        invariant
            n == parts@.len(),
            n == cl.len(),
            forall|j: int| 0 <= j < n ==> (#[trigger] parts@[j])@ == cl[j],
            k <= n,
            out@ == concat(printable_clusters(cl.take(k as int))),
        decreases n - k,
    {
        let part = parts[k].as_str();
        let m = part.unicode_len();
        let mut ok = true;
        let mut i: usize = 0;
        while i < m
            invariant
                m == part@.len(),
                i <= m,
                ok == (forall|j: int| 0 <= j < i ==> (#[trigger] part@[j]) as u32 >= 0x20 && part@[j] != '\x7f'),
            decreases m - i,
        {
            let c = part.get_char(i);
            if (c as u32) < 0x20 || c == '\x7f' {
                ok = false;
            }
            i = i + 1;
        }
        proof {
            assert(cl.take(k + 1).drop_last() == cl.take(k as int));
            assert(cl.take(k + 1).last() == part@);
        }
        if ok {
            out.append(part);
            proof {
                let pc = printable_clusters(cl.take(k as int));
                assert(printable_clusters(cl.take(k + 1)) == pc.push(part@));
                assert(pc.push(part@).drop_last() == pc);
            }
        }
        k = k + 1;
    }
    proof {
        assert(cl.take(n as int) == cl);
    }
    out
}

impl TextInputState {
    /// Number of completions on show and the one at `idx`, if any.
    pub(crate) fn shown_at(&self, idx: usize) -> (r: (usize, Option<String>))
        ensures
            r.0 == shown(model_of(*self, false), self.suggestion_views()).len(),
            idx < r.0 ==> (r.1 matches Some(c) && c@ == shown(model_of(*self, false), self.suggestion_views())[idx as int]),
    {
        if !self.show_suggestions {
            return (0, None);
        }
        let m = self.matched_suggestions();
        let n = m.len();
        if idx < n {
            (n, Some(m[idx].to_owned()))
        } else {
            (n, None)
        }
    }
}

fn remove_cluster(value: &str, at: usize) -> (r: (String, usize))
    requires
        at < cluster_count(value@),
    ensures
        r.0@ == removed(value@, at as int).0,
        r.1 == removed(value@, at as int).1,
{
    remove_at(value, at)
}

/// Insert `ins` at the cursor, unless the value would grow past the limit.
fn insert_text(state: &mut TextInputState, ins: &str, has_sugg: bool)
    requires
        has_sugg == (old(state).suggestions@.len() > 0),
    ensures
        model_of(*final(state), false) == insert_model(model_of(*old(state), false), ins@,
            old(state).suggestion_views(), old(state).max_length),
        final(state).suggestions == old(state).suggestions,
        final(state).placeholder == old(state).placeholder,
        final(state).max_length == old(state).max_length,
        final(state).masked == old(state).masked,
        final(state).validation_error == old(state).validation_error,
{
    let count = grapheme_count(state.value.as_str());
    let c = if state.cursor <= count { state.cursor } else { count };
    let (v, cur) = insert_at(state.value.as_str(), c, ins);
    match state.max_length {
        Some(m) => {
            if grapheme_count(v.as_str()) > m {
                return;
            }
        },
        None => {},
    }
    state.value = v;
    state.cursor = cur;
    if has_sugg {
        state.show_suggestions = true;
        state.suggestion_index = 0;
    }
}

/// Accept the highlighted completion.
fn accept_shown(state: &mut TextInputState)
    requires
        state.suggestion_index < shown(model_of(*old(state), false), old(state).suggestion_views()).len(),
    ensures
        model_of(*final(state), false) == accept_model(model_of(*old(state), false),
            shown(model_of(*old(state), false), old(state).suggestion_views())[old(state).suggestion_index as int]),
        final(state).suggestions == old(state).suggestions,
        final(state).placeholder == old(state).placeholder,
        final(state).max_length == old(state).max_length,
        final(state).masked == old(state).masked,
        final(state).validation_error == old(state).validation_error,
{
    let (_, pick) = state.shown_at(state.suggestion_index);
    match pick {
        Some(v) => {
            let cur = grapheme_count(v.as_str());
            state.value = v;
            state.cursor = cur;
            state.show_suggestions = false;
            state.suggestion_index = 0;
        },
        None => {},
    }
}

/// Apply one unclaimed event to a focused input; `true` when it claims it.
pub(crate) fn input_step(state: &mut TextInputState, e: &Event, submitted: &mut bool) -> (claimed: bool)
    ensures
        ({
            let r = input_event(model_of(*old(state), *old(submitted)), *e, old(state).suggestion_views(), old(state).max_length);
            &&& model_of(*final(state), *final(submitted)) == r.0
            &&& claimed == r.1
        }),
        final(state).suggestions == old(state).suggestions,
        final(state).placeholder == old(state).placeholder,
        final(state).max_length == old(state).max_length,
        final(state).masked == old(state).masked,
        final(state).validation_error == old(state).validation_error,
{
    let has_sugg = state.suggestions.len() > 0;
    match e {
        Event::Paste(text) => {
            let ins = printable_paste(text.as_str());
            insert_text(state, ins.as_str(), has_sugg);
            return true;
        },
        Event::Key(k) => {
            if k.kind != KeyEventKind::Press {
                return false;
            }
            let (n, _) = state.shown_at(0);
            let visible = n > 0;
            if visible && state.suggestion_index > n - 1 {
                state.suggestion_index = n - 1;
            }
            let count = grapheme_count(state.value.as_str());
            let c = if state.cursor <= count { state.cursor } else { count };
            match k.code {
                KeyCode::Up if visible => {
                    state.suggestion_index = if state.suggestion_index > 0 { state.suggestion_index - 1 } else { 0 };
                    true
                },
                KeyCode::Down if visible => {
                    state.suggestion_index = if state.suggestion_index + 1 < n { state.suggestion_index + 1 } else { n - 1 };
                    true
                },
                KeyCode::Esc if state.show_suggestions => {
                    state.show_suggestions = false;
                    state.suggestion_index = 0;
                    true
                },
                KeyCode::Tab if visible => {
                    accept_shown(state);
                    true
                },
                KeyCode::Char(ch) if !(k.modifiers.contains(KeyModifiers::CONTROL()) || k.modifiers.contains(KeyModifiers::ALT())
                    || k.modifiers.contains(KeyModifiers::SUPER())) => {
                    let mut buf = String::new();
                    push_char(&mut buf, ch);
                    insert_text(state, buf.as_str(), has_sugg);
                    true
                },
                KeyCode::Backspace => {
                    if c > 0 {
                        let (v, cur) = remove_cluster(state.value.as_str(), c - 1);
                        state.value = v;
                        state.cursor = cur;
                    }
                    if has_sugg {
                        state.show_suggestions = true;
                        state.suggestion_index = 0;
                    }
                    true
                },
                KeyCode::Left => {
                    state.cursor = if state.cursor > 0 { state.cursor - 1 } else { 0 };
                    true
                },
                KeyCode::Right => {
                    state.cursor = if state.cursor < count && state.cursor + 1 < count { state.cursor + 1 } else { count };
                    true
                },
                KeyCode::Home => {
                    state.cursor = 0;
                    true
                },
                KeyCode::Delete => {
                    if c < count {
                        let (v, cur) = remove_cluster(state.value.as_str(), c);
                        state.value = v;
                        state.cursor = cur;
                    }
                    if has_sugg {
                        state.show_suggestions = true;
                        state.suggestion_index = 0;
                    }
                    true
                },
                KeyCode::End => {
                    state.cursor = count;
                    true
                },
                KeyCode::Enter => {
                    if visible {
                        accept_shown(state);
                    } else {
                        *submitted = true;
                    }
                    true
                },
                _ => false,
            }
        },
        _ => false,
    }
}


/// Delete removes the cluster after the cursor: at a cursor `c` before the
/// end, the value becomes its first `c` clusters followed by its clusters
/// after `c + 1`, with the cursor right after the kept head; at the end it
/// changes nothing.
pub proof fn lemma_delete_removes_after_cursor(st: InputModel, k: KeyEvent, sugg: Seq<Seq<char>>, max: Option<usize>)
    requires
        k.code == KeyCode::Delete,
        0 <= st.1 <= cluster_count(st.0),
    ensures
        ({
            let cl = grapheme_clusters(st.0);
            let r = input_key(st, k, sugg, max);
            &&& r.1
            &&& st.1 < cl.len() ==> r.0.0 == concat(cl.take(st.1)) + concat(cl.skip(st.1 + 1))
                && r.0.1 == cluster_count(concat(cl.take(st.1)))
            &&& st.1 == cl.len() ==> r.0.0 == st.0 && r.0.1 == st.1
        }),
{
}

/// Backspace removes the cluster before the cursor: at a cursor `c` past
/// the start, the value becomes its first `c - 1` clusters followed by its
/// clusters from `c` on; at the start it changes nothing.
pub proof fn lemma_backspace_removes_before_cursor(st: InputModel, k: KeyEvent, sugg: Seq<Seq<char>>, max: Option<usize>)
    requires
        k.code == KeyCode::Backspace,
        0 <= st.1 <= cluster_count(st.0),
    ensures
        ({
            let cl = grapheme_clusters(st.0);
            let r = input_key(st, k, sugg, max);
            &&& r.1
            &&& st.1 > 0 ==> r.0.0 == concat(cl.take(st.1 - 1)) + concat(cl.skip(st.1))
                && r.0.1 == cluster_count(concat(cl.take(st.1 - 1)))
            &&& st.1 == 0 ==> r.0.0 == st.0 && r.0.1 == 0
        }),
{
}

/// Delete at a cursor and Backspace one cluster further on remove the same
/// cluster: both leave the same value and the same cursor.
pub proof fn lemma_delete_is_backspace_one_on(st: InputModel, del: KeyEvent, bs: KeyEvent, sugg: Seq<Seq<char>>,
    max: Option<usize>)
    requires
        del.code == KeyCode::Delete,
        bs.code == KeyCode::Backspace,
        0 <= st.1 < cluster_count(st.0),
    ensures
        input_key(st, del, sugg, max).0.0 == input_key((st.0, st.1 + 1, st.2, st.3, st.4), bs, sugg, max).0.0,
        input_key(st, del, sugg, max).0.1 == input_key((st.0, st.1 + 1, st.2, st.3, st.4), bs, sugg, max).0.1,
{
}


/// Typing a character inserts it at the cursor: the value becomes its first
/// `c` clusters, the character, and the rest, with the cursor right after
/// the character; Home and End move the cursor to the start and the end
/// and leave the value alone. (No length limit.)
pub proof fn lemma_typing_inserts_at_cursor(st: InputModel, k: KeyEvent, ch: char, sugg: Seq<Seq<char>>)
    requires
        0 <= st.1 <= cluster_count(st.0),
    ensures
        ({
            let cl = grapheme_clusters(st.0);
            let r = input_key(st, k, sugg, None);
            &&& k.code == KeyCode::Char(ch) && !shortcut_held(k.modifiers) ==> r.1
                && r.0.0 == concat(cl.take(st.1)) + seq![ch] + concat(cl.skip(st.1))
                && r.0.1 == cluster_count(concat(cl.take(st.1)) + seq![ch])
            &&& k.code == KeyCode::Home ==> r.1 && r.0.0 == st.0 && r.0.1 == 0
            &&& k.code == KeyCode::End ==> r.1 && r.0.0 == st.0 && r.0.1 == cl.len()
        }),
{
}


/// Left and Right move the cursor by exactly one cluster (staying at the
/// start and the end), leave the value alone, and each undoes the other.
pub proof fn lemma_arrows_move_one_cluster(st: InputModel, left: KeyEvent, right: KeyEvent, sugg: Seq<Seq<char>>,
    max: Option<usize>)
    requires
        left.code == KeyCode::Left,
        right.code == KeyCode::Right,
        0 <= st.1 <= cluster_count(st.0),
    ensures
        ({
            let n = cluster_count(st.0) as int;
            let l = input_key(st, left, sugg, max).0;
            let r = input_key(st, right, sugg, max).0;
            &&& l.0 == st.0 && l.1 == (if st.1 > 0 { st.1 - 1 } else { 0 })
            &&& r.0 == st.0 && r.1 == (if st.1 < n { st.1 + 1 } else { n })
            &&& st.1 > 0 ==> input_key(l, right, sugg, max).0.1 == st.1
            &&& st.1 < n ==> input_key(r, left, sugg, max).0.1 == st.1
        }),
{
}


/// With completions on show, Tab and Enter take the highlighted one (the
/// value becomes it, the cursor goes to its end, the dropdown closes);
/// without any, Enter submits and leaves the value and cursor alone.
pub proof fn lemma_enter_accepts_or_submits(st: InputModel, k: KeyEvent, sugg: Seq<Seq<char>>, max: Option<usize>)
    requires
        k.code == KeyCode::Enter || k.code == KeyCode::Tab,
        0 <= st.3 < shown(st, sugg).len() || shown(st, sugg).len() == 0,
    ensures
        ({
            let m = shown(st, sugg);
            let r = input_key(st, k, sugg, max);
            &&& m.len() > 0 ==> r.0.0 == m[st.3] && r.0.1 == cluster_count(m[st.3]) && !r.0.2 && r.1
            &&& m.len() == 0 && k.code == KeyCode::Enter ==> r.0.0 == st.0 && r.0.1 == st.1 && r.0.4 && r.1
        }),
{
}

} // verus!
