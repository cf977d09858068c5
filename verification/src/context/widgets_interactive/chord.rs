//! Multi-key chords such as vi's `gg`, typed across frames.
use vstd::prelude::*;
use crate::context::Context;
use crate::event::{Event, KeyCode, KeyEventKind};
use crate::unicode::chars_of;

verus! {

/// Ticks after which a partly typed chord is forgotten.
pub const DEFAULT_CHORD_TIMEOUT_TICKS: u64 = 60;

/// `<space>` and `<leader>` in a chord spec each stand for a space; every
/// other character stands for itself.
pub open spec fn parse_chord(spec: Seq<char>) -> Seq<char>
    decreases spec.len(),
{
    if spec.len() == 0 {
        Seq::empty()
    } else if spec.len() >= 7 && spec.take(7) == seq!['<', 's', 'p', 'a', 'c', 'e', '>'] {
        seq![' '] + parse_chord(spec.skip(7))
    } else if spec.len() >= 8 && spec.take(8) == seq!['<', 'l', 'e', 'a', 'd', 'e', 'r', '>'] {
        seq![' '] + parse_chord(spec.skip(8))
    } else {
        seq![spec[0]] + parse_chord(spec.skip(1))
    }
}

/// `s` agrees with `target` on every position both have.
pub open spec fn agrees(s: Seq<char>, target: Seq<char>) -> bool {
    forall|i: int| 0 <= i < s.len() && i < target.len() ==> s[i] == target[i]
}

/// The first position from `start` on where the rest of `buf` agrees with
/// `target` (the end of `buf` when none does before it).
pub open spec fn agreeing_from(buf: Seq<char>, target: Seq<char>, start: int) -> int
    decreases buf.len() - start,
{
    if start >= buf.len() {
        buf.len() as int
    } else if agrees(buf.skip(start), target) {
        start
    } else {
        agreeing_from(buf, target, start + 1)
    }
}

/// The longest suffix of `buf` that agrees with `target`.
pub open spec fn longest_agreeing_suffix(buf: Seq<char>, target: Seq<char>) -> Seq<char> {
    buf.skip(agreeing_from(buf, target, 0))
}

/// Chord progress while the frame's keys are read: keys typed, the event
/// that completed the chord, and whether any key advanced it.
pub type ChordRun = (Seq<char>, Option<int>, bool);

/// The chord after the first `n` events, from `pending`.
pub open spec fn chord_run(events: Seq<Event>, consumed: Seq<bool>, n: nat, pending: Seq<char>, target: Seq<char>) -> ChordRun
    decreases n,
{
    if n == 0 {
        (pending, None, false)
    } else {
        let prev = chord_run(events, consumed, (n - 1) as nat, pending, target);
        if prev.1 is Some || consumed[n - 1] {
            prev
        } else {
            match events[n - 1] {
                Event::Key(k) => if k.kind == KeyEventKind::Press && k.code is Char {
                    let buf = longest_agreeing_suffix(prev.0.push(k.code->Char_0), target);
                    if buf.len() == target.len() {
                        (Seq::empty(), Some(n - 1), true)
                    } else {
                        (buf, None, true)
                    }
                } else {
                    prev
                },
                _ => prev,
            }
        }
    }
}

fn starts_with_at(s: &Vec<char>, at: usize, lit: &Vec<char>) -> (r: bool)
    requires
        at <= s@.len(),
    ensures
        r == (s@.len() - at >= lit@.len() && s@.skip(at as int).take(lit@.len() as int) == lit@),
{
    if s.len() - at < lit.len() {
        return false;
    }
    let mut i: usize = 0;
    while i < lit.len()
        invariant
            i <= lit@.len(),
            at + lit@.len() <= s@.len(),
            s@.len() == s.len(),
            s.len() <= usize::MAX,
            forall|j: int| 0 <= j < i ==> s@[at + j] == lit@[j],
        decreases lit@.len() - i,
    {
        let idx = at + i;
        if s[idx] != lit[i] {
            assert(s@.skip(at as int).take(lit@.len() as int)[i as int] != lit@[i as int]);
            return false;
        }
        i = i + 1;
    }
    assert(s@.skip(at as int).take(lit@.len() as int) =~= lit@);
    true
}

/// Expand a chord spec into the keys it stands for.
fn parse_chord_exec(spec: &str) -> (r: Vec<char>)
    ensures
        r@ == parse_chord(spec@),
{
    let s = chars_of(spec);
    let space_tok = chars_of("<space>");
    let leader_tok = chars_of("<leader>");
    proof {
        reveal_strlit("<space>");
        reveal_strlit("<leader>");
        assert(space_tok@ =~= seq!['<', 's', 'p', 'a', 'c', 'e', '>']);
        assert(leader_tok@ =~= seq!['<', 'l', 'e', 'a', 'd', 'e', 'r', '>']);
    }
    let mut out: Vec<char> = Vec::new();
    let mut at: usize = 0;
    proof {
        assert(s@.skip(0) =~= s@);
        assert(out@ + parse_chord(s@) =~= parse_chord(s@));
    }
    while at < s.len()
        invariant
            at <= s@.len(),
            space_tok@ == seq!['<', 's', 'p', 'a', 'c', 'e', '>'],
            leader_tok@ == seq!['<', 'l', 'e', 'a', 'd', 'e', 'r', '>'],
            out@ + parse_chord(s@.skip(at as int)) == parse_chord(s@),
        decreases s@.len() - at,
    {
        let ghost rest = s@.skip(at as int);
        let ghost before = out@;
        if starts_with_at(&s, at, &space_tok) {
            out.push(' ');
            proof {
                assert(rest.take(7) == seq!['<', 's', 'p', 'a', 'c', 'e', '>']);
                assert(rest.skip(7) == s@.skip(at + 7));
                assert(out@ + parse_chord(rest.skip(7)) == before + (seq![' '] + parse_chord(rest.skip(7))));
            }
            at = at + 7;
        } else if starts_with_at(&s, at, &leader_tok) {
            out.push(' ');
            proof {
                assert(rest.take(8) == seq!['<', 'l', 'e', 'a', 'd', 'e', 'r', '>']);
                assert(rest.skip(8) == s@.skip(at + 8));
                assert(out@ + parse_chord(rest.skip(8)) == before + (seq![' '] + parse_chord(rest.skip(8))));
            }
            at = at + 8;
        } else {
            out.push(s[at]);
            proof {
                assert(!(rest.len() >= 7 && rest.take(7) == seq!['<', 's', 'p', 'a', 'c', 'e', '>']));
                assert(rest.skip(1) == s@.skip(at + 1));
                assert(out@ + parse_chord(rest.skip(1)) == before + (seq![rest[0]] + parse_chord(rest.skip(1))));
            }
            at = at + 1;
        }
    }
    proof {
        assert(s@.skip(at as int) == Seq::<char>::empty());
        assert(out@ + Seq::<char>::empty() == out@);
    }
    out
}

/// Drop the front of `buf` up to the longest suffix that agrees with `target`.
fn retain_longest_prefix(buf: &Vec<char>, target: &Vec<char>) -> (r: Vec<char>)
    ensures
        r@ == longest_agreeing_suffix(buf@, target@),
{
    let mut start: usize = 0;
    let mut found = false;
    while start < buf.len() && !found
        invariant
            start <= buf@.len(),
            agreeing_from(buf@, target@, 0) == agreeing_from(buf@, target@, start as int),
            found ==> start < buf@.len() && agrees(buf@.skip(start as int), target@),
        decreases buf@.len() - start, if found { 0int } else { 1int },
    {
        let mut ok = true;
        let mut i: usize = 0;
        while i < buf.len() - start && i < target.len()
            invariant
                start < buf@.len(),
                ok ==> forall|j: int| 0 <= j < i ==> buf@[start + j] == target@[j],
                !ok ==> !agrees(buf@.skip(start as int), target@),
            decreases buf@.len() - start - i,
        {
            if buf[start + i] != target[i] {
                ok = false;
                assert(buf@.skip(start as int)[i as int] != target@[i as int]);
            }
            i = i + 1;
        }
        if ok {
            assert(agrees(buf@.skip(start as int), target@));
            found = true;
        } else {
            start = start + 1;
        }
    }
    let mut out: Vec<char> = Vec::new();
    let mut k = start;
    while k < buf.len()
        invariant
            start <= k <= buf@.len(),
            out@ == buf@.subrange(start as int, k as int),
        decreases buf@.len() - k,
    {
        out.push(buf[k]);
        proof {
            assert(buf@.subrange(start as int, k + 1) == buf@.subrange(start as int, k as int).push(buf@[k as int]));
        }
        k = k + 1;
    }
    proof {
        assert(agreeing_from(buf@, target@, start as int) == start);
        assert(out@ =~= buf@.skip(start as int));
    }
    out
}

/// `a - b`, or zero.
pub open spec fn sat_sub_u64(a: u64, b: u64) -> u64 {
    if a >= b { (a - b) as u64 } else { 0 }
}

/// The chord typed so far once a pause of more than `timeout` ticks has
/// cleared a stale one.
pub open spec fn live_pending(c: Context, timeout: u64) -> Seq<char> {
    if sat_sub_u64(c.tick, c.chord_last_tick) > timeout { Seq::empty() } else { c.chord_pending@ }
}

impl Context {
    /// Whether the chord `seq` (`<space>`/`<leader>` for the space key) is
    /// completed by this frame's keys, its keys possibly typed over several
    /// frames with at most `timeout_ticks` between them. `true` once, on
    /// the completing frame, whose completing key press is claimed. A key
    /// that breaks the chord keeps only what can still start it again.
    pub fn key_chord_timeout(&mut self, seq: &str, timeout_ticks: u64) -> (r: bool)
        requires
            old(self).wf(),
        ensures
            final(self).wf(),
            parse_chord(seq@).len() == 0 || old(self).blocked() ==> !r && *final(self) == *old(self),
            parse_chord(seq@).len() > 0 && !old(self).blocked() ==> {
                let run = chord_run(old(self).events@, old(self).consumed@, old(self).events@.len() as nat,
                    live_pending(*old(self), timeout_ticks), parse_chord(seq@));
                &&& final(self).chord_pending@ == run.0
                &&& final(self).chord_last_tick == (if run.2 { old(self).tick } else { old(self).chord_last_tick })
                &&& r == run.1 is Some
                &&& (run.1 matches Some(i) ==> final(self).consumed@ == old(self).consumed@.update(i, true))
                &&& (run.1 is None ==> final(self).consumed@ == old(self).consumed@)
                &&& *final(self) == (Context {
                    consumed: final(self).consumed,
                    chord_pending: final(self).chord_pending,
                    chord_last_tick: final(self).chord_last_tick,
                    ..*old(self)
                })
            },
    {
        let target = parse_chord_exec(seq);
        if target.len() == 0 || self.is_blocked() {
            return false;
        }
        let idle = self.tick.saturating_sub(self.chord_last_tick);
        let mut buf: Vec<char> = if idle > timeout_ticks { Vec::new() } else { self.chord_pending.clone() };
        proof {
            assert(buf@ == live_pending(*old(self), timeout_ticks));
        }
        let tick = self.tick;
        let mut last = self.chord_last_tick;
        let mut done: Option<usize> = None;
        let mut touched = false;
        let n = self.events.len();
        let mut i: usize = 0;
        while i < n
            invariant
                n == self.events@.len(),
                n == self.consumed@.len(),
                i <= n,
                *self == *old(self),
                target@ == parse_chord(seq@),
                ({
                    let run = chord_run(self.events@, self.consumed@, i as nat, live_pending(*old(self), timeout_ticks), target@);
                    &&& buf@ == run.0
                    &&& touched == run.2
                    &&& (match done { Some(d) => run.1 == Some(d as int) && d < i, None => run.1 is None })
                }),
                last == (if touched { tick } else { old(self).chord_last_tick }),
                tick == old(self).tick,
            decreases n - i,
        {
            if done.is_none() && !self.consumed[i] {
                match &self.events[i] {
                    Event::Key(k) => {
                        if k.kind == KeyEventKind::Press {
                            match k.code {
                                KeyCode::Char(c) => {
                                    buf.push(c);
                                    buf = retain_longest_prefix(&buf, &target);
                                    last = tick;
                                    touched = true;
                                    if buf.len() == target.len() {
                                        done = Some(i);
                                        buf = Vec::new();
                                    }
                                },
                                _ => {},
                            }
                        }
                    },
                    _ => {},
                }
            }
            i = i + 1;
        }
        self.chord_pending = buf;
        self.chord_last_tick = last;
        match done {
            Some(d) => {
                self.consumed.set(d, true);
                true
            },
            None => false,
        }
    }

    /// [`key_chord_timeout`](Self::key_chord_timeout) with the default timeout.
    pub fn key_chord(&mut self, seq: &str) -> (r: bool)
        requires
            old(self).wf(),
        ensures
            final(self).wf(),
            parse_chord(seq@).len() == 0 || old(self).blocked() ==> !r && *final(self) == *old(self),
            parse_chord(seq@).len() > 0 && !old(self).blocked() ==> {
                let run = chord_run(old(self).events@, old(self).consumed@, old(self).events@.len() as nat,
                    live_pending(*old(self), DEFAULT_CHORD_TIMEOUT_TICKS), parse_chord(seq@));
                &&& final(self).chord_pending@ == run.0
                &&& final(self).chord_last_tick == (if run.2 { old(self).tick } else { old(self).chord_last_tick })
                &&& r == run.1 is Some
                &&& (run.1 matches Some(i) ==> final(self).consumed@ == old(self).consumed@.update(i, true))
                &&& (run.1 is None ==> final(self).consumed@ == old(self).consumed@)
            },
    {
        self.key_chord_timeout(seq, DEFAULT_CHORD_TIMEOUT_TICKS)
    }

    /// Former name of [`key_chord`](Self::key_chord).
    pub fn key_seq(&mut self, seq: &str) -> (r: bool)
        requires
            old(self).wf(),
        ensures
            final(self).wf(),
            parse_chord(seq@).len() == 0 || old(self).blocked() ==> !r && *final(self) == *old(self),
            parse_chord(seq@).len() > 0 && !old(self).blocked() ==> {
                let run = chord_run(old(self).events@, old(self).consumed@, old(self).events@.len() as nat,
                    live_pending(*old(self), DEFAULT_CHORD_TIMEOUT_TICKS), parse_chord(seq@));
                &&& final(self).chord_pending@ == run.0
                &&& r == run.1 is Some
            },
    {
        self.key_chord(seq)
    }
}

/// What a chord keeps after a key agrees with the chord and is the longest
/// such suffix: no longer suffix of the keys typed agrees with it.
pub proof fn lemma_chord_keeps_longest_suffix(buf: Seq<char>, target: Seq<char>, start: int)
    requires
        0 <= start,
    ensures
        start <= agreeing_from(buf, target, start) <= buf.len() || (start > buf.len() && agreeing_from(buf, target, start) == buf.len()),
        agreeing_from(buf, target, start) < buf.len() ==> agrees(buf.skip(agreeing_from(buf, target, start)), target),
        forall|k: int| start <= k < agreeing_from(buf, target, start) ==> !agrees(#[trigger] buf.skip(k), target),
    decreases buf.len() - start,
{
    if start < buf.len() && !agrees(buf.skip(start), target) {
        lemma_chord_keeps_longest_suffix(buf, target, start + 1);
    }
}

/// Once a chord completes, nothing of it is left pending: the next frame
/// starts it from scratch.
pub proof fn lemma_chord_fires_once(events: Seq<Event>, consumed: Seq<bool>, n: nat, pending: Seq<char>, target: Seq<char>)
    requires
        n <= events.len(),
        n <= consumed.len(),
        chord_run(events, consumed, n, pending, target).1 is Some,
    ensures
        chord_run(events, consumed, n, pending, target).0.len() == 0,
    decreases n,
{
    if n > 0 {
        let prev = chord_run(events, consumed, (n - 1) as nat, pending, target);
        if prev.1 is Some {
            lemma_chord_fires_once(events, consumed, (n - 1) as nat, pending, target);
        }
    }
}

} // verus!
