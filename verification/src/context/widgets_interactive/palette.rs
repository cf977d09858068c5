//! A command palette: a modal list of commands filtered by what is typed,
//! with a highlighted row that Enter runs.
use vstd::prelude::*;
use crate::command::{Command, ContainerArgs};
use crate::context::{no_response, plain_container, plain_container_args, Context, Response};
use crate::context::widgets_display::text::is_plain_text;
use crate::context::widgets_input::input_keys::{paste_text, printable_paste};
use crate::context::widgets_input::input_state::{
    cluster_count, grapheme_count, insert_at, inserted, lowercase, remove_at, removed, to_lowercase,
};
use crate::event::{Event, KeyCode, KeyEvent, KeyEventKind, KeyModifiers};
use crate::style::{Border, Constraints, Direction, Modifiers, Padding, Style, Theme, BOLD, DIM};
use crate::unicode::{chars_of, concat, grapheme_clusters, push_char};
use crate::context::widgets_display::layout::sat_inc;

verus! {

/// One command a palette offers.
pub struct PaletteCommand {
    /// What the row shows and what typing is matched against.
    pub label: String,
    /// Shown under the highlighted row when not empty.
    pub description: String,
    /// A key hint shown after the label.
    pub shortcut: Option<String>,
}

/// A command palette: its commands, the query typed so far (with a cursor
/// in grapheme clusters), whether it is open, the highlighted row among
/// the matches, and the command Enter picked this frame.
pub struct CommandPaletteState {
    pub commands: Vec<PaletteCommand>,
    pub input: String,
    pub cursor: usize,
    pub open: bool,
    pub selected: usize,
    pub last_selected: Option<usize>,
}

/// Whether `needle` occurs in `hay`.
pub open spec fn occurs_in(needle: Seq<char>, hay: Seq<char>) -> bool {
    exists|i: int| 0 <= i && i + needle.len() <= hay.len() && #[trigger] hay.subrange(i, i + needle.len()) == needle
}

/// Whether a command matches a query: every command matches an empty
/// query; otherwise the query occurs in the label, ignoring case.
pub open spec fn command_matches(label: Seq<char>, query: Seq<char>) -> bool {
    query.len() == 0 || occurs_in(lowercase(query), lowercase(label))
}

/// The indices of the first `n` commands that match `query`, in order.
pub open spec fn matches_upto(cmds: Seq<PaletteCommand>, query: Seq<char>, n: int) -> Seq<usize>
    decreases n,
{
    if n <= 0 {
        seq![]
    } else {
        let prev = matches_upto(cmds, query, n - 1);
        if command_matches(cmds[n - 1].label@, query) { prev.push((n - 1) as usize) } else { prev }
    }
}

/// The indices of the commands that match `query`, in order.
pub open spec fn palette_matches(cmds: Seq<PaletteCommand>, query: Seq<char>) -> Seq<usize> {
    matches_upto(cmds, query, cmds.len() as int)
}

/// Query, cursor, open flag, highlighted row and picked command while a
/// palette handles its input.
pub type PaletteModel = (Seq<char>, int, bool, int, Option<usize>);

/// Control, Super or Meta is held: the key is a global shortcut.
pub open spec fn global_shortcut(m: KeyModifiers) -> bool {
    m.spec_contains(KeyModifiers(2)) || m.spec_contains(KeyModifiers(8)) || m.spec_contains(KeyModifiers(32))
}

/// Whether the palette claims a key press.
pub open spec fn palette_claims(k: KeyEvent) -> bool {
    match k.code {
        KeyCode::Esc | KeyCode::Up | KeyCode::Down | KeyCode::Enter | KeyCode::Backspace => true,
        KeyCode::Char(_) => !global_shortcut(k.modifiers),
        _ => false,
    }
}

/// The cluster the cursor stands before, kept within the query.
pub open spec fn edit_at(q: Seq<char>, cur: int) -> int {
    if cur <= cluster_count(q) { cur } else { cluster_count(q) as int }
}

/// One key press applied to a palette over `cmds`: Esc closes it; Up and
/// Down move the highlight within the matches; Enter picks the highlighted
/// match and closes; Backspace deletes the cluster before the cursor and
/// typing inserts at it, either one moving the highlight to the top.
pub open spec fn palette_key(st: PaletteModel, k: KeyEvent, cmds: Seq<PaletteCommand>) -> PaletteModel {
    let (q, cur, open, sel, last) = st;
    let m = palette_matches(cmds, q);
    match k.code {
        KeyCode::Esc => (q, cur, false, sel, last),
        KeyCode::Up => (q, cur, open, if sel > 0 { sel - 1 } else { 0 }, last),
        KeyCode::Down => {
            let top = if m.len() > 0 { m.len() - 1 } else { 0 };
            (q, cur, open, if sel + 1 < top { sel + 1 } else { top }, last)
        },
        KeyCode::Enter => if 0 <= sel < m.len() { (q, cur, false, sel, Some(m[sel])) } else { st },
        KeyCode::Backspace => if cur > 0 {
            let q2 = if cur - 1 < cluster_count(q) { removed(q, cur - 1).0 } else { q };
            (q2, cur - 1, open, 0, last)
        } else {
            st
        },
        KeyCode::Char(ch) => if !global_shortcut(k.modifiers) {
            let r = inserted(q, edit_at(q, cur), seq![ch]);
            (r.0, r.1 as int, open, 0, last)
        } else {
            st
        },
        _ => st,
    }
}

/// The unclaimed key presses among the first `n` events applied in order.
pub open spec fn palette_keys(events: Seq<Event>, consumed: Seq<bool>, n: nat, st: PaletteModel,
    cmds: Seq<PaletteCommand>) -> PaletteModel
    decreases n,
{
    if n == 0 {
        st
    } else {
        let prev = palette_keys(events, consumed, (n - 1) as nat, st, cmds);
        if consumed[n - 1] {
            prev
        } else {
            match events[n - 1] {
                Event::Key(k) => if k.kind == KeyEventKind::Press { palette_key(prev, k, cmds) } else { prev },
                _ => prev,
            }
        }
    }
}

/// A paste inserts its printable clusters at the cursor (when there are
/// any) and moves the highlight to the top.
pub open spec fn palette_paste(st: PaletteModel, text: Seq<char>) -> PaletteModel {
    let (q, cur, open, sel, last) = st;
    let ins = paste_text(text);
    if ins.len() > 0 {
        let r = inserted(q, edit_at(q, cur), ins);
        (r.0, r.1 as int, open, 0, last)
    } else {
        st
    }
}

/// The unclaimed pastes among the first `n` events applied in order.
pub open spec fn palette_pastes(events: Seq<Event>, consumed: Seq<bool>, n: nat, st: PaletteModel) -> PaletteModel
    decreases n,
{
    if n == 0 {
        st
    } else {
        let prev = palette_pastes(events, consumed, (n - 1) as nat, st);
        if consumed[n - 1] {
            prev
        } else {
            match events[n - 1] {
                Event::Paste(text) => palette_paste(prev, text@),
                _ => prev,
            }
        }
    }
}

/// A palette's state as a model.
pub open spec fn palette_model(s: CommandPaletteState) -> PaletteModel {
    (s.input@, s.cursor as int, s.open, s.selected as int, s.last_selected)
}

/// The model a palette starts the frame's input from: nothing picked, the
/// highlight kept within the matches.
pub open spec fn palette_start(s: CommandPaletteState) -> PaletteModel {
    let m = palette_matches(s.commands@, s.input@);
    let top = if m.len() > 0 { m.len() - 1 } else { 0 };
    (s.input@, s.cursor as int, s.open, if s.selected < top { s.selected as int } else { top }, None)
}

/// Whether event `i` is one the palette claims: a claimed key press or a paste.
pub open spec fn palette_claims_event(c: Context, i: int) -> bool {
    &&& c.live(i)
    &&& match c.events@[i] {
        Event::Key(k) => k.kind == KeyEventKind::Press && palette_claims(k),
        Event::Paste(_) => true,
        _ => false,
    }
}

/// The frame around the query: rounded, in the primary color, padded left and right.
pub open spec fn query_box(t: Theme) -> ContainerArgs {
    ContainerArgs {
        border: Some(Border::Rounded),
        border_style: Style { fg: Some(t.primary), bg: None, modifiers: Modifiers(0) },
        padding: Padding { top: 0, right: t.spacing.0, bottom: 0, left: t.spacing.0 },
        ..plain_container(Direction::Column, 0, t.border)
    }
}

/// The palette's panel: rounded, in the primary color, padded, at most 60 cells wide.
pub open spec fn panel_box(t: Theme) -> ContainerArgs {
    ContainerArgs {
        border: Some(Border::Rounded),
        border_style: Style { fg: Some(t.primary), bg: None, modifiers: Modifiers(0) },
        padding: Padding { top: t.spacing.0, right: t.spacing.0, bottom: t.spacing.0, left: t.spacing.0 },
        constraints: Constraints { max_width: Some(60), ..plain_container(Direction::Column, 0, t.border).constraints },
        ..plain_container(Direction::Column, 0, t.border)
    }
}

/// The dim style of the placeholder, descriptions and the no-match note.
pub open spec fn faint(t: Theme) -> Style {
    Style { fg: Some(t.text_dim), bg: None, modifiers: Modifiers(DIM) }
}

/// The row of a command: a marker when highlighted, the label, and its shortcut in brackets.
pub open spec fn command_row(cmd: PaletteCommand, highlighted: bool) -> Seq<char> {
    (if highlighted { seq!['▸', ' '] } else { seq![' ', ' '] }) + cmd.label@ + match cmd.shortcut {
        Some(s) => seq![' ', ' ', '('] + s@ + seq![')'],
        None => seq![],
    }
}

/// The lines listed for the first `n` matches `m` with `sel` highlighted:
/// each row, and under the highlighted one its description when it has one.
pub open spec fn listed_lines(cmds: Seq<PaletteCommand>, m: Seq<usize>, sel: int, t: Theme, n: int)
    -> Seq<(Seq<char>, Style)>
    decreases n,
{
    if n <= 0 {
        seq![]
    } else {
        let k = n - 1;
        let cmd = cmds[m[k] as int];
        let hl = k == sel;
        let style = if hl { Style { fg: Some(t.primary), bg: None, modifiers: Modifiers(BOLD) } }
            else { Style { fg: Some(t.text), bg: None, modifiers: Modifiers(0) } };
        let row = seq![(command_row(cmd, hl), style)];
        let desc = if hl && cmd.description@.len() > 0 { seq![(seq![' ', ' ', ' ', ' '] + cmd.description@, faint(t))] }
            else { seq![] };
        listed_lines(cmds, m, sel, t, n - 1) + row + desc
    }
}

/// Everything the palette lists below the query: the matching rows, or a
/// note that nothing matches.
pub open spec fn palette_lines(cmds: Seq<PaletteCommand>, m: Seq<usize>, sel: int, t: Theme) -> Seq<(Seq<char>, Style)> {
    if m.len() == 0 {
        seq![(seq![' ', ' '] + "No matching commands"@, faint(t))]
    } else {
        listed_lines(cmds, m, sel, t, m.len() as int)
    }
}

/// The query line: the query, or a dim prompt while it is empty.
pub open spec fn query_line(q: Seq<char>, t: Theme) -> (Seq<char>, Style) {
    if q.len() == 0 { ("Type to search..."@, faint(t)) } else { (q, Style { fg: Some(t.text), bg: None, modifiers: Modifiers(0) }) }
}

/// From `from` on, `c` holds one plain text per line.
pub open spec fn texts_from(c: Seq<Command>, from: int, lines: Seq<(Seq<char>, Style)>) -> bool {
    &&& c.len() >= from + lines.len()
    &&& forall|k: int| 0 <= k < lines.len() ==> is_plain_text(#[trigger] c[from + k], lines[k].0, lines[k].1)
}

/// Whether `needle` occurs in `hay`.
fn occurs(needle: &Vec<char>, hay: &Vec<char>) -> (r: bool)
    ensures
        r == occurs_in(needle@, hay@),
{
    let n = needle.len();
    let h = hay.len();
    if n > h {
        proof {
            assert forall|i: int| 0 <= i && i + n <= h implies !(#[trigger] hay@.subrange(i, i + n) == needle@) by {}
        }
        return false;
    }
    let mut i: usize = 0;
    while i <= h - n
        invariant
            n == needle@.len(),
            h == hay@.len(),
            n <= h,
            i <= h - n + 1,
            forall|j: int| 0 <= j < i ==> #[trigger] hay@.subrange(j, j + n) != needle@,
        decreases h - i,
    {
        let mut k: usize = 0;
        let mut same = true;
        while k < n
            invariant
                n == needle@.len(),
                h == hay@.len(),
                i + n <= h,
                k <= n,
                same == (forall|q: int| 0 <= q < k ==> hay@[i + q] == needle@[q]),
            decreases n - k,
        {
            if hay[i + k] != needle[k] {
                same = false;
            }
            k = k + 1;
        }
        if same {
            proof {
                assert(hay@.subrange(i as int, i + n) =~= needle@);
            }
            return true;
        }
        proof {
            let q = choose|q: int| 0 <= q < n && hay@[i + q] != needle@[q];
            assert(hay@.subrange(i as int, i + n)[q] != needle@[q]);
        }
        i = i + 1;
    }
    false
}

/// Whether a command's label matches the query (see [`command_matches`]).
fn label_matches(label: &str, query: &str) -> (r: bool)
    ensures
        r == command_matches(label@, query@),
{
    if query.unicode_len() == 0 {
        return true;
    }
    let ql = to_lowercase(query);
    let ll = to_lowercase(label);
    let qc = chars_of(ql.as_str());
    let lc = chars_of(ll.as_str());
    occurs(&qc, &lc)
}

impl CommandPaletteState {
    /// A closed palette over `commands` with an empty query.
    pub fn new(commands: Vec<PaletteCommand>) -> (s: Self)
        ensures
            s.commands == commands,
            s.input@.len() == 0,
            s.cursor == 0,
            !s.open,
            s.selected == 0,
            s.last_selected is None,
    {
        CommandPaletteState { commands, input: String::new(), cursor: 0, open: false, selected: 0, last_selected: None }
    }

    /// The indices of the commands matching the query, in order.
    pub fn matching_indices(&self) -> (r: Vec<usize>)
        ensures
            r@ == palette_matches(self.commands@, self.input@),
    {
        let mut out: Vec<usize> = Vec::new();
        let n = self.commands.len();
        let mut i: usize = 0;
        while i < n
            invariant
                n == self.commands@.len(),
                i <= n,
                out@ == matches_upto(self.commands@, self.input@, i as int),
            decreases n - i,
        {
            if label_matches(self.commands[i].label.as_str(), self.input.as_str()) {
                out.push(i);
            }
            i = i + 1;
        }
        out
    }
}

/// The cluster before which an edit applies (see [`edit_at`]).
fn edit_point(q: &str, cur: usize) -> (r: usize)
    ensures
        r == edit_at(q@, cur as int),
        r <= cluster_count(q@),
{
    let count = grapheme_count(q);
    if cur <= count { cur } else { count }
}

/// Apply one key press to the palette; returns whether it is claimed.
fn palette_key_step(state: &mut CommandPaletteState, k: &KeyEvent) -> (claimed: bool)
    ensures
        palette_model(*final(state)) == palette_key(palette_model(*old(state)), *k, old(state).commands@),
        final(state).commands == old(state).commands,
        claimed == palette_claims(*k),
{
    match k.code {
        KeyCode::Esc => {
            state.open = false;
            true
        },
        KeyCode::Up => {
            if state.selected > 0 {
                state.selected = state.selected - 1;
            }
            true
        },
        KeyCode::Down => {
            let m = state.matching_indices();
            let top = if m.len() > 0 { m.len() - 1 } else { 0 };
            state.selected = if state.selected < top && state.selected + 1 < top { state.selected + 1 } else { top };
            true
        },
        KeyCode::Enter => {
            let m = state.matching_indices();
            if state.selected < m.len() {
                state.last_selected = Some(m[state.selected]);
                state.open = false;
            }
            true
        },
        KeyCode::Backspace => {
            if state.cursor > 0 {
                let count = grapheme_count(state.input.as_str());
                if state.cursor - 1 < count {
                    let (v, _) = remove_at(state.input.as_str(), state.cursor - 1);
                    state.input = v;
                }
                state.cursor = state.cursor - 1;
                state.selected = 0;
            }
            true
        },
        KeyCode::Char(ch) => {
            let global = k.modifiers.contains(KeyModifiers::CONTROL()) || k.modifiers.contains(KeyModifiers::SUPER())
                || k.modifiers.contains(KeyModifiers::META());
            if !global {
                let at = edit_point(state.input.as_str(), state.cursor);
                let mut buf = String::new();
                push_char(&mut buf, ch);
                let (v, cur) = insert_at(state.input.as_str(), at, buf.as_str());
                proof {
                    assert(buf@ =~= seq![ch]);
                }
                state.input = v;
                state.cursor = cur;
                state.selected = 0;
            }
            !global
        },
        _ => false,
    }
}

/// Apply one paste to the palette.
fn palette_paste_step(state: &mut CommandPaletteState, text: &String)
    ensures
        palette_model(*final(state)) == palette_paste(palette_model(*old(state)), text@),
        final(state).commands == old(state).commands,
{
    let ins = printable_paste(text.as_str());
    if ins.as_str().unicode_len() > 0 {
        let at = edit_point(state.input.as_str(), state.cursor);
        let (v, cur) = insert_at(state.input.as_str(), at, ins.as_str());
        state.input = v;
        state.cursor = cur;
        state.selected = 0;
    }
}

impl Context {
    /// Apply this frame's unclaimed key presses, then its unclaimed pastes,
    /// to the palette, claiming the keys it handles and every paste.
    fn palette_input(&mut self, state: &mut CommandPaletteState)
        requires
            old(self).wf(),
        ensures
            final(self).wf(),
            palette_model(*final(state)) == palette_pastes(old(self).events@, old(self).consumed@,
                old(self).events@.len() as nat, palette_keys(old(self).events@, old(self).consumed@,
                old(self).events@.len() as nat, palette_model(*old(state)), old(state).commands@)),
            final(state).commands == old(state).commands,
            final(self).consumed@.len() == old(self).consumed@.len(),
            forall|i: int| 0 <= i < final(self).consumed@.len() ==> #[trigger] final(self).consumed@[i]
                == (old(self).consumed@[i] || palette_claims_event(*old(self), i)),
            *final(self) == (Context { consumed: final(self).consumed, ..*old(self) }),
    {
        let ghost cmds = old(state).commands@;
        let n = self.events.len();
        let mut i: usize = 0;
        while i < n
            invariant
                n == self.events@.len(),
                i <= n,
                self.wf(),
                self.consumed@.len() == n,
                state.commands == old(state).commands,
                cmds == old(state).commands@,
                *self == (Context { consumed: self.consumed, ..*old(self) }),
                palette_model(*state) == palette_keys(old(self).events@, old(self).consumed@, i as nat,
                    palette_model(*old(state)), cmds),
                forall|j: int| 0 <= j < n ==> #[trigger] self.consumed@[j] == (old(self).consumed@[j]
                    || (j < i && palette_claims_event(*old(self), j) && old(self).events@[j] is Key)),
            decreases n - i,
        {
            if !self.consumed[i] {
                match &self.events[i] {
                    Event::Key(k) => {
                        if k.kind == KeyEventKind::Press {
                            let claimed = palette_key_step(state, k);
                            if claimed {
                                self.consumed.set(i, true);
                            }
                        }
                    },
                    _ => {},
                }
            }
            i = i + 1;
        }
        let ghost keyed = palette_model(*state);
        let mut i: usize = 0;
        while i < n
            invariant
                n == self.events@.len(),
                i <= n,
                self.wf(),
                self.consumed@.len() == n,
                state.commands == old(state).commands,
                cmds == old(state).commands@,
                *self == (Context { consumed: self.consumed, ..*old(self) }),
                keyed == palette_keys(old(self).events@, old(self).consumed@, n as nat, palette_model(*old(state)), cmds),
                palette_model(*state) == palette_pastes(old(self).events@, old(self).consumed@, i as nat, keyed),
                forall|j: int| 0 <= j < n ==> #[trigger] self.consumed@[j] == (old(self).consumed@[j]
                    || (palette_claims_event(*old(self), j) && (old(self).events@[j] is Key || j < i))),
            decreases n - i,
        {
            match &self.events[i] {
                Event::Paste(text) => {
                    if !self.consumed[i] {
                        palette_paste_step(state, text);
                        self.consumed.set(i, true);
                    }
                },
                _ => {},
            }
            i = i + 1;
        }
        proof {
            assert forall|j: int| 0 <= j < self.consumed@.len() implies #[trigger] self.consumed@[j]
                == (old(self).consumed@[j] || palette_claims_event(*old(self), j)) by {
                match old(self).events@[j] {
                    Event::Key(_) => {},
                    Event::Paste(_) => {},
                    _ => {},
                }
            }
        }
    }
}

/// What drawing a palette over `s` appends to `before`: a modal overlay
/// holding the panel, which holds the framed query line and then the
/// listed lines.
pub open spec fn palette_drawn(before: Context, after: Context, s: CommandPaletteState) -> bool {
    let n0 = before.commands@.len() as int;
    let t = before.theme;
    let m = palette_matches(s.commands@, s.input@);
    let ql = query_line(s.input@, t);
    let lines = palette_lines(s.commands@, m, s.selected as int, t);
    let ic = before.interaction_count;
    let c = after.commands@;
    &&& c.len() == n0 + 10 + lines.len()
    &&& c.take(n0) == before.commands@
    &&& c[n0] == Command::InteractionMarker(ic)
    &&& c[n0 + 1] == Command::BeginOverlay { modal: true }
    &&& c[n0 + 2] == Command::InteractionMarker(sat_inc(ic))
    &&& c[n0 + 3] == Command::BeginContainer(panel_box(t))
    &&& c[n0 + 4] == Command::InteractionMarker(sat_inc(sat_inc(ic)))
    &&& c[n0 + 5] == Command::BeginContainer(query_box(t))
    &&& is_plain_text(c[n0 + 6], ql.0, ql.1)
    &&& c[n0 + 7] == Command::EndContainer
    &&& texts_from(c, n0 + 8, lines)
    &&& c[n0 + 8 + lines.len()] == Command::EndContainer
    &&& c[n0 + 9 + lines.len()] == Command::EndOverlay
    &&& after == (Context {
        commands: after.commands,
        interaction_count: sat_inc(sat_inc(sat_inc(ic))),
        modal_active: true,
        modal_focus_start: before.focus_count,
        modal_focus_count: 0,
        last_text_idx: None,
        ..before
    })
}

/// Every index among the matches of the first `n` commands is below `n`.
proof fn lemma_matches_below(cmds: Seq<PaletteCommand>, q: Seq<char>, n: int)
    requires
        0 <= n <= cmds.len(),
        cmds.len() <= usize::MAX,
    ensures
        forall|j: int| 0 <= j < matches_upto(cmds, q, n).len() ==> #[trigger] matches_upto(cmds, q, n)[j] < n,
    decreases n,
{
    if n > 0 {
        lemma_matches_below(cmds, q, n - 1);
        let prev = matches_upto(cmds, q, n - 1);
        let cur = matches_upto(cmds, q, n);
        assert forall|j: int| 0 <= j < cur.len() implies #[trigger] cur[j] < n by {
            if j < prev.len() {
                assert(cur[j] == prev[j]);
            }
        }
    }
}

/// The text of a command's row (see [`command_row`]).
fn row_text(cmd: &PaletteCommand, highlighted: bool) -> (r: String)
    ensures
        r@ == command_row(*cmd, highlighted),
{
    proof {
        reveal_strlit("▸ ");
        reveal_strlit("  ");
        reveal_strlit("  (");
        reveal_strlit(")");
    }
    let mut row = String::new();
    if highlighted {
        row.append("▸ ");
    } else {
        row.append("  ");
    }
    row.append(cmd.label.as_str());
    match &cmd.shortcut {
        Some(sc) => {
            row.append("  (");
            row.append(sc.as_str());
            row.append(")");
        },
        None => {},
    }
    proof {
        if cmd.shortcut is Some {
            assert(row@ =~= command_row(*cmd, highlighted));
        } else {
            assert(row@ =~= command_row(*cmd, highlighted));
        }
    }
    row
}

impl Context {
    /// Draw the palette: a modal overlay with the panel, the framed query
    /// line, and the matching rows (the highlighted one with its
    /// description) or a note that nothing matches.
    #[verifier::rlimit(100)]
    #[verifier::spinoff_prover]
    fn palette_draw(&mut self, state: &CommandPaletteState)
        requires
            old(self).wf(),
            old(self).overlay_depth < u32::MAX,
        ensures
            final(self).wf(),
            palette_drawn(*old(self), *final(self), *state),
    {
        let t = self.theme;
        let ghost n0 = self.commands@.len() as int;
        let ghost ic = self.interaction_count;
        proof {
            crate::style::lemma_single_flags();
            reveal_strlit("Type to search...");
            reveal_strlit("  No matching commands");
            reveal_strlit("    ");
            assert("  No matching commands"@ =~= seq![' ', ' '] + "No matching commands"@) by {
                reveal_strlit("No matching commands");
            }
        }
        let ghost c0 = self.commands@;
        let id1 = self.next_interaction_id();
        let ghost c0b = self.commands@;
        self.commands.push(Command::BeginOverlay { modal: true });
        self.overlay_depth = self.overlay_depth + 1;
        self.modal_active = true;
        self.modal_focus_start = self.focus_count;
        let ghost c1 = self.commands@;
        let id2 = self.next_interaction_id();
        let ghost c1b = self.commands@;
        let mut panel = plain_container_args(Direction::Column, 0, t.border);
        panel.border = Some(Border::Rounded);
        panel.border_style = Style::new().fg(t.primary);
        let pad = t.spacing.xs();
        panel.padding = Padding { top: pad, right: pad, bottom: pad, left: pad };
        panel.constraints = Constraints { max_width: Some(60), ..panel.constraints };
        self.begin_container(panel);
        let ghost c2 = self.commands@;
        let id3 = self.next_interaction_id();
        let ghost c2b = self.commands@;
        let mut qbox = plain_container_args(Direction::Column, 0, t.border);
        qbox.border = Some(Border::Rounded);
        qbox.border_style = Style::new().fg(t.primary);
        qbox.padding = Padding { top: 0, right: pad, bottom: 0, left: pad };
        self.begin_container(qbox);
        let ghost c3 = self.commands@;
        if state.input.as_str().unicode_len() == 0 {
            self.styled("Type to search...", Style::new().dim().fg(t.text_dim));
        } else {
            self.styled(state.input.as_str(), Style::new().fg(t.text));
        }
        let ghost c4 = self.commands@;
        self.end_container();
        let ghost head = self.commands@;
        let ghost snap = *self;
        proof {
            assert(panel == panel_box(t));
            assert(qbox == query_box(t));
            assert(c4.drop_last() == c3);
            assert(c0b == c0.push(Command::InteractionMarker(id1)));
            assert(c1 == c0b.push(Command::BeginOverlay { modal: true }));
            assert(c1b == c1.push(Command::InteractionMarker(id2)));
            assert(c2 == c1b.push(Command::BeginContainer(panel)));
            assert(c2b == c2.push(Command::InteractionMarker(id3)));
            assert(c3 == c2b.push(Command::BeginContainer(qbox)));
            assert(c4 =~= c3.push(c4.last()));
            assert(head == c4.push(Command::EndContainer));
            assert(head =~= old(self).commands@ + seq![Command::InteractionMarker(id1), Command::BeginOverlay { modal: true },
                Command::InteractionMarker(id2), Command::BeginContainer(panel), Command::InteractionMarker(id3),
                Command::BeginContainer(qbox), c4.last(), Command::EndContainer]);
            let ql = query_line(state.input@, t);
            assert(is_plain_text(c4.last(), ql.0, ql.1));
        }
        let m = state.matching_indices();
        let _ncmd = state.commands.len();
        let ghost cmds = state.commands@;
        proof {
            lemma_matches_below(cmds, state.input@, cmds.len() as int);
        }
        let ghost sel = state.selected as int;
        let ghost lines = palette_lines(cmds, m@, sel, t);
        if m.len() == 0 {
            self.styled("  No matching commands", Style::new().dim().fg(t.text_dim));
            proof {
                assert(self.commands@.drop_last() == head);
                assert(self.commands@[n0 + 8] == self.commands@.last());
            }
        } else {
            let mut k: usize = 0;
            while k < m.len()
                invariant
                    k <= m@.len(),
                    self.wf(),
                    head.len() == n0 + 8,
                    self.commands@.take(n0 + 8) == head,
                    t == old(self).theme,
                    cmds == state.commands@,
                    sel == state.selected,
                    m@ == palette_matches(cmds, state.input@),
                    forall|j: int| 0 <= j < m@.len() ==> #[trigger] m@[j] < cmds.len(),
                    "    "@ == seq![' ', ' ', ' ', ' '],
                    self.commands@.len() == n0 + 8 + listed_lines(cmds, m@, sel, t, k as int).len(),
                    texts_from(self.commands@, n0 + 8, listed_lines(cmds, m@, sel, t, k as int)),
                    *self == (Context { commands: self.commands, last_text_idx: self.last_text_idx, ..snap }),
                decreases m@.len() - k,
            {
                let ghost before = self.commands@;
                let ghost prev = listed_lines(cmds, m@, sel, t, k as int);
                let idx = m[k];
                let cmd = &state.commands[idx];
                let hl = k == state.selected;
                let row = row_text(cmd, hl);
                if hl {
                    self.styled(row.as_str(), Style::new().bold().fg(t.primary));
                } else {
                    self.styled(row.as_str(), Style::new().fg(t.text));
                }
                let ghost mid = self.commands@;
                if hl && cmd.description.as_str().unicode_len() > 0 {
                    let mut desc = String::new();
                    desc.append("    ");
                    desc.append(cmd.description.as_str());
                    self.styled(desc.as_str(), Style::new().dim().fg(t.text_dim));
                    proof {
                        assert(desc@ =~= seq![' ', ' ', ' ', ' '] + cmd.description@);
                    }
                }
                proof {
                    crate::style::lemma_single_flags();
                    let now = listed_lines(cmds, m@, sel, t, k + 1);
                    let st = if hl { Style { fg: Some(t.primary), bg: None, modifiers: Modifiers(BOLD) } }
                        else { Style { fg: Some(t.text), bg: None, modifiers: Modifiers(0) } };
                    let has_desc = hl && cmd.description@.len() > 0;
                    let dseq = if has_desc {
                        seq![(seq![' ', ' ', ' ', ' '] + cmd.description@, faint(t))] } else { seq![] };
                    assert(cmds[m@[k as int] as int] == *cmd);
                    assert(now == prev + seq![(command_row(*cmd, hl), st)] + dseq);
                    assert(mid.drop_last() == before);
                    let c = self.commands@;
                    let base = n0 + 8;
                    assert(is_plain_text(mid[base + prev.len()], command_row(*cmd, hl), st)) by {
                        assert(mid[base + prev.len()] == mid.last());
                    }
                    if has_desc {
                        assert(c.drop_last() == mid);
                        assert(is_plain_text(c[base + prev.len() + 1], now[prev.len() + 1int].0, now[prev.len() + 1int].1)) by {
                            assert(c[base + prev.len() + 1] == c.last());
                        }
                    } else {
                        assert(c == mid);
                    }
                    assert forall|j: int| 0 <= j < c.len() - 1 && j < mid.len() implies c[j] == mid[j] by {
                        if has_desc {
                            assert(c.drop_last()[j] == c[j]);
                        }
                    }
                    assert forall|j: int| 0 <= j < before.len() implies mid[j] == before[j] by {
                        assert(mid.drop_last()[j] == mid[j]);
                    }
                    assert forall|j: int| 0 <= j < now.len() implies is_plain_text(#[trigger] c[base + j],
                        now[j].0, now[j].1) by {
                        if j < prev.len() {
                            assert(c[base + j] == mid[base + j]);
                            assert(mid[base + j] == before[base + j]);
                            assert(is_plain_text(before[base + j], prev[j].0, prev[j].1));
                        } else if j == prev.len() {
                            assert(c[base + j] == mid[base + j]);
                        }
                    }
                    assert(c.take(base) =~= head) by {
                        assert forall|j: int| 0 <= j < base implies c[j] == head[j] by {
                            assert(c[j] == mid[j]);
                            assert(mid[j] == before[j]);
                            assert(before.take(base)[j] == before[j]);
                        }
                    }
                }
                k = k + 1;
            }
        }
        let ghost body = self.commands@;
        self.end_container();
        self.modal_focus_count = 0;
        self.overlay_depth = self.overlay_depth - 1;
        self.commands.push(Command::EndOverlay);
        self.last_text_idx = None;
        proof {
            let c = self.commands@;
            assert(c.drop_last().drop_last() == body);
            assert forall|j: int| 0 <= j < body.len() implies c[j] == body[j] by {
                assert(c.drop_last().drop_last()[j] == body[j]);
            }
            assert(body.take(n0 + 8) == head);
            assert forall|j: int| 0 <= j < n0 + 8 implies c[j] == head[j] by {
                assert(body.take(n0 + 8)[j] == body[j]);
            }
            assert(c.take(n0) =~= old(self).commands@) by {
                assert forall|j: int| 0 <= j < n0 implies c[j] == old(self).commands@[j] by {
                    assert(head[j] == old(self).commands@[j]);
                }
            }
            assert forall|j: int| 0 <= j < lines.len() implies is_plain_text(#[trigger] c[n0 + 8 + j], lines[j].0, lines[j].1) by {
                assert(c[n0 + 8 + j] == body[n0 + 8 + j]);
            }
        }
    }
}

impl Context {
    /// A command palette. While it is closed nothing happens. While it is
    /// open, the highlight is first kept within the commands matching the
    /// query; then the frame's key presses apply in order (Esc closes, Up
    /// and Down move the highlight, Enter picks the highlighted command and
    /// closes, Backspace and typing edit the query and move the highlight
    /// to the top), then its pastes; and the palette is drawn as a modal.
    /// `changed` reports that a command was picked; `last_selected` says which.
    pub fn command_palette(&mut self, state: &mut CommandPaletteState) -> (r: Response)
        requires
            old(self).wf(),
            old(self).overlay_depth < u32::MAX,
        ensures
            final(self).wf(),
            !old(state).open ==> *final(self) == *old(self) && *final(state) == *old(state) && r == no_response(),
            old(state).open ==> {
                let ic = old(self).interaction_count;
                let n = old(self).events@.len() as nat;
                let st = palette_pastes(old(self).events@, old(self).consumed@, n, palette_keys(old(self).events@,
                    old(self).consumed@, n, palette_start(*old(state)), old(state).commands@));
                &&& palette_model(*final(state)) == st
                &&& final(state).commands == old(state).commands
                &&& final(self).consumed@.len() == old(self).consumed@.len()
                &&& forall|i: int| 0 <= i < final(self).consumed@.len() ==> #[trigger] final(self).consumed@[i]
                    == (old(self).consumed@[i] || palette_claims_event(*old(self), i))
                &&& r == Response { changed: st.4 is Some, ..final(self).spec_response_for(ic as int) }
                &&& exists|mid: Context| #[trigger] palette_drawn(mid, *final(self), *final(state))
                    && mid.commands@ == old(self).commands@.push(Command::InteractionMarker(ic))
                    && mid == (Context { commands: mid.commands, interaction_count: sat_inc(ic),
                        consumed: final(self).consumed, ..*old(self) })
            },
    {
        if !state.open {
            return Response::none();
        }
        state.last_selected = None;
        let id = self.next_interaction_id();
        let m = state.matching_indices();
        let top = if m.len() > 0 { m.len() - 1 } else { 0 };
        if state.selected > top {
            state.selected = top;
        }
        proof {
            assert(palette_model(*state) == palette_start(*old(state)));
        }
        self.palette_input(state);
        let ghost mid = *self;
        self.palette_draw(state);
        proof {
            assert(palette_drawn(mid, *self, *state));
        }
        let base = self.response_for(id);
        Response { changed: state.last_selected.is_some(), ..base }
    }
}


/// Up moves the highlight exactly one row towards the top (staying on the
/// top row), and leaves the query, the cursor, the open flag and the pick
/// alone; Down then brings it back to any row it left that is no further
/// down than the last match.
pub proof fn lemma_palette_up_one_row(st: PaletteModel, up: KeyEvent, down: KeyEvent, cmds: Seq<PaletteCommand>)
    requires
        up.code == KeyCode::Up,
        down.code == KeyCode::Down,
        st.3 >= 0,
    ensures
        ({
            let r = palette_key(st, up, cmds);
            &&& r.3 == (if st.3 > 0 { st.3 - 1 } else { 0 })
            &&& r.0 == st.0 && r.1 == st.1 && r.2 == st.2 && r.4 == st.4
            &&& (0 < st.3 && st.3 < palette_matches(cmds, st.0).len()) ==> palette_key(r, down, cmds).3 == st.3
        }),
{
}


/// Down moves the highlight one row down within the matches (staying on
/// the last); Enter on a highlighted match picks that command and closes
/// the palette; Esc closes it and picks nothing new; the query stays.
pub proof fn lemma_palette_down_enter_esc(st: PaletteModel, k: KeyEvent, cmds: Seq<PaletteCommand>)
    requires
        0 <= st.3 < palette_matches(cmds, st.0).len(),
    ensures
        ({
            let m = palette_matches(cmds, st.0);
            let r = palette_key(st, k, cmds);
            &&& k.code == KeyCode::Down ==> r.3 == (if st.3 + 1 < m.len() { st.3 + 1 } else { m.len() - 1 })
                && r.0 == st.0 && r.2 == st.2 && r.4 == st.4
            &&& k.code == KeyCode::Enter ==> r.4 == Some(m[st.3]) && !r.2 && r.0 == st.0 && r.3 == st.3
            &&& k.code == KeyCode::Esc ==> !r.2 && r.4 == st.4 && r.0 == st.0 && r.1 == st.1 && r.3 == st.3
        }),
{
}

/// Typing inserts the character at the cursor and Backspace removes the
/// cluster before it; either edit moves the highlight to the top row.
pub proof fn lemma_palette_edits(st: PaletteModel, k: KeyEvent, ch: char, cmds: Seq<PaletteCommand>)
    requires
        0 <= st.1 <= cluster_count(st.0),
    ensures
        ({
            let cl = grapheme_clusters(st.0);
            let r = palette_key(st, k, cmds);
            &&& k.code == KeyCode::Char(ch) && !global_shortcut(k.modifiers) ==>
                r.0 == concat(cl.take(st.1)) + seq![ch] + concat(cl.skip(st.1)) && r.3 == 0 && r.2 == st.2
            &&& k.code == KeyCode::Backspace && st.1 > 0 ==>
                r.0 == concat(cl.take(st.1 - 1)) + concat(cl.skip(st.1)) && r.1 == st.1 - 1 && r.3 == 0
            &&& k.code == KeyCode::Backspace && st.1 == 0 ==> r == st
        }),
{
}

} // verus!
