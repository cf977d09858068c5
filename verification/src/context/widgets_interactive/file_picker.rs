//! A file browser over a directory listing: keyboard navigation, entering
//! directories, going up, and picking a file. Reading the directory is left to
//! the caller, which does it whenever the state is marked dirty.
use vstd::prelude::*;
use crate::command::Command;
use crate::context::{plain_container, plain_container_args, Context, Response};
use crate::context::widgets_display::text::{decimal, is_plain_text, push_decimal};
use crate::context::widgets_interactive::collections::{handle_vertical_nav, nav_step};
use crate::event::{Event, KeyCode, KeyEventKind};
use crate::style::{Direction, Modifiers, Style, Theme, BOLD, DIM};

verus! {

/// What `std::path::Path::parent` gives for the path written `p`: the path
/// without its final component, or nothing for a root or an empty path.
/// Which characters separate components is fixed by the target the library
/// is built for (Unix and Windows paths differ), so the name stands for one
/// build target.
pub uninterp spec fn parent_path(p: Seq<char>) -> Option<Seq<char>>;

/// Calls `std::path::Path::parent` on `p`. Claimed: the result is
/// `parent_path(p)`, the parent being a leading part of `p` and so text too.
#[verifier::external_body]
fn parent_dir(p: &str) -> (r: Option<String>)
    ensures
        match r {
            Some(s) => parent_path(p@) == Some(s@),
            None => parent_path(p@) is None,
        },
{
    match std::path::Path::new(p).parent() {
        Some(q) => Some(q.to_string_lossy().into_owned()),
        None => None,
    }
}

/// One entry of a directory listing.
pub struct FileEntry {
    /// The entry's file name.
    pub name: String,
    /// The entry's full path.
    pub path: String,
    /// Whether the entry is a directory.
    pub is_dir: bool,
    /// Size in bytes (files only).
    pub size: u64,
}

/// A file browser: the directory shown, its entries, the highlighted row and
/// the file picked.
pub struct FilePickerState {
    /// The directory shown.
    pub current_dir: String,
    /// Its entries, as last read.
    pub entries: Vec<FileEntry>,
    /// The highlighted row.
    pub selected: usize,
    /// The file picked with Enter, if any.
    pub selected_file: Option<String>,
    /// Whether hidden entries are listed.
    pub show_hidden: bool,
    /// The entries must be read again: the directory or the hidden filter changed.
    pub dirty: bool,
}

/// The text of an optional string.
pub open spec fn opt_text(o: Option<String>) -> Option<Seq<char>> {
    match o {
        Some(s) => Some(s@),
        None => None,
    }
}

impl FilePickerState {
    /// A browser of `dir`, nothing listed yet and so marked dirty.
    pub fn new(dir: &str) -> (s: Self)
        ensures
            s.current_dir@ == dir@,
            s.entries@.len() == 0,
            s.selected == 0,
            s.selected_file is None,
            !s.show_hidden,
            s.dirty,
    {
        FilePickerState {
            current_dir: dir.to_owned(),
            entries: Vec::new(),
            selected: 0,
            selected_file: None,
            show_hidden: false,
            dirty: true,
        }
    }

}

/// Whether a name is hidden: it starts with a dot.
pub open spec fn is_hidden_name(name: Seq<char>) -> bool {
    name.len() > 0 && name[0] == '.'
}

/// The entries a browser lists from a directory listing: every one when
/// hidden entries are shown, else those whose names do not start with a
/// dot; in the listing's order.
pub open spec fn listed(entries: Seq<FileEntry>, show_hidden: bool) -> Seq<FileEntry>
    decreases entries.len(),
{
    if entries.len() == 0 {
        seq![]
    } else {
        let rest = listed(entries.drop_first(), show_hidden);
        if show_hidden || !is_hidden_name(entries[0].name@) { seq![entries[0]] + rest } else { rest }
    }
}

impl FilePickerState {
    /// Take a fresh listing of `current_dir`: keep the entries that
    /// `show_hidden` admits, in order, and clear `dirty`.
    pub fn set_listing(&mut self, raw: Vec<FileEntry>)
        ensures
            final(self).entries@ == listed(raw@, old(self).show_hidden),
            !final(self).dirty,
            final(self).current_dir == old(self).current_dir,
            final(self).selected == old(self).selected,
            final(self).selected_file == old(self).selected_file,
            final(self).show_hidden == old(self).show_hidden,
    {
        let ghost orig = raw@;
        let mut raw = raw;
        let mut out: Vec<FileEntry> = Vec::new();
        while raw.len() > 0
            invariant
                out@ + listed(raw@, self.show_hidden) == listed(orig, self.show_hidden),
                self.show_hidden == old(self).show_hidden,
            decreases raw@.len(),
        {
            let ghost r0 = raw@;
            let e = raw.remove(0);
            proof {
                assert(raw@ =~= r0.drop_first());
            }
            let hidden = e.name.as_str().unicode_len() > 0 && e.name.as_str().get_char(0) == '.';
            if self.show_hidden || !hidden {
                let ghost o0 = out@;
                out.push(e);
                proof {
                    assert(out@ + listed(raw@, self.show_hidden) =~= o0 + (seq![r0[0]] + listed(raw@, self.show_hidden)));
                }
            }
        }
        self.entries = out;
        self.dirty = false;
        proof {
            assert(out@ + listed(raw@, self.show_hidden) =~= out@);
        }
    }
}

/// Highlighted row, directory, picked file, hidden flag, dirty flag, and
/// whether a file was picked this frame, while keys are handled.
pub type PickerModel = (int, Seq<char>, Option<Seq<char>>, bool, bool, bool);

/// One key press applied to a browser over `entries`: Up/`k` and Down/`j`
/// move the highlight, Enter opens the highlighted directory or picks the
/// highlighted file, Backspace goes to the parent directory, `h` flips the
/// hidden filter, Esc drops the picked file.
pub open spec fn picker_key(st: PickerModel, code: KeyCode, entries: Seq<FileEntry>) -> PickerModel {
    let (sel, dir, file, hidden, dirty, picked) = st;
    let len = entries.len();
    match code {
        KeyCode::Up | KeyCode::Down => if len > 0 { (nav_step(sel, len - 1, code), dir, file, hidden, dirty, picked) } else { st },
        KeyCode::Enter => if 0 <= sel < len {
            if entries[sel].is_dir {
                (0, entries[sel].path@, None, hidden, true, picked)
            } else {
                (sel, dir, Some(entries[sel].path@), hidden, dirty, true)
            }
        } else {
            st
        },
        KeyCode::Backspace => match parent_path(dir) {
            Some(p) => (0, p, None, hidden, true, picked),
            None => st,
        },
        KeyCode::Esc => (sel, dir, None, hidden, dirty, picked),
        KeyCode::Char(c) => if c == 'k' || c == 'j' {
            if len > 0 { (nav_step(sel, len - 1, code), dir, file, hidden, dirty, picked) } else { st }
        } else if c == 'h' {
            (0, dir, file, !hidden, true, picked)
        } else {
            st
        },
        _ => st,
    }
}

/// The keys a focused browser claims.
pub open spec fn picker_codes() -> Seq<KeyCode> {
    seq![KeyCode::Up, KeyCode::Char('k'), KeyCode::Down, KeyCode::Char('j'), KeyCode::Enter,
        KeyCode::Backspace, KeyCode::Char('h'), KeyCode::Esc]
}

/// The unclaimed key presses among the first `n` events applied in order.
pub open spec fn picker_keys(events: Seq<Event>, consumed: Seq<bool>, n: nat, st: PickerModel, entries: Seq<FileEntry>) -> PickerModel
    decreases n,
{
    if n == 0 {
        st
    } else {
        let prev = picker_keys(events, consumed, (n - 1) as nat, st, entries);
        if consumed[n - 1] {
            prev
        } else {
            match events[n - 1] {
                Event::Key(k) => if k.kind == KeyEventKind::Press { picker_key(prev, k.code, entries) } else { prev },
                _ => prev,
            }
        }
    }
}

/// The browser's state as a model, with `picked` for this frame.
pub open spec fn picker_model(s: FilePickerState, picked: bool) -> PickerModel {
    (s.selected as int, s.current_dir@, opt_text(s.selected_file), s.show_hidden, s.dirty, picked)
}

/// The text of an entry's row: directories marked, files with their size.
pub open spec fn entry_row(e: FileEntry) -> Seq<char> {
    if e.is_dir {
        seq!['▸', ' '] + e.name@
    } else {
        seq![' ', ' '] + e.name@ + seq![' ', ' '] + decimal(e.size as nat) + seq![' ', 'B']
    }
}

/// The style of an entry's row.
pub open spec fn entry_style(t: Theme, selected: bool, focused: bool) -> Style {
    if selected {
        Style { fg: Some(t.primary), bg: None, modifiers: Modifiers(if focused { BOLD } else { 0 }) }
    } else {
        Style { fg: Some(t.text), bg: None, modifiers: Modifiers(0) }
    }
}

/// The dim style of the directory line and of the empty-listing note.
pub open spec fn note_style(t: Theme) -> Style {
    Style { fg: Some(t.text_dim), bg: None, modifiers: Modifiers(DIM) }
}

/// The commands a browser draws for `s`: a column with the directory line,
/// then one row per entry (or a note that there is none), then its close.
pub open spec fn picker_drawn(cmds: Seq<Command>, t: Theme, s: FilePickerState, focused: bool) -> bool {
    let len = s.entries@.len();
    let rows: int = if len == 0 { 1 } else { len as int };
    &&& cmds.len() == rows + 3
    &&& cmds[0] == Command::BeginContainer(plain_container(Direction::Column, 0, t.border))
    &&& is_plain_text(cmds[1], seq!['D', 'i', 'r', ':', ' '] + s.current_dir@, note_style(t))
    &&& (len == 0 ==> is_plain_text(cmds[2], seq!['(', 'e', 'm', 'p', 't', 'y', ')'], note_style(t)))
    &&& forall|k: int| 0 <= k < len ==> is_plain_text(#[trigger] cmds[2 + k], entry_row(s.entries@[k]),
        entry_style(t, k == s.selected, focused))
    &&& cmds[rows + 2] == Command::EndContainer
}

impl Context {
    /// Apply this frame's unclaimed key presses to `state`, claiming the
    /// browser's keys; returns whether a file was picked.
    fn picker_handle_keys(&mut self, state: &mut FilePickerState) -> (picked: bool)
        requires
            old(self).wf(),
            old(state).entries@.len() > 0 ==> old(state).selected < old(state).entries@.len(),
        ensures
            final(self).wf(),
            picker_model(*final(state), picked) == picker_keys(old(self).events@, old(self).consumed@,
                old(self).events@.len() as nat, picker_model(*old(state), false), old(state).entries@),
            final(state).entries == old(state).entries,
            final(self).consumed@.len() == old(self).consumed@.len(),
            forall|i: int| 0 <= i < final(self).consumed@.len() ==> #[trigger] final(self).consumed@[i]
                == (old(self).consumed@[i] || old(self).live_press_in(i, picker_codes())),
            *final(self) == (Context { consumed: final(self).consumed, ..*old(self) }),
    {
        let ghost entries = old(state).entries@;
        let ghost init = picker_model(*old(state), false);
        let n = self.events.len();
        let len = state.entries.len();
        let mut picked = false;
        let mut i: usize = 0;
        while i < n
            invariant
                n == self.events@.len(),
                i <= n,
                self.wf(),
                self.consumed@.len() == n,
                len == state.entries@.len(),
                state.entries == old(state).entries,
                entries == old(state).entries@,
                len > 0 ==> state.selected < len,
                *self == (Context { consumed: self.consumed, ..*old(self) }),
                picker_model(*state, picked) == picker_keys(old(self).events@, old(self).consumed@, i as nat, init, entries),
                forall|j: int| 0 <= j < n ==> #[trigger] self.consumed@[j] == (old(self).consumed@[j]
                    || (j < i && old(self).live_press_in(j, picker_codes()))),
            decreases n - i,
        {
            if !self.consumed[i] {
                match &self.events[i] {
                    Event::Key(k) => {
                        if k.kind == KeyEventKind::Press {
                            let code = k.code;
                            let claimed = match code {
                                KeyCode::Up | KeyCode::Down => {
                                    if len > 0 {
                                        let _ = handle_vertical_nav(&mut state.selected, len - 1, code);
                                    }
                                    true
                                },
                                KeyCode::Enter => {
                                    if state.selected < len {
                                        let sel = state.selected;
                                        if state.entries[sel].is_dir {
                                            state.current_dir = state.entries[sel].path.clone();
                                            state.selected = 0;
                                            state.selected_file = None;
                                            state.dirty = true;
                                        } else {
                                            state.selected_file = Some(state.entries[sel].path.clone());
                                            picked = true;
                                        }
                                    }
                                    true
                                },
                                KeyCode::Backspace => {
                                    match parent_dir(state.current_dir.as_str()) {
                                        Some(p) => {
                                            state.current_dir = p;
                                            state.selected = 0;
                                            state.selected_file = None;
                                            state.dirty = true;
                                        },
                                        None => {},
                                    }
                                    true
                                },
                                KeyCode::Esc => {
                                    state.selected_file = None;
                                    true
                                },
                                KeyCode::Char(c) => {
                                    if c == 'k' || c == 'j' {
                                        if len > 0 {
                                            let _ = handle_vertical_nav(&mut state.selected, len - 1, code);
                                        }
                                        true
                                    } else if c == 'h' {
                                        state.show_hidden = !state.show_hidden;
                                        state.selected = 0;
                                        state.dirty = true;
                                        true
                                    } else {
                                        false
                                    }
                                },
                                _ => false,
                            };
                            proof {
                                let pc = picker_codes();
                                assert(pc[0] == KeyCode::Up && pc[1] == KeyCode::Char('k') && pc[2] == KeyCode::Down
                                    && pc[3] == KeyCode::Char('j') && pc[4] == KeyCode::Enter && pc[5] == KeyCode::Backspace
                                    && pc[6] == KeyCode::Char('h') && pc[7] == KeyCode::Esc);
                                if claimed {
                                    assert(pc.contains(code));
                                } else {
                                    assert(!pc.contains(code));
                                }
                            }
                            if claimed {
                                self.consumed.set(i, true);
                            }
                        }
                    },
                    _ => {},
                }
            }
            i = i + 1;
        }
        picked
    }
}

/// The model a browser starts the frame's keys from: the highlight kept on an
/// entry when there is one, no file picked yet this frame.
pub open spec fn picker_start(s: FilePickerState) -> PickerModel {
    let len = s.entries@.len();
    let sel = if len > 0 && s.selected >= len { len - 1 } else { s.selected as int };
    (sel, s.current_dir@, opt_text(s.selected_file), s.show_hidden, s.dirty, false)
}

/// The model after the frame's keys: applied only when the browser is focused.
pub open spec fn picker_after(c: Context, s: FilePickerState, focused: bool) -> PickerModel {
    if focused {
        picker_keys(c.events@, c.consumed@, c.events@.len() as nat, picker_start(s), s.entries@)
    } else {
        picker_start(s)
    }
}

impl Context {
    /// A file browser's input for the frame. Its entries are read by the
    /// caller, before this call and again before [`Context::file_picker_view`]
    /// whenever `state.dirty` is set. The highlight is first kept on an entry;
    /// when focused, Up/`k` and Down/`j` move it, Enter opens the highlighted
    /// directory or picks the highlighted file, Backspace goes to the parent
    /// directory, `h` shows or hides hidden entries, and Esc drops the picked
    /// file. `changed` reports that a file was picked this frame.
    pub fn file_picker(&mut self, state: &mut FilePickerState) -> (r: Response)
        requires
            old(self).wf(),
        ensures
            final(self).wf(),
            ({
                let focused = old(self).next_focusable_is_focused();
                let id = old(self).interaction_count;
                let st = picker_after(*old(self), *old(state), focused);
                let fc = old(self).focus_count;
                &&& picker_model(*final(state), r.changed) == st
                &&& final(state).entries == old(state).entries
                &&& r == Response { focused, changed: st.5, ..old(self).spec_response_for(id as int) }
                &&& final(self).consumed@.len() == old(self).consumed@.len()
                &&& forall|i: int| 0 <= i < final(self).consumed@.len() ==> #[trigger] final(self).consumed@[i]
                    == (old(self).consumed@[i] || (focused && old(self).live_press_in(i, picker_codes())))
                &&& final(self).commands@ == if focused {
                    old(self).commands@.push(Command::FocusMarker(fc)).push(Command::InteractionMarker(id))
                } else {
                    old(self).commands@.push(Command::InteractionMarker(id))
                }
                &&& final(self).focus_count == (if fc < usize::MAX { (fc + 1) as usize } else { usize::MAX })
                &&& final(self).interaction_count == (if id < usize::MAX { (id + 1) as usize } else { usize::MAX })
                &&& *final(self) == (Context {
                    commands: final(self).commands,
                    consumed: final(self).consumed,
                    interaction_count: final(self).interaction_count,
                    focus_count: final(self).focus_count,
                    ..*old(self)
                })
            }),
    {
        let len = state.entries.len();
        if len > 0 && state.selected >= len {
            state.selected = len - 1;
        }
        let ghost start = *state;
        let focused = self.register_focusable();
        let id = self.next_interaction_id();
        let base = self.response_for(id);
        let ghost opened = *self;
        let mut picked = false;
        if focused {
            picked = self.picker_handle_keys(state);
        }
        proof {
            assert(picker_model(start, false) == picker_start(*old(state)));
            assert(opened.events@ == old(self).events@ && opened.consumed@ == old(self).consumed@);
            if focused {
                assert forall|i: int| 0 <= i < self.consumed@.len() implies #[trigger] self.consumed@[i]
                    == (old(self).consumed@[i] || (focused && old(self).live_press_in(i, picker_codes()))) by {
                    assert(opened.live_press_in(i, picker_codes()) == old(self).live_press_in(i, picker_codes()));
                }
            }
        }
        Response { focused, changed: picked, ..base }
    }

    /// Draw a file browser: a column with the directory line, one row per
    /// entry (directories marked `▸`, files with their size in bytes), or
    /// `(empty)` when there is none. The highlighted row is in the primary
    /// color, bold when `focused`.
    pub fn file_picker_view(&mut self, state: &FilePickerState, focused: bool)
        requires
            old(self).wf(),
        ensures
            final(self).wf(),
            final(self).commands@.take(old(self).commands@.len() as int) == old(self).commands@,
            picker_drawn(final(self).commands@.skip(old(self).commands@.len() as int), old(self).theme, *state, focused),
            *final(self) == (Context { commands: final(self).commands, last_text_idx: None, ..*old(self) }),
    {
        let t = self.theme;
        let ghost n0 = self.commands@.len() as int;
        let note = Style::new().fg(t.text_dim).dim();
        let sel_style = if focused { Style::new().bold().fg(t.primary) } else { Style::new().fg(t.primary) };
        let plain_style = Style::new().fg(t.text);
        proof {
            crate::style::lemma_single_flags();
            reveal_strlit("Dir: ");
            reveal_strlit("(empty)");
            reveal_strlit("▸ ");
            reveal_strlit("  ");
            reveal_strlit(" B");
        }
        self.begin_container(plain_container_args(Direction::Column, 0, t.border));
        let ghost opened = self.commands@;
        let mut dir_line = String::new();
        dir_line.append("Dir: ");
        dir_line.append(state.current_dir.as_str());
        self.styled(dir_line.as_str(), note);
        let ghost start = self.commands@;
        proof {
            assert(dir_line@ =~= seq!['D', 'i', 'r', ':', ' '] + state.current_dir@);
            assert(start.drop_last() == opened);
            assert(start[n0] == opened[n0]);
            assert forall|j: int| 0 <= j < n0 implies start[j] == old(self).commands@[j] by {
                assert(start[j] == opened[j]);
            }
        }
        let len = state.entries.len();
        if len == 0 {
            self.styled("(empty)", note);
            proof {
                assert("(empty)"@ =~= seq!['(', 'e', 'm', 'p', 't', 'y', ')']);
                assert(is_plain_text(self.commands@[n0 + 2], seq!['(', 'e', 'm', 'p', 't', 'y', ')'], note));
                assert(self.commands@.drop_last() == start);
                assert forall|j: int| 0 <= j < n0 + 2 implies self.commands@[j] == start[j] by {
                    assert(self.commands@.drop_last()[j] == start[j]);
                }
            }
        } else {
        let mut k: usize = 0;
        while k < len
            invariant
                len > 0,
                len == state.entries@.len(),
                k <= len,
                self.wf(),
                self.commands@.len() == n0 + 2 + k,
                forall|j: int| 0 <= j < n0 + 2 ==> self.commands@[j] == start[j],
                start.len() == n0 + 2,
                t == old(self).theme,
                sel_style == entry_style(t, true, focused),
                plain_style == entry_style(t, false, focused),
                "▸ "@ == seq!['▸', ' '],
                "  "@ == seq![' ', ' '],
                " B"@ == seq![' ', 'B'],
                forall|j: int| 0 <= j < k ==> is_plain_text(#[trigger] self.commands@[n0 + 2 + j], entry_row(state.entries@[j]),
                    entry_style(t, j == state.selected, focused)),
                *self == (Context { commands: self.commands, last_text_idx: self.last_text_idx, ..*old(self) }),
            decreases len - k,
        {
            let ghost before = self.commands@;
            let e = &state.entries[k];
            let mut row = String::new();
            if e.is_dir {
                row.append("▸ ");
                row.append(e.name.as_str());
            } else {
                row.append("  ");
                row.append(e.name.as_str());
                row.append("  ");
                push_decimal(&mut row, e.size as u128);
                row.append(" B");
            }
            proof {
                if e.is_dir {
                    assert(row@ =~= entry_row(*e));
                } else {
                    assert(row@ =~= entry_row(*e));
                }
            }
            if k == state.selected {
                self.styled(row.as_str(), sel_style);
            } else {
                self.styled(row.as_str(), plain_style);
            }
            proof {
                assert(self.commands@.drop_last() == before);
                assert forall|j: int| 0 <= j < k + 1 implies is_plain_text(#[trigger] self.commands@[n0 + 2 + j],
                    entry_row(state.entries@[j]), entry_style(t, j == state.selected, focused)) by {
                    if j < k {
                        assert(self.commands@[n0 + 2 + j] == before[n0 + 2 + j]);
                    }
                }
                assert forall|j: int| 0 <= j < n0 + 2 implies self.commands@[j] == start[j] by {
                    assert(self.commands@[j] == before[j]);
                }
            }
            k = k + 1;
        }
        }
        let ghost body = self.commands@;
        self.end_container();
        proof {
            let c = self.commands@;
            assert(c.drop_last() == body);
            let d = c.skip(n0);
            let rows: int = if len == 0 { 1 } else { len as int };
            assert(d.len() == rows + 3);
            assert(forall|j: int| 0 <= j < n0 + 2 ==> body[j] == start[j]);
            assert(d[0] == c[n0]);
            assert(c[n0] == body[n0]);
            assert(d[1] == c[n0 + 1]);
            assert(c[n0 + 1] == body[n0 + 1]);
            if len == 0 {
                assert(d[2] == c[n0 + 2]);
            }
            assert forall|j: int| 0 <= j < len implies is_plain_text(#[trigger] d[2 + j], entry_row(state.entries@[j]),
                entry_style(t, j == state.selected, focused)) by {
                assert(d[2 + j] == c[n0 + 2 + j]);
                assert(c[n0 + 2 + j] == body[n0 + 2 + j]);
            }
            assert(d[rows + 2] == c[n0 + rows + 2]);
            assert(note == note_style(t));
            assert(d[0] == Command::BeginContainer(plain_container(Direction::Column, 0, t.border)));
            assert(is_plain_text(d[1], seq!['D', 'i', 'r', ':', ' '] + state.current_dir@, note_style(t)));
            assert(len == 0 ==> is_plain_text(d[2], seq!['(', 'e', 'm', 'p', 't', 'y', ')'], note_style(t)));
            assert(d[rows + 2] == Command::EndContainer);
            assert(c.take(n0) =~= old(self).commands@) by {
                assert forall|j: int| 0 <= j < n0 implies c[j] == old(self).commands@[j] by {
                    assert(c[j] == body[j]);
                    assert(body[j] == start[j]);
                }
            }
        }
    }
}


/// Enter on a directory opens it (highlight to the top, pick dropped,
/// listing to be read again); Enter on a file picks it and stays; Esc
/// drops the pick; `h` flips the hidden filter and asks for a new listing.
pub proof fn lemma_picker_keys(st: PickerModel, entries: Seq<FileEntry>)
    requires
        0 <= st.0 < entries.len(),
    ensures
        ({
            let e = entries[st.0];
            let r = picker_key(st, KeyCode::Enter, entries);
            &&& e.is_dir ==> r == (0int, e.path@, None::<Seq<char>>, st.3, true, st.5)
            &&& !e.is_dir ==> r == (st.0, st.1, Some(e.path@), st.3, st.4, true)
            &&& picker_key(st, KeyCode::Esc, entries) == (st.0, st.1, None::<Seq<char>>, st.3, st.4, st.5)
            &&& picker_key(st, KeyCode::Char('h'), entries) == (0int, st.1, st.2, !st.3, true, st.5)
        }),
{
}

} // verus!
