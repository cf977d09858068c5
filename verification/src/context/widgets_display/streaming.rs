//! Text and markdown that arrive in pieces, shown with a blinking cursor
//! while more is expected.
use vstd::prelude::*;
use crate::command::Command;
use crate::context::{no_response, plain_container, plain_container_args, Context, Response};
use crate::context::widgets_display::status::{repeat, repeat_str};
use crate::context::widgets_display::text::{appended_text, edited, inherited_fg, is_plain_text, TextEdit};
use crate::context::widgets_interactive::md_render::lemma_edit_keeps_others;
use crate::context::widgets_interactive::markdown::{parse_inline_segments, seg_views, segments_from};
use crate::context::widgets_interactive::md_blocks::{chars_string, find_dot_space, find_dot_space_exec, is_fence, is_triple, starts_with,
    lemma_dot_space_fits, line_views, split_lines, starts_with_exec, text_lines, trim_chars, trimmed};
use crate::context::widgets_interactive::md_table::{extends, lemma_extends_push, lemma_extends_trans};
use crate::style::{fg_style, with_mods, Color, Direction, Style, Theme, BOLD, DIM};
use crate::unicode::chars_of;

verus! {

/// Text being received, with its cursor blink state.
pub struct StreamingTextState {
    /// Everything received so far.
    pub content: String,
    /// More is expected.
    pub streaming: bool,
    /// Frames drawn while streaming.
    pub cursor_tick: u64,
    /// Whether the cursor shows this frame.
    pub cursor_visible: bool,
}

/// Markdown being received, with its cursor blink state and whether the
/// text so far ends inside a code fence.
pub struct StreamingMarkdownState {
    /// Everything received so far.
    pub content: String,
    /// More is expected.
    pub streaming: bool,
    /// Frames drawn while streaming.
    pub cursor_tick: u64,
    /// Whether the cursor shows this frame.
    pub cursor_visible: bool,
    /// The text so far ends inside a code fence.
    pub in_code_block: bool,
    /// The language named by that fence.
    pub code_block_lang: String,
}

/// The tick and cursor visibility after one more frame: while streaming the
/// tick advances (wrapping) and the cursor shows during even runs of eight
/// ticks; otherwise both stay.
pub open spec fn blink(streaming: bool, tick: u64, visible: bool) -> (u64, bool) {
    if streaming {
        let t = (if tick == u64::MAX { 0 } else { tick + 1 }) as u64;
        (t, (t / 8) % 2 == 0)
    } else {
        (tick, visible)
    }
}

fn blink_exec(streaming: bool, tick: u64, visible: bool) -> (r: (u64, bool))
    ensures
        r == blink(streaming, tick, visible),
{
    if streaming {
        let t = tick.wrapping_add(1);
        proof {
            assert(t == (if tick == u64::MAX { 0 } else { tick + 1 }) as u64) by (bit_vector)
                requires t == tick.wrapping_add(1);
        }
        (t, (t / 8) % 2 == 0)
    } else {
        (tick, visible)
    }
}

impl StreamingTextState {
    /// Nothing received and not streaming; the cursor shows.
    pub fn new() -> (s: Self)
        ensures
            s.content@.len() == 0,
            !s.streaming,
            s.cursor_tick == 0,
            s.cursor_visible,
    {
        StreamingTextState { content: String::new(), streaming: false, cursor_tick: 0, cursor_visible: true }
    }

    /// Start a new stream: the content is cleared and the cursor restarts.
    pub fn start(&mut self)
        ensures
            final(self).content@.len() == 0,
            final(self).streaming,
            final(self).cursor_tick == 0,
            final(self).cursor_visible,
    {
        self.content = String::new();
        self.streaming = true;
        self.cursor_tick = 0;
        self.cursor_visible = true;
    }

    /// Append a received piece.
    pub fn push(&mut self, chunk: &str)
        ensures
            final(self).content@ == old(self).content@ + chunk@,
            final(self).streaming == old(self).streaming,
            final(self).cursor_tick == old(self).cursor_tick,
            final(self).cursor_visible == old(self).cursor_visible,
    {
        self.content.append(chunk);
    }

    /// The stream is complete.
    pub fn finish(&mut self)
        ensures
            *final(self) == (StreamingTextState { streaming: false, ..*old(self) }),
    {
        self.streaming = false;
    }
}

impl StreamingMarkdownState {
    /// Nothing received and not streaming; the cursor shows.
    pub fn new() -> (s: Self)
        ensures
            s.content@.len() == 0,
            !s.streaming,
            s.cursor_tick == 0,
            s.cursor_visible,
            !s.in_code_block,
            s.code_block_lang@.len() == 0,
    {
        StreamingMarkdownState {
            content: String::new(),
            streaming: false,
            cursor_tick: 0,
            cursor_visible: true,
            in_code_block: false,
            code_block_lang: String::new(),
        }
    }

    /// Start a new stream: content and fence tracking are cleared and the
    /// cursor restarts.
    pub fn start(&mut self)
        ensures
            final(self).content@.len() == 0,
            final(self).streaming,
            final(self).cursor_tick == 0,
            final(self).cursor_visible,
            !final(self).in_code_block,
            final(self).code_block_lang@.len() == 0,
    {
        self.content = String::new();
        self.streaming = true;
        self.cursor_tick = 0;
        self.cursor_visible = true;
        self.in_code_block = false;
        self.code_block_lang = String::new();
    }

    /// Append a received piece.
    pub fn push(&mut self, chunk: &str)
        ensures
            final(self).content@ == old(self).content@ + chunk@,
            final(self).streaming == old(self).streaming,
            final(self).cursor_tick == old(self).cursor_tick,
            final(self).cursor_visible == old(self).cursor_visible,
            final(self).in_code_block == old(self).in_code_block,
            final(self).code_block_lang@ == old(self).code_block_lang@,
    {
        self.content.append(chunk);
    }

    /// The stream is complete.
    pub fn finish(&mut self)
        ensures
            final(self).streaming == false,
            final(self).content@ == old(self).content@,
            final(self).cursor_tick == old(self).cursor_tick,
            final(self).cursor_visible == old(self).cursor_visible,
            final(self).in_code_block == old(self).in_code_block,
            final(self).code_block_lang@ == old(self).code_block_lang@,
    {
        self.streaming = false;
    }
}

impl Context {
    /// Streaming text: the content wrapped, then `▌` in the primary color
    /// while streaming and the cursor shows. With nothing received yet while
    /// streaming, only the cursor (or a space when it is hidden) is drawn.
    pub fn streaming_text(&mut self, state: &mut StreamingTextState) -> (r: Response)
        requires
            old(self).wf(),
        ensures
            final(self).wf(),
            r == no_response(),
            ({
                let (tick, vis) = blink(old(state).streaming, old(state).cursor_tick, old(state).cursor_visible);
                let n = old(self).commands@.len() as int;
                let c = final(self).commands@;
                let t = old(self).theme;
                &&& *final(state) == (StreamingTextState { cursor_tick: tick, cursor_visible: vis, ..*old(state) })
                &&& if old(state).content@.len() == 0 && old(state).streaming {
                    &&& c.len() == n + 1
                    &&& c.take(n) == old(self).commands@
                    &&& is_plain_text(c[n], if vis { seq!['▌'] } else { seq![' '] }, fg_style(t.primary))
                } else if old(state).content@.len() > 0 {
                    let cur = old(state).streaming && vis;
                    &&& c.len() == n + 1 + (if cur { 1int } else { 0 })
                    &&& c.take(n) == old(self).commands@
                    &&& c[n] matches Command::Text { content, style, wrap, .. } && content@ == old(state).content@ && wrap
                        && style == fg_style(crate::context::widgets_display::text::inherited_fg(
                            old(self).text_color_stack@, t.text))
                    &&& cur ==> is_plain_text(c[n + 1], seq!['▌'], fg_style(t.primary))
                } else {
                    c == old(self).commands@
                }
            }),
            *final(self) == (Context { commands: final(self).commands, last_text_idx: final(self).last_text_idx,
                ..*old(self) }),
    {
        let (tick, vis) = blink_exec(state.streaming, state.cursor_tick, state.cursor_visible);
        state.cursor_tick = tick;
        state.cursor_visible = vis;
        let primary = self.theme.primary;
        proof {
            reveal_strlit("▌");
            reveal_strlit(" ");
            assert("▌"@ =~= seq!['▌']);
            assert(" "@ =~= seq![' ']);
        }
        let empty = state.content.as_str().unicode_len() == 0;
        let _ = self.commands.len();
        let ghost n = self.commands@.len() as int;
        if empty && state.streaming {
            let cursor: &str = if vis { "▌" } else { " " };
            self.styled(cursor, Style::new().fg(primary));
            proof { assert(self.commands@.take(n) =~= self.commands@.drop_last()); }
            return Response::none();
        }
        if !empty {
            self.text(state.content.as_str());
            let ghost c1 = *self;
            self.wrap();
            let ghost c2 = *self;
            proof {
                assert(c1.commands@.take(n) =~= old(self).commands@);
                assert(c2.commands@[n] == c2.commands@.last());
                assert(c1.last_text_idx == Some(n as usize));
                assert(edited(c1.commands@[n], c2.commands@[n], TextEdit::Wrap));
                assert forall|j: int| 0 <= j < n implies c2.commands@[j] == c1.commands@[j] by {
                    lemma_edit_keeps_others(c1, c2, TextEdit::Wrap, n, j);
                }
            }
            if state.streaming && vis {
                self.styled("▌", Style::new().fg(primary));
                proof {
                    assert(self.commands@.drop_last() == c2.commands@);
                    assert(self.commands@[n] == c2.commands@[n]);
                    assert forall|j: int| 0 <= j < n implies self.commands@[j] == old(self).commands@[j] by {
                        assert(self.commands@[j] == c2.commands@[j]);
                        assert(c1.commands@.take(n)[j] == c1.commands@[j]);
                    }
                    assert(self.commands@.take(n) =~= old(self).commands@);
                }
            } else {
                proof {
                    assert forall|j: int| 0 <= j < n implies self.commands@[j] == old(self).commands@[j] by {
                        assert(c1.commands@.take(n)[j] == c1.commands@[j]);
                    }
                    assert(self.commands@.take(n) =~= old(self).commands@);
                }
            }
        }
        Response::none()
    }
}


/// Whether the text so far is inside a code fence, and its language, after
/// one more line: a fence line opens (naming the language after the
/// backticks, trimmed) or closes one.
pub open spec fn fence_step(st: (bool, Seq<char>), line: Seq<char>) -> (bool, Seq<char>) {
    let t = trimmed(line);
    if st.0 {
        if is_fence(t) { (false, seq![]) } else { st }
    } else if is_fence(t) {
        (true, trimmed(t.skip(3)))
    } else {
        st
    }
}

/// The fence state after the first `k` lines, starting outside any fence.
pub open spec fn fence_scan(lines: Seq<Seq<char>>, k: int) -> (bool, Seq<char>)
    decreases k,
{
    if k <= 0 || k > lines.len() { (false, seq![]) } else { fence_step(fence_scan(lines, k - 1), lines[k - 1]) }
}

/// `after` differs from `before` only in its draw list, style-chain target
/// and interaction slots.
pub open spec fn draw_frame(before: Context, after: Context) -> bool {
    &&& after.wf()
    &&& extends(before.commands@, after.commands@)
    &&& after == (Context {
        commands: after.commands,
        last_text_idx: after.last_text_idx,
        interaction_count: after.interaction_count,
        ..before
    })
}

proof fn lemma_draw_frame_trans(a: Context, b: Context, c: Context)
    requires
        draw_frame(a, b),
        draw_frame(b, c),
    ensures
        draw_frame(a, c),
{
    crate::context::widgets_interactive::md_table::lemma_extends_trans(a.commands@, b.commands@, c.commands@);
}


/// `▌` when `cursor`, else nothing.
pub open spec fn cursor_mark(cursor: bool) -> Seq<char> {
    if cursor { seq!['▌'] } else { seq![] }
}

/// An earlier command stays where it was when more are appended.
proof fn lemma_extends_at(a: Seq<Command>, b: Seq<Command>, j: int)
    requires
        extends(a, b),
        0 <= j < a.len(),
    ensures
        b[j] == a[j],
{
    assert(b.take(a.len() as int)[j] == b[j]);
}

/// 1 when there is a prefix, else 0.
pub open spec fn prefix_len(prefix: Option<Seq<char>>) -> int {
    if prefix is Some { 1 } else { 0 }
}

/// A line of runs from `lo` to `hi` in `c`: its own slot `id` and row, an
/// optional prefix in `text`, the runs, and `▌` in the primary color when
/// `cursor`.
pub open spec fn runs_line_at(c: Seq<Command>, lo: int, hi: int, prefix: Option<Seq<char>>, runs: Seq<(Seq<char>, Style)>,
    cursor: bool, text: Style, t: Theme, id: usize) -> bool {
    let p = prefix_len(prefix);
    let q = if cursor { 1int } else { 0 };
    &&& hi == lo + 3 + p + runs.len() + q
    &&& c[lo] == Command::InteractionMarker(id)
    &&& c[lo + 1] == Command::BeginContainer(plain_container(Direction::Row, 0, t.border))
    &&& (prefix matches Some(x) ==> is_plain_text(c[lo + 2], x, text))
    &&& forall|k: int| 0 <= k < runs.len() ==> is_plain_text(#[trigger] c[lo + 2 + p + k], runs[k].0, runs[k].1)
    &&& (cursor ==> is_plain_text(c[lo + 2 + p + runs.len()], seq!['▌'], fg_style(t.primary)))
    &&& c[hi - 1] == Command::EndContainer
}

/// A code line from `lo` to `hi` in `c`: its own slot and row holding two
/// spaces in the inherited color `inh`, the line in `code`, and the cursor.
pub open spec fn code_line_at(c: Seq<Command>, lo: int, hi: int, line: Seq<char>, cursor: bool, code: Style, t: Theme,
    inh: Color, id: usize) -> bool {
    let q = if cursor { 1int } else { 0 };
    &&& hi == lo + 5 + q
    &&& c[lo] == Command::InteractionMarker(id)
    &&& c[lo + 1] == Command::BeginContainer(plain_container(Direction::Row, 0, t.border))
    &&& is_plain_text(c[lo + 2], seq![' ', ' '], fg_style(inh))
    &&& is_plain_text(c[lo + 3], line, code)
    &&& (cursor ==> is_plain_text(c[lo + 4], seq!['▌'], fg_style(t.primary)))
    &&& c[hi - 1] == Command::EndContainer
}

impl Context {
    /// One styled text, with `▌` appended when `cursor`.
    fn styled_cursor(&mut self, s: &str, cursor: bool, style: Style)
        requires
            old(self).wf(),
        ensures
            draw_frame(*old(self), *final(self)),
            final(self).commands@.len() == old(self).commands@.len() + 1,
            is_plain_text(final(self).commands@[old(self).commands@.len() as int], s@ + cursor_mark(cursor), style),
    {
        let mut line = String::new();
        line.append(s);
        proof { reveal_strlit("▌"); }
        if cursor {
            line.append("▌");
        }
        proof { assert(line@ =~= s@ + cursor_mark(cursor)); }
        let ghost c0 = self.commands@;
        self.styled(line.as_str(), style);
        proof {
            crate::context::widgets_interactive::md_table::lemma_extends_push(c0, self.commands@);
        }
    }

    /// A line of styled runs: an optional prefix in `text`, the runs, and
    /// `▌` in the primary color when `cursor`.
    fn runs_line(&mut self, prefix: Option<&str>, segs: &Vec<(String, Style)>, cursor: bool, text: Style)
        requires
            old(self).wf(),
        ensures
            draw_frame(*old(self), *final(self)),
            runs_line_at(final(self).commands@, old(self).commands@.len() as int, final(self).commands@.len() as int,
                match prefix { Some(p) => Some(p@), None => None }, seg_views(segs@), cursor, text, old(self).theme,
                old(self).interaction_count),
    {
        proof { reveal_strlit("▌"); assert("▌"@ =~= seq!['▌']); }
        let ghost c0 = *self;
        let primary = self.theme.primary;
        let id = self.open_group(Direction::Row, 0);
        proof {
            assert(self.commands@.take(c0.commands@.len() as int) =~= c0.commands@);
        }
        let ghost c1 = *self;
        match prefix {
            Some(p) => {
                self.styled(p, text);
                proof {
                    crate::context::widgets_interactive::md_table::lemma_extends_push(c1.commands@, self.commands@);
                }
            },
            None => {
                proof { assert(self.commands@.take(self.commands@.len() as int) =~= self.commands@); }
            },
        }
        let ghost c2 = *self;
        self.draw_runs(segs);
        let ghost c3 = *self;
        if cursor {
            self.styled("▌", Style::new().fg(primary));
            proof {
                crate::context::widgets_interactive::md_table::lemma_extends_push(c3.commands@, self.commands@);
            }
        } else {
            proof { assert(self.commands@.take(self.commands@.len() as int) =~= self.commands@); }
        }
        let ghost c4 = *self;
        let _ = self.close_group(id);
        proof {
            assert(self.commands@.drop_last() =~= c4.commands@);
            crate::context::widgets_interactive::md_table::lemma_extends_push(c4.commands@, self.commands@);
            lemma_draw_frame_trans(c0, c1, c2);
            lemma_draw_frame_trans(c0, c2, c3);
            lemma_draw_frame_trans(c0, c3, c4);
            lemma_draw_frame_trans(c0, c4, *self);
            let c = self.commands@;
            let n = c0.commands@.len() as int;
            let p = prefix_len(match prefix { Some(x) => Some(x@), None => None });
            let runs = seg_views(segs@);
            lemma_draw_frame_trans(c1, c2, c3);
            lemma_draw_frame_trans(c1, c3, c4);
            lemma_draw_frame_trans(c1, c4, *self);
            lemma_draw_frame_trans(c2, c3, c4);
            lemma_draw_frame_trans(c2, c4, *self);
            lemma_draw_frame_trans(c3, c4, *self);
            assert(c1.commands@ == c0.commands@.push(Command::InteractionMarker(id)).push(
                Command::BeginContainer(plain_container(Direction::Row, 0, c0.theme.border))));
            lemma_extends_at(c1.commands@, c, n);
            lemma_extends_at(c1.commands@, c, n + 1);
            assert(c2.commands@.len() == n + 2 + p);
            if p == 1 {
                lemma_extends_at(c2.commands@, c, n + 2);
                assert(c2.commands@[n + 2] == c2.commands@.last());
            }
            assert forall|k: int| 0 <= k < runs.len() implies is_plain_text(#[trigger] c[n + 2 + p + k], runs[k].0, runs[k].1) by {
                lemma_extends_at(c3.commands@, c, n + 2 + p + k);
            }
            if cursor {
                lemma_extends_at(c4.commands@, c, n + 2 + p + runs.len());
                assert(c4.commands@[n + 2 + p + runs.len()] == c4.commands@.last());
            }
        }
    }

    /// A line of a code block being received: indented, in the code style,
    /// with the cursor when `cursor`.
    fn stream_code_line(&mut self, line: &str, cursor: bool, code: Style)
        requires
            old(self).wf(),
        ensures
            draw_frame(*old(self), *final(self)),
            code_line_at(final(self).commands@, old(self).commands@.len() as int, final(self).commands@.len() as int, line@,
                cursor, code, old(self).theme, inherited_fg(old(self).text_color_stack@, old(self).theme.text),
                old(self).interaction_count),
    {
        proof { reveal_strlit("▌"); reveal_strlit("  "); assert("▌"@ =~= seq!['▌']); assert("  "@ =~= seq![' ', ' ']); }
        let ghost c0 = *self;
        let primary = self.theme.primary;
        let id = self.open_group(Direction::Row, 0);
        proof {
            assert(self.commands@.take(c0.commands@.len() as int) =~= c0.commands@);
        }
        let ghost c1 = *self;
        self.text("  ");
        let ghost c2 = *self;
        self.styled(line, code);
        let ghost c3 = *self;
        if cursor {
            self.styled("▌", Style::new().fg(primary));
            proof {
                crate::context::widgets_interactive::md_table::lemma_extends_push(c3.commands@, self.commands@);
            }
        } else {
            proof { assert(self.commands@.take(self.commands@.len() as int) =~= self.commands@); }
        }
        let ghost c4 = *self;
        let _ = self.close_group(id);
        proof {
            crate::context::widgets_interactive::md_table::lemma_extends_push(c1.commands@, c2.commands@);
            crate::context::widgets_interactive::md_table::lemma_extends_push(c2.commands@, c3.commands@);
            assert(self.commands@.drop_last() =~= c4.commands@);
            crate::context::widgets_interactive::md_table::lemma_extends_push(c4.commands@, self.commands@);
            lemma_draw_frame_trans(c0, c1, c2);
            lemma_draw_frame_trans(c0, c2, c3);
            lemma_draw_frame_trans(c0, c3, c4);
            lemma_draw_frame_trans(c0, c4, *self);
            let c = self.commands@;
            let n = c0.commands@.len() as int;
            lemma_draw_frame_trans(c1, c2, c3);
            lemma_draw_frame_trans(c1, c3, c4);
            lemma_draw_frame_trans(c1, c4, *self);
            lemma_draw_frame_trans(c2, c3, c4);
            lemma_draw_frame_trans(c2, c4, *self);
            lemma_draw_frame_trans(c3, c4, *self);
            lemma_extends_at(c1.commands@, c, n);
            lemma_extends_at(c1.commands@, c, n + 1);
            lemma_extends_at(c2.commands@, c, n + 2);
            assert(c2.commands@[n + 2] == c2.commands@.last());
            lemma_extends_at(c3.commands@, c, n + 3);
            assert(c3.commands@[n + 3] == c3.commands@.last());
            if cursor {
                lemma_extends_at(c4.commands@, c, n + 4);
                assert(c4.commands@[n + 4] == c4.commands@.last());
            }
        }
    }
}


/// One text from `lo` (and nothing more up to `hi`): `content` with the
/// cursor mark, in `st`.
pub open spec fn one_line_at(c: Seq<Command>, lo: int, hi: int, content: Seq<char>, cursor: bool, st: Style) -> bool {
    hi == lo + 1 && is_plain_text(c[lo], content + cursor_mark(cursor), st)
}

/// Inline text `item` after an optional `prefix`: one text in the body
/// style when it is at most one run, else a line of runs.
pub open spec fn inline_stream_at(c: Seq<Command>, lo: int, hi: int, prefix: Option<Seq<char>>, item: Seq<char>, cursor: bool,
    t: Theme, id: usize) -> bool {
    let text = fg_style(t.text);
    let segs = segments_from(item, 0, seq![], text, with_mods(text, BOLD), fg_style(t.accent));
    if segs.len() <= 1 {
        one_line_at(c, lo, hi, (match prefix { Some(x) => x, None => seq![] }) + item, cursor, text)
    } else {
        runs_line_at(c, lo, hi, prefix, segs, cursor, text, t, id)
    }
}

/// A received line `tr` (trimmed, outside a fence and opening none) drawn
/// from `lo` to `hi`: a blank (the cursor, or a space in `inh`), a rule, a
/// heading, a bullet, a numbered item or a paragraph, the cursor appended.
pub open spec fn plain_line_at(c: Seq<Command>, lo: int, hi: int, tr: Seq<char>, cursor: bool, t: Theme, inh: Color, id: usize)
    -> bool {
    let text = fg_style(t.text);
    let border = with_mods(fg_style(t.border), DIM);
    if tr.len() == 0 {
        hi == lo + 1 && if cursor { is_plain_text(c[lo], seq!['▌'], fg_style(t.primary)) }
            else { is_plain_text(c[lo], seq![' '], fg_style(inh)) }
    } else if tr == seq!['-', '-', '-'] || tr == seq!['*', '*', '*'] || tr == seq!['_', '_', '_'] {
        one_line_at(c, lo, hi, repeat(seq!['─'], 40), cursor, border)
    } else if starts_with(tr, seq!['#', '#', '#', ' ']) {
        one_line_at(c, lo, hi, tr.skip(4), cursor, with_mods(fg_style(t.accent), BOLD))
    } else if starts_with(tr, seq!['#', '#', ' ']) {
        one_line_at(c, lo, hi, tr.skip(3), cursor, with_mods(fg_style(t.secondary), BOLD))
    } else if starts_with(tr, seq!['#', ' ']) {
        one_line_at(c, lo, hi, tr.skip(2), cursor, with_mods(fg_style(t.primary), BOLD))
    } else if starts_with(tr, seq!['-', ' ']) || starts_with(tr, seq!['*', ' ']) {
        inline_stream_at(c, lo, hi, Some(seq![' ', ' ', '•', ' ']), tr.skip(2), cursor, t, id)
    } else if '0' <= tr[0] <= '9' && find_dot_space(tr, 0) is Some {
        let j = find_dot_space(tr, 0)->Some_0;
        inline_stream_at(c, lo, hi, Some(seq![' ', ' '] + tr.take(j) + seq!['.', ' ']), tr.skip(j + 2), cursor, t, id)
    } else {
        inline_stream_at(c, lo, hi, None, tr, cursor, t, id)
    }
}

/// Whether row `i` of `nl` rows carries the cursor: the last one, while it
/// shows and the text does not end with a line break.
pub open spec fn row_cursor(show: bool, trailing: bool, i: int, nl: int) -> bool {
    show && !trailing && i == nl - 1
}

/// The label a code fence's frame shows: `code`, or `code:` and the
/// language.
pub open spec fn fence_label(lang: Seq<char>) -> Seq<char> {
    if lang.len() == 0 { seq!['c', 'o', 'd', 'e'] } else { seq!['c', 'o', 'd', 'e', ':'] + lang }
}

/// Received line `line` drawn from `lo` to `hi` in `c`, inside a code fence
/// or not: a closing fence as `  └────`, a code line as a code row, an
/// opening fence as `  ┌─label─`, any other line as [`plain_line_at`]
/// states; the cursor appended when `cursor`.
pub open spec fn stream_row_at(c: Seq<Command>, lo: int, hi: int, line: Seq<char>, in_code: bool, cursor: bool, t: Theme,
    inh: Color, id: usize) -> bool {
    let tr = trimmed(line);
    let border = with_mods(fg_style(t.border), DIM);
    &&& 0 <= lo <= hi <= c.len()
    &&& if in_code {
        if is_fence(tr) {
            one_line_at(c, lo, hi, seq![' ', ' ', '└', '─', '─', '─', '─'], cursor, border)
        } else {
            code_line_at(c, lo, hi, line, cursor, fg_style(t.accent), t, inh, id)
        }
    } else if is_fence(tr) {
        one_line_at(c, lo, hi, seq![' ', ' ', '┌', '─'] + fence_label(trimmed(tr.skip(3))) + seq!['─'], cursor, border)
    } else {
        plain_line_at(c, lo, hi, tr, cursor, t, inh, id)
    }
}

proof fn lemma_runs_extends(c: Seq<Command>, c2: Seq<Command>, lo: int, hi: int, prefix: Option<Seq<char>>,
    runs: Seq<(Seq<char>, Style)>, cursor: bool, text: Style, t: Theme, id: usize)
    requires
        runs_line_at(c, lo, hi, prefix, runs, cursor, text, t, id),
        extends(c, c2),
        0 <= lo <= hi <= c.len(),
    ensures
        runs_line_at(c2, lo, hi, prefix, runs, cursor, text, t, id),
{
    let p = prefix_len(prefix);
    lemma_extends_at(c, c2, lo);
    lemma_extends_at(c, c2, lo + 1);
    if p == 1 {
        lemma_extends_at(c, c2, lo + 2);
    }
    assert forall|k: int| 0 <= k < runs.len() implies is_plain_text(#[trigger] c2[lo + 2 + p + k], runs[k].0, runs[k].1) by {
        assert(is_plain_text(c[lo + 2 + p + k], runs[k].0, runs[k].1));
        assert(lo + 2 + p + k < c.len());
        lemma_extends_at(c, c2, lo + 2 + p + k);
    }
    if cursor {
        lemma_extends_at(c, c2, lo + 2 + p + runs.len());
    }
    lemma_extends_at(c, c2, hi - 1);
}

proof fn lemma_inline_extends(c: Seq<Command>, c2: Seq<Command>, lo: int, hi: int, prefix: Option<Seq<char>>, item: Seq<char>,
    cursor: bool, t: Theme, id: usize)
    requires
        inline_stream_at(c, lo, hi, prefix, item, cursor, t, id),
        extends(c, c2),
        0 <= lo <= hi <= c.len(),
    ensures
        inline_stream_at(c2, lo, hi, prefix, item, cursor, t, id),
{
    let text = fg_style(t.text);
    let segs = segments_from(item, 0, seq![], text, with_mods(text, BOLD), fg_style(t.accent));
    if segs.len() <= 1 {
        lemma_extends_at(c, c2, lo);
    } else {
        lemma_runs_extends(c, c2, lo, hi, prefix, segs, cursor, text, t, id);
    }
}

/// A drawn row stays as it is when more is drawn after it.
proof fn lemma_row_extends(c: Seq<Command>, c2: Seq<Command>, lo: int, hi: int, line: Seq<char>, in_code: bool, cursor: bool,
    t: Theme, inh: Color, id: usize)
    requires
        stream_row_at(c, lo, hi, line, in_code, cursor, t, inh, id),
        extends(c, c2),
    ensures
        stream_row_at(c2, lo, hi, line, in_code, cursor, t, inh, id),
{
    let tr = trimmed(line);
    if lo < c.len() {
        lemma_extends_at(c, c2, lo);
    }
    if in_code {
        if !is_fence(tr) {
            lemma_extends_at(c, c2, lo + 1);
            lemma_extends_at(c, c2, lo + 2);
            lemma_extends_at(c, c2, lo + 3);
            if cursor {
                lemma_extends_at(c, c2, lo + 4);
            }
            lemma_extends_at(c, c2, hi - 1);
        }
    } else if !is_fence(tr) {
        if tr.len() == 0 || tr == seq!['-', '-', '-'] || tr == seq!['*', '*', '*'] || tr == seq!['_', '_', '_']
            || starts_with(tr, seq!['#', '#', '#', ' ']) || starts_with(tr, seq!['#', '#', ' '])
            || starts_with(tr, seq!['#', ' ']) {
        } else if starts_with(tr, seq!['-', ' ']) || starts_with(tr, seq!['*', ' ']) {
            lemma_inline_extends(c, c2, lo, hi, Some(seq![' ', ' ', '•', ' ']), tr.skip(2), cursor, t, id);
        } else if '0' <= tr[0] <= '9' && find_dot_space(tr, 0) is Some {
            let j = find_dot_space(tr, 0)->Some_0;
            lemma_inline_extends(c, c2, lo, hi, Some(seq![' ', ' '] + tr.take(j) + seq!['.', ' ']), tr.skip(j + 2), cursor, t, id);
        } else {
            lemma_inline_extends(c, c2, lo, hi, None, tr, cursor, t, id);
        }
    }
}

impl Context {
    /// One received markdown line outside a code fence that opens none:
    /// blank, rule, heading, bullet, numbered item or paragraph, with the
    /// cursor appended when `cursor`.
    fn stream_plain_line(&mut self, t: &Vec<char>, cursor: bool)
        requires
            old(self).wf(),
        ensures
            draw_frame(*old(self), *final(self)),
            plain_line_at(final(self).commands@, old(self).commands@.len() as int, final(self).commands@.len() as int, t@,
                cursor, old(self).theme, inherited_fg(old(self).text_color_stack@, old(self).theme.text),
                old(self).interaction_count),
    {
        let th = self.theme;
        let text = Style::new().fg(th.text);
        let bold = Style::new().fg(th.text).bold();
        let code = Style::new().fg(th.accent);
        let border = Style::new().fg(th.border).dim();
        let n = t.len();
        let ghost c0 = self.commands@;
        proof {
            reveal_strlit("▌"); reveal_strlit(" "); reveal_strlit("─"); reveal_strlit("  • "); reveal_strlit("  ");
            reveal_strlit(". ");
            assert("▌"@ =~= seq!['▌']);
            assert(" "@ =~= seq![' ']);
            assert("─"@ =~= seq!['─']);
            assert("  • "@ =~= seq![' ', ' ', '•', ' ']);
            crate::style::lemma_single_flags();
        }
        if n == 0 {
            if cursor {
                self.styled("▌", Style::new().fg(th.primary));
            } else {
                self.text(" ");
            }
            proof {
                lemma_extends_push(c0, self.commands@);
                assert(self.commands@[c0.len() as int] == self.commands@.last());
            }
            return;
        }
        if is_triple(t, '-') || is_triple(t, '*') || is_triple(t, '_') {
            let rule = repeat_str("─", 40);
            self.styled_cursor(rule.as_str(), cursor, border);
            return;
        }
        let h3 = ['#', '#', '#', ' '];
        let h2 = ['#', '#', ' '];
        let h1 = ['#', ' '];
        let dash = ['-', ' '];
        let star = ['*', ' '];
        proof {
            assert(h3@ =~= seq!['#', '#', '#', ' ']);
            assert(h2@ =~= seq!['#', '#', ' ']);
            assert(h1@ =~= seq!['#', ' ']);
            assert(dash@ =~= seq!['-', ' ']);
            assert(star@ =~= seq!['*', ' ']);
        }
        if starts_with_exec(t, &h3) {
            let h = chars_string(t, 4, n);
            proof { assert(h@ =~= t@.skip(4)); }
            self.styled_cursor(h.as_str(), cursor, Style::new().bold().fg(th.accent));
            return;
        }
        if starts_with_exec(t, &h2) {
            let h = chars_string(t, 3, n);
            proof { assert(h@ =~= t@.skip(3)); }
            self.styled_cursor(h.as_str(), cursor, Style::new().bold().fg(th.secondary));
            return;
        }
        if starts_with_exec(t, &h1) {
            let h = chars_string(t, 2, n);
            proof { assert(h@ =~= t@.skip(2)); }
            self.styled_cursor(h.as_str(), cursor, Style::new().bold().fg(th.primary));
            return;
        }
        if starts_with_exec(t, &dash) || starts_with_exec(t, &star) {
            let item = chars_string(t, 2, n);
            proof { assert(item@ =~= t@.skip(2)); }
            let ic = chars_of(item.as_str());
            let segs = parse_inline_segments(&ic, text, bold, code);
            if segs.len() <= 1 {
                let mut line = String::new();
                line.append("  • ");
                line.append(item.as_str());
                proof { assert(line@ =~= seq![' ', ' ', '•', ' '] + item@); }
                self.styled_cursor(line.as_str(), cursor, text);
            } else {
                self.runs_line(Some("  • "), &segs, cursor, text);
            }
            return;
        }
        if '0' <= t[0] && t[0] <= '9' {
            match find_dot_space_exec(t) {
                Some(j) => {
                    proof { lemma_dot_space_fits(t@, 0); }
                    let num = chars_string(t, 0, j);
                    let item = chars_string(t, j + 2, n);
                    proof {
                        assert(num@ =~= t@.take(j as int));
                        assert(item@ =~= t@.skip(j + 2));
                    }
                    let ic = chars_of(item.as_str());
                    let segs = parse_inline_segments(&ic, text, bold, code);
                    let mut prefix = String::new();
                    prefix.append("  ");
                    prefix.append(num.as_str());
                    prefix.append(". ");
                    let ghost pv = prefix@;
                    proof { assert(pv =~= seq![' ', ' '] + t@.take(j as int) + seq!['.', ' ']); }
                    if segs.len() <= 1 {
                        prefix.append(item.as_str());
                        proof { assert(prefix@ =~= pv + item@); }
                        self.styled_cursor(prefix.as_str(), cursor, text);
                    } else {
                        self.runs_line(Some(prefix.as_str()), &segs, cursor, text);
                    }
                    return;
                },
                None => {},
            }
        }
        let segs = parse_inline_segments(t, text, bold, code);
        if segs.len() <= 1 {
            let whole = chars_string(t, 0, n);
            proof { assert(whole@ =~= seq![] + t@); }
            self.styled_cursor(whole.as_str(), cursor, text);
        } else {
            self.runs_line(None, &segs, cursor, text);
        }
    }

    /// Streaming markdown: the lines received so far, drawn as they arrive
    /// (headings, rules, bullets, numbered items, inline spans, and code
    /// fences with a framed label), with the blinking cursor after the last
    /// line while streaming. Records in `state` whether the text so far ends
    /// inside a code fence, and that fence's language. With nothing received
    /// yet while streaming, only the cursor (or a space) is drawn.
    pub fn streaming_markdown(&mut self, state: &mut StreamingMarkdownState) -> (r: Response)
        requires
            old(self).wf(),
        ensures
            final(self).wf(),
            r == no_response(),
            ({
                let (tick, vis) = blink(old(state).streaming, old(state).cursor_tick, old(state).cursor_visible);
                let n = old(self).commands@.len() as int;
                let c = final(self).commands@;
                let lines = text_lines(old(state).content@);
                let fs = fence_scan(lines, lines.len() as int);
                &&& final(state).content == old(state).content
                &&& final(state).streaming == old(state).streaming
                &&& final(state).cursor_tick == tick
                &&& final(state).cursor_visible == vis
                &&& draw_frame(*old(self), *final(self))
                &&& if old(state).content@.len() == 0 && old(state).streaming {
                    &&& final(state).in_code_block == old(state).in_code_block
                    &&& final(state).code_block_lang == old(state).code_block_lang
                    &&& c.len() == n + 1
                    &&& is_plain_text(c[n], if vis { seq!['▌'] } else { seq![' '] }, fg_style(old(self).theme.primary))
                } else {
                    &&& final(state).in_code_block == fs.0
                    &&& final(state).code_block_lang@ == fs.1
                    &&& c.len() >= n + 2
                    &&& c[n] == Command::BeginContainer(plain_container(Direction::Column, 0, old(self).theme.border))
                    &&& c.last() == Command::EndContainer
                    &&& final(self).last_text_idx is None
                    &&& ({
                        let t = old(self).theme;
                        let inh = inherited_fg(old(self).text_color_stack@, t.text);
                        let show = old(state).streaming && vis;
                        let cs = old(state).content@;
                        let trailing = cs.len() > 0 && cs.last() == '\n';
                        let nl = lines.len() as int;
                        exists|bounds: Seq<int>, ids: Seq<usize>| #![trigger bounds.len(), ids.len()]
                            bounds.len() == nl + 1 && ids.len() == nl && bounds[0] == n + 1
                            && (forall|i: int| 0 <= i < nl ==> #[trigger] stream_row_at(c, bounds[i], bounds[i + 1], lines[i],
                                fence_scan(lines, i).0, row_cursor(show, trailing, i, nl), t, inh, ids[i]))
                            && if show && trailing {
                                c.len() == bounds[nl] + 2 && is_plain_text(c[bounds[nl]],
                                    if fs.0 { seq![' ', ' ', '▌'] } else { seq!['▌'] },
                                    if fs.0 { fg_style(t.accent) } else { fg_style(t.primary) })
                            } else {
                                c.len() == bounds[nl] + 1
                            }
                    })
                }
            }),
    {
        let (tick, vis) = blink_exec(state.streaming, state.cursor_tick, state.cursor_visible);
        state.cursor_tick = tick;
        state.cursor_visible = vis;
        let th = self.theme;
        proof {
            reveal_strlit("▌");
            reveal_strlit(" ");
            assert("▌"@ =~= seq!['▌']);
            assert(" "@ =~= seq![' ']);
        }
        let ghost c0 = *self;
        let _ = self.commands.len();
        let cs = chars_of(state.content.as_str());
        if cs.len() == 0 && state.streaming {
            let cursor: &str = if vis { "▌" } else { " " };
            self.styled(cursor, Style::new().fg(th.primary));
            proof { lemma_extends_push(c0.commands@, self.commands@); }
            return Response::none();
        }
        let show_cursor = state.streaming && vis;
        let trailing_newline = cs.len() > 0 && cs[cs.len() - 1] == '\n';
        let lines = split_lines(&cs);
        let ghost lv = line_views(lines@);
        let last = if lines.len() > 0 { lines.len() - 1 } else { 0 };
        self.begin_container(plain_container_args(Direction::Column, 0, th.border));
        self.skip_interaction_slot();
        let ghost opened = *self;
        proof {
            assert(opened.commands@.drop_last() =~= c0.commands@);
            lemma_extends_push(c0.commands@, opened.commands@);
            assert(opened.commands@.take(opened.commands@.len() as int) =~= opened.commands@);
        }
        let code = Style::new().fg(th.accent);
        let border = Style::new().fg(th.border).dim();
        let fence = ['`', '`', '`'];
        proof {
            assert(fence@ =~= seq!['`', '`', '`']);
        }
        let mut in_code = false;
        let mut lang: Vec<char> = Vec::new();
        let ghost inh = inherited_fg(c0.text_color_stack@, th.text);
        let ghost nl = lines@.len() as int;
        let ghost mut bounds: Seq<int> = seq![opened.commands@.len() as int];
        let ghost mut ids: Seq<usize> = seq![];
        proof {
            reveal_strlit("  └────"); reveal_strlit("  ┌─"); reveal_strlit("code"); reveal_strlit("code:"); reveal_strlit("─");
        }
        let mut k: usize = 0;
        while k < lines.len()
            invariant
                k <= lines@.len(),
                nl == lines@.len(),
                inh == inherited_fg(c0.text_color_stack@, th.text),
                show_cursor == (state.streaming && vis),
                trailing_newline == (cs@.len() > 0 && cs@.last() == '\n'),
                last == (if nl > 0 { nl - 1 } else { 0 }),
                "  └────"@ == seq![' ', ' ', '└', '─', '─', '─', '─'],
                "  ┌─"@ == seq![' ', ' ', '┌', '─'],
                "code"@ == seq!['c', 'o', 'd', 'e'],
                "code:"@ == seq!['c', 'o', 'd', 'e', ':'],
                "─"@ == seq!['─'],
                code == fg_style(th.accent),
                border == with_mods(fg_style(th.border), DIM),
                bounds.len() == k + 1,
                ids.len() == k,
                bounds[0] == opened.commands@.len(),
                bounds[k as int] == self.commands@.len(),
                forall|i: int| 0 <= i < k ==> #[trigger] stream_row_at(self.commands@, bounds[i], bounds[i + 1], lv[i],
                    fence_scan(lv, i).0, row_cursor(show_cursor, trailing_newline, i, nl), th, inh, ids[i]),
                lv == line_views(lines@),
                lv == text_lines(cs@),
                fence@ == seq!['`', '`', '`'],
                fence_scan(lv, k as int) == (in_code, lang@),
                draw_frame(opened, *self),
                opened.commands@.len() == c0.commands@.len() + 1,
                opened.commands@.last() == Command::BeginContainer(plain_container(Direction::Column, 0, th.border)),
                extends(c0.commands@, opened.commands@),
                th == c0.theme,
                opened == (Context { commands: opened.commands, interaction_count: opened.interaction_count, ..c0 }),
            decreases lines@.len() - k,
        {
            let ghost before = *self;
            let lc = chars_of(lines[k].as_str());
            let t = trim_chars(&lc);
            let cursor = show_cursor && !trailing_newline && k == last;
            proof {
                assert(fence_scan(lv, k + 1) == fence_step(fence_scan(lv, k as int), lv[k as int]));
                assert(lc@ == lv[k as int]);
            }
            if in_code {
                if starts_with_exec(&t, &fence) {
                    in_code = false;
                    lang = Vec::new();
                    self.styled_cursor("  └────", cursor, border);
                } else {
                    self.stream_code_line(lines[k].as_str(), cursor, code);
                    proof {
                        assert(lines@[k as int]@ == lv[k as int]);
                        assert(before.text_color_stack == c0.text_color_stack);
                        assert(before.theme == th);
                    }
                }
            } else if starts_with_exec(&t, &fence) {
                let rest = chars_string(&t, 3, t.len());
                let rc = chars_of(rest.as_str());
                lang = trim_chars(&rc);
                proof {
                    assert(rc@ =~= t@.skip(3));
                }
                let mut line = String::new();
                line.append("  ┌─");
                if lang.len() == 0 {
                    line.append("code");
                } else {
                    line.append("code:");
                    let ls = chars_string(&lang, 0, lang.len());
                    line.append(ls.as_str());
                }
                line.append("─");
                proof {
                    assert(lang@.subrange(0, lang@.len() as int) =~= lang@);
                    assert(line@ =~= seq![' ', ' ', '┌', '─'] + fence_label(lang@) + seq!['─']);
                }
                in_code = true;
                self.styled_cursor(line.as_str(), cursor, border);
            } else {
                self.stream_plain_line(&t, cursor);
                proof {
                    assert(before.text_color_stack == c0.text_color_stack);
                    assert(before.theme == th);
                }
            }
            proof {
                lemma_draw_frame_trans(opened, before, *self);
                assert(stream_row_at(self.commands@, before.commands@.len() as int, self.commands@.len() as int, lv[k as int],
                    fence_scan(lv, k as int).0, cursor, th, inh, before.interaction_count));
                assert forall|i: int| 0 <= i < k implies #[trigger] stream_row_at(self.commands@, bounds[i], bounds[i + 1], lv[i],
                    fence_scan(lv, i).0, row_cursor(show_cursor, trailing_newline, i, nl), th, inh, ids[i]) by {
                    lemma_row_extends(before.commands@, self.commands@, bounds[i], bounds[i + 1], lv[i], fence_scan(lv, i).0,
                        row_cursor(show_cursor, trailing_newline, i, nl), th, inh, ids[i]);
                }
                let ob = bounds;
                let oi = ids;
                bounds = bounds.push(self.commands@.len() as int);
                ids = ids.push(before.interaction_count);
                assert forall|i: int| 0 <= i < k + 1 implies #[trigger] stream_row_at(self.commands@, bounds[i], bounds[i + 1],
                    lv[i], fence_scan(lv, i).0, row_cursor(show_cursor, trailing_newline, i, nl), th, inh, ids[i]) by {
                    if i < k {
                        assert(bounds[i] == ob[i] && bounds[i + 1] == ob[i + 1] && ids[i] == oi[i]);
                    }
                }
            }
            k = k + 1;
        }
        let ghost rows_end = *self;
        if show_cursor && trailing_newline {
            let ghost before = *self;
            proof { reveal_strlit("  ▌"); assert("  ▌"@ =~= seq![' ', ' ', '▌']); }
            if in_code {
                self.styled("  ▌", code);
            } else {
                self.styled("▌", Style::new().fg(th.primary));
            }
            proof {
                lemma_extends_push(before.commands@, self.commands@);
                lemma_draw_frame_trans(opened, before, *self);
            }
        }
        proof {
            if !(show_cursor && trailing_newline) {
                assert(self.commands@.take(self.commands@.len() as int) =~= self.commands@);
            }
        }
        state.in_code_block = in_code;
        state.code_block_lang = chars_string(&lang, 0, lang.len());
        let ghost body = *self;
        self.end_container();
        proof {
            assert(lang@.subrange(0, lang@.len() as int) =~= lang@);
            assert(lines@.len() == lv.len());
            assert(self.commands@.drop_last() =~= body.commands@);
            lemma_extends_push(body.commands@, self.commands@);
            lemma_extends_trans(c0.commands@, opened.commands@, body.commands@);
            lemma_extends_trans(c0.commands@, body.commands@, self.commands@);
            let n = c0.commands@.len() as int;
            assert(opened.commands@[n] == opened.commands@.last());
            assert(self.commands@.take(opened.commands@.len() as int)[n] == self.commands@[n]) by {
                lemma_extends_trans(opened.commands@, body.commands@, self.commands@);
            }
            lemma_extends_trans(rows_end.commands@, body.commands@, self.commands@);
            assert forall|i: int| 0 <= i < nl implies #[trigger] stream_row_at(self.commands@, bounds[i], bounds[i + 1], lv[i],
                fence_scan(lv, i).0, row_cursor(show_cursor, trailing_newline, i, nl), th, inh, ids[i]) by {
                lemma_row_extends(rows_end.commands@, self.commands@, bounds[i], bounds[i + 1], lv[i], fence_scan(lv, i).0,
                    row_cursor(show_cursor, trailing_newline, i, nl), th, inh, ids[i]);
            }
            if show_cursor && trailing_newline {
                let e = bounds[nl];
                assert(body.commands@.len() == e + 1);
                lemma_extends_at(body.commands@, self.commands@, e);
                assert(body.commands@[e] == body.commands@.last());
            }
            assert(cs@ == old(state).content@);
        }
        Response::none()
    }
}


/// Code fences: outside a fence, a fence line opens one named by what
/// follows the backticks; inside, a fence line closes it; other lines keep
/// the state; so a fence opened and then closed leaves the text outside any.
pub proof fn lemma_fence_open_close(st: (bool, Seq<char>), a: Seq<char>, b: Seq<char>)
    ensures
        !st.0 && is_fence(trimmed(a)) ==> fence_step(st, a) == (true, trimmed(trimmed(a).skip(3))),
        st.0 && is_fence(trimmed(a)) ==> fence_step(st, a) == (false, Seq::<char>::empty()),
        !is_fence(trimmed(a)) ==> fence_step(st, a) == st,
        is_fence(trimmed(a)) && is_fence(trimmed(b)) ==> fence_step(fence_step((false, seq![]), a), b) == (false, Seq::<char>::empty()),
{
}

} // verus!
