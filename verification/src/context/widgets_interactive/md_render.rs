//! Drawing inline markdown: styled runs, links and image placeholders.
use vstd::prelude::*;
use crate::command::{Command, ContainerArgs};
use crate::context::{no_response, plain_container, plain_container_args, Context, Response};
use crate::context::widgets_display::status::{repeat, repeat_str};
use crate::context::widgets_interactive::md_blocks::{block_views, line_views, md_blocks, parse_markdown, MdBlock, MdBlockView};
use crate::context::widgets_interactive::md_table::{extends, lemma_extends_push, lemma_extends_trans, lemma_table_stable,
    table_at, table_widths};
use crate::context::widgets_display::layout::{has_link, line_wrapped};
use crate::context::widgets_display::text::{edited, edited_last, inherited_fg, is_plain_text, TextEdit};
use crate::context::widgets_interactive::markdown::{md_links, parse_inline_segments, pieces, seg_views, segments_from,
    split_md_links, MdInline, MdPiece};
use crate::style::{fg_style, no_margin, open_constraints, with_mods, Align, Color, Direction, Modifiers, Padding, Style, Theme,
    BOLD, DIM, ITALIC};
use crate::unicode::{chars_of, push_char};

verus! {

/// The runs drawn for one piece of inline markdown: the styled segments of
/// text, the alt text of an image in the code style; a link draws none.
pub open spec fn piece_runs(p: MdPiece, text: Style, bold: Style, code: Style) -> Seq<(Seq<char>, Style)> {
    match p {
        MdPiece::Text(t) => segments_from(t, 0, seq![], text, bold, code),
        MdPiece::Image(alt) => seq![(alt, code)],
        MdPiece::Link(_, _) => seq![],
    }
}

/// The runs drawn for a sequence of pieces.
pub open spec fn inline_runs(ps: Seq<MdPiece>, text: Style, bold: Style, code: Style) -> Seq<(Seq<char>, Style)>
    decreases ps.len(),
{
    if ps.len() == 0 {
        seq![]
    } else {
        inline_runs(ps.drop_last(), text, bold, code) + piece_runs(ps.last(), text, bold, code)
    }
}

/// Whether some piece is a link.
pub open spec fn has_link_piece(ps: Seq<MdPiece>) -> bool {
    exists|k: int| 0 <= k < ps.len() && ps[k] is Link
}

/// From `from` on, `c` is exactly one plain text per run.
pub open spec fn drawn_texts(c: Seq<Command>, from: int, runs: Seq<(Seq<char>, Style)>) -> bool {
    &&& c.len() == from + runs.len()
    &&& forall|k: int| 0 <= k < runs.len() ==> is_plain_text(#[trigger] c[from + k], runs[k].0, runs[k].1)
}

/// A wrapping plain text of `content` in the color `fg`.
pub open spec fn is_wrapped_text(c: Command, content: Seq<char>, fg: Color) -> bool {
    c matches Command::Text { content: t, cursor_offset, cursor_masked, style, grow, align, wrap, truncate, margin, constraints }
        && t@ == content && cursor_offset is None && !cursor_masked
        && style == (Style { fg: Some(fg), bg: None, modifiers: Modifiers(0) }) && grow == 0
        && align == Align::Start && wrap && !truncate && margin == no_margin() && constraints == open_constraints()
}

/// `after` differs from `before` at most in what drawing inline markdown
/// touches: the draw list, the style-chain target, and what links register.
pub open spec fn inline_frame(before: Context, after: Context) -> bool {
    after == (Context {
        commands: after.commands,
        last_text_idx: after.last_text_idx,
        consumed: after.consumed,
        focus_count: after.focus_count,
        interaction_count: after.interaction_count,
        pending_urls: after.pending_urls,
        ..before
    })
}

impl Context {
    /// Draw each styled segment as a plain text.
    pub(crate) fn draw_runs(&mut self, segs: &Vec<(String, Style)>)
        requires
            old(self).wf(),
        ensures
            final(self).wf(),
            final(self).commands@.take(old(self).commands@.len() as int) == old(self).commands@,
            drawn_texts(final(self).commands@, old(self).commands@.len() as int, seg_views(segs@)),
            segs@.len() == 0 ==> final(self).last_text_idx == old(self).last_text_idx,
            *final(self) == (Context { commands: final(self).commands, last_text_idx: final(self).last_text_idx, ..*old(self) }),
    {
        let ghost n0 = self.commands@.len() as int;
        let ghost runs = seg_views(segs@);
        let mut k: usize = 0;
        while k < segs.len()
            invariant
                self.wf(),
                k <= segs@.len(),
                n0 == old(self).commands@.len(),
                runs == seg_views(segs@),
                self.commands@.take(n0) == old(self).commands@,
                drawn_texts(self.commands@, n0, runs.take(k as int)),
                k == 0 ==> self.last_text_idx == old(self).last_text_idx,
                *self == (Context { commands: self.commands, last_text_idx: self.last_text_idx, ..*old(self) }),
            decreases segs@.len() - k,
        {
            let ghost before = self.commands@;
            self.styled(segs[k].0.as_str(), segs[k].1);
            proof {
                assert(self.commands@.drop_last() == before);
                assert forall|j: int| 0 <= j < before.len() implies self.commands@[j] == before[j] by {
                    assert(self.commands@.drop_last()[j] == self.commands@[j]);
                }
                assert(self.commands@.take(n0) =~= before.take(n0));
                assert forall|j: int| 0 <= j < k + 1 implies is_plain_text(#[trigger] self.commands@[n0 + j],
                    runs.take(k + 1)[j].0, runs.take(k + 1)[j].1) by {
                    if j < k {
                        assert(runs.take(k + 1)[j] == runs.take(k as int)[j]);
                        assert(self.commands@[n0 + j] == before[n0 + j]);
                    } else {
                        assert(runs.take(k + 1)[j] == runs[k as int]);
                        assert(self.commands@[n0 + j] == self.commands@.last());
                    }
                }
            }
            k = k + 1;
        }
        proof {
            assert(runs.take(segs@.len() as int) =~= runs);
        }
    }

    /// Draw inline markdown pieces: segments of text as plain texts, links
    /// as links, images as their alt text in `code`.
    fn draw_pieces(&mut self, items: &Vec<MdInline>, text: Style, bold: Style, code: Style)
        requires
            old(self).wf(),
        ensures
            final(self).wf(),
            final(self).commands@.len() >= old(self).commands@.len(),
            final(self).commands@.take(old(self).commands@.len() as int) == old(self).commands@,
            inline_frame(*old(self), *final(self)),
            !has_link_piece(pieces(items@)) ==> {
                &&& drawn_texts(final(self).commands@, old(self).commands@.len() as int,
                    inline_runs(pieces(items@), text, bold, code))
                &&& *final(self) == (Context { commands: final(self).commands, last_text_idx: final(self).last_text_idx,
                    ..*old(self) })
            },
    {
        let ghost n0 = old(self).commands@.len() as int;
        let ghost ps = pieces(items@);
        let mut k: usize = 0;
        proof {
            assert(ps.take(0) =~= Seq::<MdPiece>::empty());
        }
        while k < items.len()
            invariant
                self.wf(),
                k <= items@.len(),
                n0 == old(self).commands@.len(),
                ps == pieces(items@),
                self.commands@.take(n0) == old(self).commands@,
                self.commands@.len() >= n0,
                inline_frame(*old(self), *self),
                !has_link_piece(ps) ==> {
                    &&& drawn_texts(self.commands@, n0, inline_runs(ps.take(k as int), text, bold, code))
                    &&& *self == (Context { commands: self.commands, last_text_idx: self.last_text_idx, ..*old(self) })
                },
            decreases items@.len() - k,
        {
            let ghost before = *self;
            let ghost bc = self.commands@;
            proof {
                assert(ps.take(k + 1).drop_last() =~= ps.take(k as int));
                assert(ps.take(k + 1).last() == ps[k as int]);
            }
            match &items[k] {
                MdInline::Text(t) => {
                    let tc = chars_of(t.as_str());
                    let segs = parse_inline_segments(&tc, text, bold, code);
                    self.draw_runs(&segs);
                },
                MdInline::Link { text: lt, url } => {
                    self.link(lt.as_str(), url.as_str());
                    proof {
                        assert(ps[k as int] is Link);
                    }
                },
                MdInline::Image { alt } => {
                    self.styled(alt.as_str(), code);
                    proof {
                        assert(self.commands@.drop_last() == bc);
                        assert(seg_views(seq![]) =~= Seq::<(Seq<char>, Style)>::empty());
                    }
                },
            }
            proof {
                assert forall|j: int| 0 <= j < n0 implies self.commands@[j] == old(self).commands@[j] by {
                    assert(self.commands@.take(bc.len() as int)[j] == self.commands@[j]);
                    assert(bc.take(n0)[j] == bc[j]);
                }
                assert(self.commands@.take(n0) =~= old(self).commands@);
                if !has_link_piece(ps) {
                    let prev = inline_runs(ps.take(k as int), text, bold, code);
                    let add = piece_runs(ps[k as int], text, bold, code);
                    assert(inline_runs(ps.take(k + 1), text, bold, code) == prev + add);
                    assert(drawn_texts(self.commands@, n0, prev + add)) by {
                        assert forall|j: int| 0 <= j < (prev + add).len() implies is_plain_text(#[trigger] self.commands@[n0 + j],
                            (prev + add)[j].0, (prev + add)[j].1) by {
                            if j < prev.len() {
                                assert(self.commands@.take(bc.len() as int)[n0 + j] == self.commands@[n0 + j]);
                            } else {
                                assert(self.commands@[n0 + j] == self.commands@[bc.len() + (j - prev.len())]);
                            }
                        }
                    }
                }
            }
            k = k + 1;
        }
        proof {
            assert(ps.take(items@.len() as int) =~= ps);
        }
    }
}


impl Context {
    /// Draw one line of inline markdown that wraps. Text that parses to at
    /// most one styled run is drawn as it stands in `text`'s color; other
    /// text goes through [`wrap_from`](Self::wrap_from).
    fn render_md_inline(&mut self, cs: &Vec<char>, text: Style, bold: Style, code: Style)
        requires
            old(self).wf(),
        ensures
            final(self).wf(),
            inline_frame(*old(self), *final(self)),
            final(self).commands@.len() >= old(self).commands@.len(),
            final(self).commands@.take(old(self).commands@.len() as int) == old(self).commands@,
            ({
                let n0 = old(self).commands@.len() as int;
                let ps = md_links(cs@);
                if ps.len() == 1 && ps[0] is Text && segments_from(ps[0]->Text_0, 0, seq![], text, bold, code).len() <= 1 {
                    &&& final(self).commands@.len() == n0 + 1
                    &&& final(self).commands@.take(n0) == old(self).commands@
                    &&& is_wrapped_text(final(self).commands@[n0], cs@, match text.fg { Some(c) => c, None => Color::Reset })
                    &&& final(self).last_text_idx == Some(n0 as usize)
                    &&& *final(self) == (Context { commands: final(self).commands, last_text_idx: final(self).last_text_idx,
                        ..*old(self) })
                } else {
                    &&& final(self).last_text_idx is None
                    &&& exists|mid: Seq<Command>| #![trigger line_wrapped(mid, n0, final(self).commands@)]
                        mid.len() >= n0 && mid.take(n0) == old(self).commands@
                        && line_wrapped(mid, n0, final(self).commands@)
                        && (!has_link_piece(ps) ==> drawn_texts(mid, n0, inline_runs(ps, text, bold, code)))
                }
            }),
    {
        let ghost n0 = old(self).commands@.len() as int;
        let _ = self.commands.len();
        let items = split_md_links(cs);
        if items.len() == 1 {
            match &items[0] {
                MdInline::Text(t) => {
                    let tc = chars_of(t.as_str());
                    let segs = parse_inline_segments(&tc, text, bold, code);
                    if segs.len() <= 1 {
                        let whole = string_of_chars(cs);
                        let fg = match text.fg { Some(c) => c, None => Color::Reset };
                        self.text(whole.as_str());
                        let ghost written = self.commands@;
                        let ghost c1 = *self;
                        self.wrap();
                        let ghost wrapped = self.commands@;
                        let ghost c2 = *self;
                        self.fg(fg);
                        proof {
                            assert(c1.last_text_idx == Some(n0 as usize));
                            assert(edited_last(c1, c2, TextEdit::Wrap));
                            assert(c2.last_text_idx == Some(n0 as usize));
                            assert(edited_last(c2, *self, TextEdit::Fg(fg)));

                            assert(written.drop_last() == old(self).commands@);
                            assert forall|j: int| 0 <= j < n0 implies self.commands@[j] == old(self).commands@[j] by {
                                assert(written.drop_last()[j] == written[j]);
                                assert(c1.commands@.drop_last()[j] == c1.commands@[j]);
                                lemma_edit_keeps_others(c1, c2, TextEdit::Wrap, n0, j);
                                lemma_edit_keeps_others(c2, *self, TextEdit::Fg(fg), n0, j);
                            }
                            assert(edited(written[n0], wrapped[n0], TextEdit::Wrap));
                            assert(edited(wrapped[n0], self.commands@[n0], TextEdit::Fg(fg)));
                            assert(self.commands@.take(n0) =~= old(self).commands@);
                        }
                        return;
                    }
                    let start = self.commands.len();
                    self.draw_runs(&segs);
                    let ghost mid = self.commands@;
                    self.wrap_from(start);
                    proof {
                        let ps = md_links(cs@);
                        assert(ps.drop_last() =~= Seq::<MdPiece>::empty());
                        assert(ps[0] == items@[0].piece());
                        assert(ps.last() == MdPiece::Text(t@));
                        assert(inline_runs(ps.drop_last(), text, bold, code) == Seq::<(Seq<char>, Style)>::empty());
                        assert(inline_runs(ps, text, bold, code) =~= seg_views(segs@));
                        assert(line_wrapped(mid, n0, self.commands@));
                        lemma_wrapped_keeps_prefix(mid, n0, self.commands@);
                        assert(mid.take(n0) =~= old(self).commands@);
                    }
                    return;
                },
                _ => {},
            }
        }
        let start = self.commands.len();
        self.draw_pieces(&items, text, bold, code);
        let ghost mid = self.commands@;
        self.wrap_from(start);
        proof {
            assert(line_wrapped(mid, n0, self.commands@));
            lemma_wrapped_keeps_prefix(mid, n0, self.commands@);
        }
    }
}

/// Wrapping what was drawn from `n0` on leaves what came before it.
proof fn lemma_wrapped_keeps_prefix(drawn: Seq<Command>, n0: int, after: Seq<Command>)
    requires
        0 <= n0 <= drawn.len(),
        line_wrapped(drawn, n0, after),
    ensures
        after.len() >= n0,
        after.take(n0) == drawn.take(n0),
{
    let kids = drawn.subrange(n0, drawn.len() as int);
    if has_link(kids) {
        assert(after.take(n0) =~= drawn.take(n0));
    }
}

pub(crate) proof fn lemma_edit_keeps_others(before: Context, after: Context, e: TextEdit, i: int, j: int)
    requires
        edited_last(before, after, e),
        before.last_text_idx == Some(i as usize),
        0 <= i <= usize::MAX,
        0 <= j < before.commands@.len(),
        j != i,
    ensures
        after.commands@[j] == before.commands@[j],
{
}

/// The characters of `cs` as a string.
fn string_of_chars(cs: &Vec<char>) -> (r: String)
    ensures
        r@ == cs@,
{
    let mut out = String::new();
    let mut k: usize = 0;
    while k < cs.len()
        invariant
            k <= cs@.len(),
            out@ == cs@.take(k as int),
        decreases cs@.len() - k,
    {
        push_char(&mut out, cs[k]);
        proof {
            assert(cs@.take(k + 1) =~= cs@.take(k as int).push(cs@[k as int]));
        }
        k = k + 1;
    }
    proof {
        assert(cs@.take(cs@.len() as int) =~= cs@);
    }
    out
}


/// The four styles markdown draws in: body text, bold, code, and borders.
pub open spec fn md_styles(t: Theme) -> (Style, Style, Style, Style) {
    (
        fg_style(t.text),
        with_mods(fg_style(t.text), BOLD),
        fg_style(t.accent),
        with_mods(fg_style(t.border), DIM),
    )
}

/// The shaded, padded column a closed code block is drawn in.
pub open spec fn code_box(t: Theme) -> ContainerArgs {
    ContainerArgs {
        bg_color: Some(t.surface),
        padding: Padding { top: t.spacing.0, right: t.spacing.0, bottom: t.spacing.0, left: t.spacing.0 },
        ..plain_container(Direction::Column, 0, t.border)
    }
}

/// The color of a heading of `level`.
pub open spec fn heading_color(t: Theme, level: nat) -> Color {
    if level == 3 { t.accent } else if level == 2 { t.secondary } else { t.primary }
}

/// From `from` on, `c` holds one plain text per line, all in `style`.
pub open spec fn drawn_lines(c: Seq<Command>, from: int, lines: Seq<Seq<char>>, style: Style) -> bool {
    &&& c.len() >= from + lines.len()
    &&& forall|k: int| 0 <= k < lines.len() ==> is_plain_text(#[trigger] c[from + k], lines[k], style)
}

/// A wrapping line from `lo` to `hi` in `c`: a text `prefix` in the body
/// style, then the inline markdown `item`, all through
/// [`wrap_from`](Context::wrap_from).
pub open spec fn inline_line_at(c: Seq<Command>, lo: int, hi: int, prefix: Seq<char>, item: Seq<char>, t: Theme) -> bool {
    let (text, bold, code, border) = md_styles(t);
    exists|mid: Seq<Command>| #![trigger line_wrapped(mid, lo, c.take(hi))]
        mid.len() >= lo + 1 && mid.take(lo) == c.take(lo) && line_wrapped(mid, lo, c.take(hi))
        && is_plain_text(mid[lo], prefix, text)
        && (!has_link_piece(md_links(item)) ==> drawn_texts(mid, lo + 1, inline_runs(md_links(item), text, bold, code)))
}

/// A paragraph from `lo` to `hi` in `c` (see
/// [`render_md_inline`](Context::render_md_inline)): when it parses to at
/// most one styled run, the line as it stands, wrapping, in the text color;
/// otherwise its runs (and links) through a wrapping line.
pub open spec fn paragraph_at(c: Seq<Command>, lo: int, hi: int, p: Seq<char>, t: Theme) -> bool {
    let (text, bold, code, border) = md_styles(t);
    let ps = md_links(p);
    if ps.len() == 1 && ps[0] is Text && segments_from(ps[0]->Text_0, 0, seq![], text, bold, code).len() <= 1 {
        hi == lo + 1 && is_wrapped_text(c[lo], p, t.text)
    } else {
        exists|mid: Seq<Command>| #![trigger line_wrapped(mid, lo, c.take(hi))]
            mid.len() >= lo && mid.take(lo) == c.take(lo) && line_wrapped(mid, lo, c.take(hi))
            && (!has_link_piece(ps) ==> drawn_texts(mid, lo, inline_runs(ps, text, bold, code)))
    }
}

/// Block `b` drawn from `lo` to `hi` in `c`, in theme `t`, with `inh` the
/// inherited text color and `id` the first free interaction slot.
pub open spec fn block_at(c: Seq<Command>, lo: int, hi: int, t: Theme, inh: Color, id: usize, b: MdBlockView) -> bool {
    let (text, bold, code, border) = md_styles(t);
    &&& 0 <= lo <= hi <= c.len()
    &&& match b {
        MdBlockView::Blank => hi == lo + 1 && is_plain_text(c[lo], seq![' '], fg_style(inh)),
        MdBlockView::Rule => hi == lo + 1 && is_plain_text(c[lo], repeat(seq!['─'], 40), border),
        MdBlockView::Heading(level, h) => hi == lo + 1
            && is_plain_text(c[lo], h, with_mods(fg_style(heading_color(t, level)), BOLD)),
        MdBlockView::Quote(q) => {
            &&& hi == lo + 5
            &&& c[lo] == Command::InteractionMarker(id)
            &&& c[lo + 1] == Command::BeginContainer(plain_container(Direction::Row, 0, t.border))
            &&& is_plain_text(c[lo + 2], seq!['│', ' '], fg_style(t.border))
            &&& is_plain_text(c[lo + 3], q, with_mods(fg_style(t.text_dim), ITALIC))
            &&& c[lo + 4] == Command::EndContainer
        },
        MdBlockView::Code(lines) => {
            &&& hi == lo + 3 + lines.len()
            &&& c[lo] == Command::InteractionMarker(id)
            &&& c[lo + 1] == Command::BeginContainer(code_box(t))
            &&& drawn_lines(c, lo + 2, lines, code)
            &&& c[lo + 2 + lines.len()] == Command::EndContainer
        },
        MdBlockView::OpenCode(lines) => hi == lo + lines.len() && drawn_lines(c, lo, lines, code),
        MdBlockView::Bullet(item) => inline_line_at(c, lo, hi, seq![' ', ' ', '•', ' '], item, t),
        MdBlockView::Ordered(num, item) => inline_line_at(c, lo, hi, seq![' ', ' '] + num + seq!['.', ' '], item, t),
        MdBlockView::Paragraph(p) => paragraph_at(c, lo, hi, p, t),
        MdBlockView::Table(rows) => {
            if table_widths(rows).len() == 0 {
                hi == lo
            } else {
                table_at(c, lo, hi, rows, t, text, bold, code, border)
            }
        },
    }
}

/// What drawing block `b` appended to `before`'s draw list to make `c`.
pub open spec fn block_drawn(before: Context, c: Seq<Command>, b: MdBlockView) -> bool {
    &&& extends(before.commands@, c)
    &&& block_at(c, before.commands@.len() as int, c.len() as int, before.theme,
        inherited_fg(before.text_color_stack@, before.theme.text), before.interaction_count, b)
}

/// A drawn block stays as it is when more is drawn after it.
proof fn lemma_block_at_extends(c: Seq<Command>, c2: Seq<Command>, lo: int, hi: int, t: Theme, inh: Color, id: usize,
    b: MdBlockView)
    requires
        block_at(c, lo, hi, t, inh, id, b),
        extends(c, c2),
    ensures
        block_at(c2, lo, hi, t, inh, id, b),
{
    assert forall|j: int| 0 <= j < c.len() implies c2[j] == c[j] by {
        assert(c2.take(c.len() as int)[j] == c2[j]);
    }
    assert(c2.take(lo) =~= c.take(lo));
    assert(c2.take(hi) =~= c.take(hi));
    match b {
        MdBlockView::Code(lines) => {
            assert forall|k: int| 0 <= k < lines.len() implies #[trigger] c2[lo + 2 + k] == c[lo + 2 + k] by {}
        },
        MdBlockView::OpenCode(lines) => {
            assert forall|k: int| 0 <= k < lines.len() implies #[trigger] c2[lo + k] == c[lo + k] by {}
        },
        MdBlockView::Bullet(item) => {
            let mid = choose|mid: Seq<Command>| #![trigger line_wrapped(mid, lo, c.take(hi))]
                mid.len() >= lo + 1 && mid.take(lo) == c.take(lo) && line_wrapped(mid, lo, c.take(hi))
                && is_plain_text(mid[lo], seq![' ', ' ', '•', ' '], md_styles(t).0)
                && (!has_link_piece(md_links(item)) ==> drawn_texts(mid, lo + 1,
                    inline_runs(md_links(item), md_styles(t).0, md_styles(t).1, md_styles(t).2)));
            assert(line_wrapped(mid, lo, c2.take(hi)));
        },
        MdBlockView::Ordered(num, item) => {
            let mid = choose|mid: Seq<Command>| #![trigger line_wrapped(mid, lo, c.take(hi))]
                mid.len() >= lo + 1 && mid.take(lo) == c.take(lo) && line_wrapped(mid, lo, c.take(hi))
                && is_plain_text(mid[lo], seq![' ', ' '] + num + seq!['.', ' '], md_styles(t).0)
                && (!has_link_piece(md_links(item)) ==> drawn_texts(mid, lo + 1,
                    inline_runs(md_links(item), md_styles(t).0, md_styles(t).1, md_styles(t).2)));
            assert(line_wrapped(mid, lo, c2.take(hi)));
        },
        MdBlockView::Paragraph(p) => {
            let ps = md_links(p);
            if !(ps.len() == 1 && ps[0] is Text && segments_from(ps[0]->Text_0, 0, seq![], md_styles(t).0,
                md_styles(t).1, md_styles(t).2).len() <= 1) {
                let mid = choose|mid: Seq<Command>| #![trigger line_wrapped(mid, lo, c.take(hi))]
                    mid.len() >= lo && mid.take(lo) == c.take(lo) && line_wrapped(mid, lo, c.take(hi))
                    && (!has_link_piece(ps) ==> drawn_texts(mid, lo,
                        inline_runs(ps, md_styles(t).0, md_styles(t).1, md_styles(t).2)));
                assert(line_wrapped(mid, lo, c2.take(hi)));
            }
        },
        MdBlockView::Table(rows) => {
            if table_widths(rows).len() != 0 {
                lemma_table_stable(c, c2, lo, hi, rows, t, md_styles(t).0, md_styles(t).1, md_styles(t).2, md_styles(t).3);
            }
        },
        _ => {},
    }
}

impl Context {
    /// Draw each line as a plain text in `style`.
    fn draw_lines(&mut self, lines: &Vec<String>, style: Style)
        requires
            old(self).wf(),
        ensures
            final(self).wf(),
            final(self).commands@.len() == old(self).commands@.len() + lines@.len(),
            final(self).commands@.take(old(self).commands@.len() as int) == old(self).commands@,
            drawn_lines(final(self).commands@, old(self).commands@.len() as int, line_views(lines@), style),
            *final(self) == (Context { commands: final(self).commands, last_text_idx: final(self).last_text_idx, ..*old(self) }),
    {
        let ghost n0 = old(self).commands@.len() as int;
        let mut k: usize = 0;
        while k < lines.len()
            invariant
                self.wf(),
                k <= lines@.len(),
                n0 == old(self).commands@.len(),
                self.commands@.len() == n0 + k,
                self.commands@.take(n0) == old(self).commands@,
                forall|j: int| 0 <= j < k ==> is_plain_text(#[trigger] self.commands@[n0 + j], line_views(lines@)[j], style),
                *self == (Context { commands: self.commands, last_text_idx: self.last_text_idx, ..*old(self) }),
            decreases lines@.len() - k,
        {
            let ghost before = self.commands@;
            self.styled(lines[k].as_str(), style);
            proof {
                assert(self.commands@.drop_last() == before);
                assert forall|j: int| 0 <= j < before.len() implies self.commands@[j] == before[j] by {
                    assert(self.commands@.drop_last()[j] == self.commands@[j]);
                }
                assert(self.commands@.take(n0) =~= before.take(n0));
                assert forall|j: int| 0 <= j < k + 1 implies is_plain_text(#[trigger] self.commands@[n0 + j],
                    line_views(lines@)[j], style) by {
                    if j < k {
                        assert(self.commands@[n0 + j] == before[n0 + j]);
                    }
                }
            }
            k = k + 1;
        }
    }

    /// Draw one markdown block.
    fn render_block(&mut self, b: &MdBlock)
        requires
            old(self).wf(),
        ensures
            final(self).wf(),
            block_drawn(*old(self), final(self).commands@, b.view_block()),
            inline_frame(*old(self), *final(self)),
    {
        let t = self.theme;
        let text = Style::new().fg(t.text);
        let bold = Style::new().fg(t.text).bold();
        let code = Style::new().fg(t.accent);
        let border = Style::new().fg(t.border).dim();
        let ghost n = old(self).commands@.len() as int;
        let _ = self.commands.len();
        proof {
            crate::style::lemma_single_flags();
            reveal_strlit(" ");
            reveal_strlit("─");
            reveal_strlit("│ ");
            reveal_strlit("  • ");
            reveal_strlit("  ");
            reveal_strlit(". ");
            assert(" "@ =~= seq![' ']);
            assert("─"@ =~= seq!['─']);
            assert("│ "@ =~= seq!['│', ' ']);
        }
        match b {
            MdBlock::Blank => {
                self.text(" ");
                proof { assert(self.commands@.take(n) =~= self.commands@.drop_last()); }
            },
            MdBlock::Rule => {
                let rule = repeat_str("─", 40);
                self.styled(rule.as_str(), border);
                proof { assert(self.commands@.take(n) =~= self.commands@.drop_last()); }
            },
            MdBlock::Heading(level, h) => {
                let color = if *level == 3 { t.accent } else if *level == 2 { t.secondary } else { t.primary };
                self.styled(h.as_str(), Style::new().bold().fg(color));
                proof { assert(self.commands@.take(n) =~= self.commands@.drop_last()); }
            },
            MdBlock::Quote(q) => {
                self.draw_quote(q);
            },
            MdBlock::Bullet(item) => {
                proof { assert("  • "@ =~= seq![' ', ' ', '•', ' ']); }
                self.draw_list_item("  • ", item);
            },
            MdBlock::Ordered(num, item) => {
                let mut prefix = String::new();
                prefix.append("  ");
                prefix.append(num.as_str());
                prefix.append(". ");
                proof {
                    assert(prefix@ =~= seq![' ', ' '] + num@ + seq!['.', ' ']);
                }
                self.draw_list_item(prefix.as_str(), item);
            },
            MdBlock::Paragraph(p) => {
                let pc = chars_of(p.as_str());
                self.render_md_inline(&pc, text, bold, code);
                proof {
                    let c = self.commands@;
                    assert(c.take(c.len() as int) =~= c);
                    assert(extends(old(self).commands@, c));
                    assert(md_styles(t) == (text, bold, code, border));
                }
            },
            MdBlock::Code(lines) => {
                self.draw_code_block(lines);
            },
            MdBlock::OpenCode(lines) => {
                self.draw_lines(lines, code);
            },
            MdBlock::Table(rows) => {
                self.render_markdown_table(rows, text, bold, code, border);
                proof {
                    assert(md_styles(t) == (text, bold, code, border));
                    if table_widths(line_views(rows@)).len() == 0 {
                        assert(self.commands@.take(n) =~= self.commands@);
                    }
                }
            },
        }
    }

    /// A list item: `prefix` in the body style, then the inline markdown
    /// `item`, as one wrapping line.
    fn draw_list_item(&mut self, prefix: &str, item: &String)
        requires
            old(self).wf(),
        ensures
            final(self).wf(),
            extends(old(self).commands@, final(self).commands@),
            inline_line_at(final(self).commands@, old(self).commands@.len() as int, final(self).commands@.len() as int,
                prefix@, item@, old(self).theme),
            inline_frame(*old(self), *final(self)),
    {
        let t = self.theme;
        let text = Style::new().fg(t.text);
        let bold = Style::new().fg(t.text).bold();
        let code = Style::new().fg(t.accent);
        proof {
            crate::style::lemma_single_flags();
        }
        let ghost n = self.commands@.len() as int;
        let start = self.commands.len();
        self.styled(prefix, text);
        let ghost c1 = self.commands@;
        let ic = chars_of(item.as_str());
        self.render_md_inline_into(&ic, text, bold, code);
        let ghost mid = self.commands@;
        self.wrap_from(start);
        proof {
            let c = self.commands@;
            lemma_extends_push(old(self).commands@, c1);
            lemma_extends_trans(old(self).commands@, c1, mid);
            lemma_wrapped_keeps_prefix(mid, n, c);
            assert(c.take(c.len() as int) =~= c);
            assert(mid.take(n) =~= old(self).commands@);
            assert(c.take(n) =~= old(self).commands@);
            assert(mid[n] == c1[n]) by {
                assert(mid.take(c1.len() as int)[n] == mid[n]);
            }
            assert(c1[n] == c1.last());
            assert(md_styles(t) == (text, bold, code, with_mods(fg_style(t.border), DIM)));
            assert(line_wrapped(mid, n, c.take(c.len() as int)));
        }
    }

    /// Draw inline markdown into the current line (see
    /// [`draw_pieces`](Self::draw_pieces)).
    pub(crate) fn render_md_inline_into(&mut self, cs: &Vec<char>, text: Style, bold: Style, code: Style)
        requires
            old(self).wf(),
        ensures
            final(self).wf(),
            final(self).commands@.len() >= old(self).commands@.len(),
            final(self).commands@.take(old(self).commands@.len() as int) == old(self).commands@,
            inline_frame(*old(self), *final(self)),
            !has_link_piece(md_links(cs@)) ==> drawn_texts(final(self).commands@, old(self).commands@.len() as int,
                inline_runs(md_links(cs@), text, bold, code)),
    {
        let items = split_md_links(cs);
        self.draw_pieces(&items, text, bold, code);
    }

    /// Render markdown: headings, `-`/`*` bullets, numbered items, `>`
    /// quotes, rules, fenced code, pipe tables and paragraphs with inline
    /// bold, italic, code, links and images, in a column: the blocks of
    /// [`md_blocks`], each drawn as [`block_at`] states, one after another.
    pub fn markdown(&mut self, text: &str) -> (r: Response)
        requires
            old(self).wf(),
        ensures
            final(self).wf(),
            r == no_response(),
            final(self).last_text_idx is None,
            final(self).commands@.len() >= old(self).commands@.len() + 2,
            final(self).commands@.take(old(self).commands@.len() + 1int) == old(self).commands@.push(
                Command::BeginContainer(plain_container(Direction::Column, 0, old(self).theme.border))),
            final(self).commands@.last() == Command::EndContainer,
            inline_frame(*old(self), *final(self)),
            ({
                let blocks = md_blocks(text@);
                let c = final(self).commands@;
                let t = old(self).theme;
                let inh = inherited_fg(old(self).text_color_stack@, t.text);
                exists|bounds: Seq<int>, ids: Seq<usize>| #![trigger bounds.len(), ids.len()]
                    bounds.len() == blocks.len() + 1 && ids.len() == blocks.len()
                    && bounds[0] == old(self).commands@.len() + 1 && bounds[blocks.len() as int] == c.len() - 1
                    && forall|i: int| 0 <= i < blocks.len() ==> #[trigger] block_at(c, bounds[i], bounds[i + 1], t, inh,
                        ids[i], blocks[i])
            }),
    {
        let border = self.theme.border;
        self.begin_container(plain_container_args(Direction::Column, 0, border));
        self.skip_interaction_slot();
        let ghost opened = *self;
        let ghost t = old(self).theme;
        let ghost inh = inherited_fg(old(self).text_color_stack@, t.text);
        let blocks = parse_markdown(text);
        let ghost bv = block_views(blocks@);
        let ghost mut bounds: Seq<int> = seq![opened.commands@.len() as int];
        let ghost mut ids: Seq<usize> = seq![];
        let mut k: usize = 0;
        while k < blocks.len()
            invariant
                self.wf(),
                k <= blocks@.len(),
                bv == block_views(blocks@),
                t == old(self).theme,
                inh == inherited_fg(old(self).text_color_stack@, t.text),
                self.commands@.len() >= opened.commands@.len(),
                self.commands@.take(opened.commands@.len() as int) == opened.commands@,
                opened.commands@ == old(self).commands@.push(
                    Command::BeginContainer(plain_container(Direction::Column, 0, old(self).theme.border))),
                inline_frame(opened, *self),
                opened == (Context { commands: opened.commands, interaction_count: opened.interaction_count, ..*old(self) }),
                bounds.len() == k + 1,
                ids.len() == k,
                bounds[0] == opened.commands@.len(),
                bounds[k as int] == self.commands@.len(),
                forall|i: int| 0 <= i < k ==> #[trigger] block_at(self.commands@, bounds[i], bounds[i + 1], t, inh, ids[i], bv[i]),
            decreases blocks@.len() - k,
        {
            let ghost before = *self;
            self.render_block(&blocks[k]);
            proof {
                let m = opened.commands@.len() as int;
                assert forall|j: int| 0 <= j < m implies self.commands@[j] == opened.commands@[j] by {
                    assert(self.commands@.take(before.commands@.len() as int)[j] == self.commands@[j]);
                    assert(before.commands@.take(m)[j] == before.commands@[j]);
                }
                assert(self.commands@.take(m) =~= opened.commands@);
                assert forall|i: int| 0 <= i < k implies #[trigger] block_at(self.commands@, bounds[i], bounds[i + 1], t, inh,
                    ids[i], bv[i]) by {
                    lemma_block_at_extends(before.commands@, self.commands@, bounds[i], bounds[i + 1], t, inh, ids[i], bv[i]);
                }
                assert(bv[k as int] == blocks@[k as int].view_block());
                let old_bounds = bounds;
                let old_ids = ids;
                bounds = bounds.push(self.commands@.len() as int);
                ids = ids.push(before.interaction_count);
                assert forall|i: int| 0 <= i < k + 1 implies #[trigger] block_at(self.commands@, bounds[i], bounds[i + 1], t,
                    inh, ids[i], bv[i]) by {
                    if i < k {
                        assert(bounds[i] == old_bounds[i] && bounds[i + 1] == old_bounds[i + 1] && ids[i] == old_ids[i]);
                    }
                }
            }
            k = k + 1;
        }
        let ghost body = self.commands@;
        self.end_container();
        proof {
            let m = old(self).commands@.len() + 1int;
            assert forall|j: int| 0 <= j < m implies self.commands@[j] == opened.commands@[j] by {
                assert(self.commands@.drop_last()[j] == self.commands@[j]);
                assert(body.take(m)[j] == body[j]);
            }
            assert(self.commands@.take(m) =~= opened.commands@);
            assert(self.commands@.drop_last() =~= body);
            lemma_extends_push(body, self.commands@);
            assert forall|i: int| 0 <= i < blocks@.len() implies #[trigger] block_at(self.commands@, bounds[i], bounds[i + 1],
                t, inh, ids[i], bv[i]) by {
                lemma_block_at_extends(body, self.commands@, bounds[i], bounds[i + 1], t, inh, ids[i], bv[i]);
            }
            assert(bv == md_blocks(text@));
        }
        Response::none()
    }
}


impl Context {
    /// Draw a quote: a bar and the text, dimmed and italic, on one line.
    fn draw_quote(&mut self, q: &String)
        requires
            old(self).wf(),
        ensures
            final(self).wf(),
            block_drawn(*old(self), final(self).commands@, MdBlockView::Quote(q@)),
            inline_frame(*old(self), *final(self)),
    {
        let t = self.theme;
        let ghost n = old(self).commands@.len() as int;
        proof {
            crate::style::lemma_single_flags();
            reveal_strlit("│ ");
            assert("│ "@ =~= seq!['│', ' ']);
        }
        let id = self.open_group(Direction::Row, 0);
        let ghost s1 = self.commands@;
        self.styled("│ ", Style::new().fg(t.border));
        let ghost s2 = self.commands@;
        self.styled(q.as_str(), Style::new().fg(t.text_dim).add_modifier(ITALIC));
        let ghost s3 = self.commands@;
        let _ = self.close_group(id);
        proof {
            let c = self.commands@;
            assert(s2.drop_last() == s1);
            assert(s3.drop_last() == s2);
            assert(c.drop_last() == s3);
            assert forall|k: int| 0 <= k < n + 2 implies c[k] == s1[k] by {
                assert(c[k] == s3[k]);
                assert(s3[k] == s2[k]);
                assert(s2[k] == s1[k]);
            }
            assert(c[n + 2] == s2.last());
            assert(c[n + 3] == s3.last());
            assert(c.take(n) =~= old(self).commands@);
        }
        
    }

    /// Draw a closed code block: its lines in the code style, in a shaded
    /// padded column.
    fn draw_code_block(&mut self, lines: &Vec<String>)
        requires
            old(self).wf(),
        ensures
            final(self).wf(),
            block_drawn(*old(self), final(self).commands@, MdBlockView::Code(line_views(lines@))),
            inline_frame(*old(self), *final(self)),
    {
        let t = self.theme;
        let code = Style::new().fg(t.accent);
        let ghost n = old(self).commands@.len() as int;
        let id = self.next_interaction_id();
        let pad = t.spacing.xs();
        let args = ContainerArgs {
            bg_color: Some(t.surface),
            padding: Padding { top: pad, right: pad, bottom: pad, left: pad },
            ..plain_container_args(Direction::Column, 0, t.border)
        };
        self.begin_container(args);
        let ghost s1 = self.commands@;
        self.draw_lines(lines, code);
        let ghost s2 = self.commands@;
        self.end_container();
        proof {
            let c = self.commands@;
            assert(c.drop_last() == s2);
            assert forall|k: int| 0 <= k < s2.len() implies c[k] == s2[k] by {
                assert(c.drop_last()[k] == c[k]);
            }
            assert forall|k: int| 0 <= k < s1.len() implies s2[k] == s1[k] by {
                assert(s2.take(s1.len() as int)[k] == s2[k]);
            }
            assert(c.take(n) =~= old(self).commands@);
            assert(c[n] == s1[n]);
            assert(c[n + 1] == s1[n + 1]);
            assert(s1 == old(self).commands@.push(Command::InteractionMarker(id)).push(Command::BeginContainer(args)));
            assert(args == code_box(t));
            let lv = line_views(lines@);
            assert forall|k: int| 0 <= k < lv.len() implies is_plain_text(#[trigger] c[n + 2 + k], lv[k], code) by {
                assert(c[n + 2 + k] == s2[n + 2 + k]);
            }
        }
        
    }
}

} // verus!
