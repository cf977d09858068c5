//! Breadcrumb navigation: a path of links, the last segment plain.
use vstd::prelude::*;
use crate::command::Command;
use crate::context::{plain_container, Context, Response};
use crate::context::widgets_display::text::{inherited_fg, is_plain_text};
use crate::context::widgets_interactive::md_table::{extends, lemma_extends_push, lemma_extends_trans};
use crate::context::widgets_interactive::selection::{activation_codes, sat_inc_usize};
use crate::event::{Event, KeyCode, KeyEventKind};
use crate::style::{fg_style, with_mods, Color, Direction, Style, BOLD, DIM, UNDERLINE};

verus! {

/// What a breadcrumb reports: the row's response and the segment activated
/// this frame, if any (the last one when several were).
#[derive(Debug, Clone, Copy, PartialEq, Eq)]
pub struct BreadcrumbResponse {
    pub response: Response,
    pub clicked_segment: Option<usize>,
}

/// A breadcrumb bar to draw: its segments, the separator between them and
/// the color of the link segments (the theme's primary when unset).
pub struct Breadcrumb {
    pub segments: Vec<String>,
    pub separator: String,
    pub color: Option<Color>,
}

impl Breadcrumb {
    /// A bar over `segments` with the ` › ` separator and the default color.
    pub fn new(segments: &[&str]) -> (b: Self)
        ensures
            b.segments@.len() == segments@.len(),
            forall|k: int| 0 <= k < segments@.len() ==> (#[trigger] b.segments@[k])@ == segments@[k]@,
            b.separator@ == " › "@,
            b.color is None,
    {
        let mut out: Vec<String> = Vec::new();
        let mut k: usize = 0;
        while k < segments.len()
            invariant
                k <= segments@.len(),
                out@.len() == k,
                forall|j: int| 0 <= j < k ==> (#[trigger] out@[j])@ == segments@[j]@,
            decreases segments@.len() - k,
        {
            out.push(segments[k].to_owned());
            k = k + 1;
        }
        Breadcrumb { segments: out, separator: " › ".to_owned(), color: None }
    }

    /// Use `sep` between segments.
    pub fn separator(self, sep: &str) -> (b: Self)
        ensures
            b.segments == self.segments && b.color == self.color && b.separator@ == sep@,
    {
        Breadcrumb { separator: sep.to_owned(), ..self }
    }

    /// Draw link segments in `color`.
    pub fn color(self, color: Color) -> (b: Self)
        ensures
            b.segments == self.segments && b.separator == self.separator && b.color == Some(color),
    {
        Breadcrumb { color: Some(color), ..self }
    }
}

/// Whether `e` is an Enter or Space press.
pub open spec fn activation_press(e: Event) -> bool {
    e matches Event::Key(k) && k.kind == KeyEventKind::Press && activation_codes().contains(k.code)
}

/// Focus count, interaction count, claimed flags and activated segment of a
/// breadcrumb drawn in `c`'s frame, once its first `k` links are handled.
/// A link is activated by a click, or (when it holds focus and was not
/// clicked) by a pending Enter or Space, which it then claims.
pub open spec fn crumb_scan(c: Context, k: int) -> (usize, usize, Seq<bool>, Option<int>)
    decreases k,
{
    if k <= 0 {
        (c.focus_count, sat_inc_usize(c.interaction_count), c.consumed@, None)
    } else {
        let (fc, ic, cons, clicked) = crumb_scan(c, k - 1);
        let focused = c.prev_focus_count > 0 && c.focus_index % c.prev_focus_count == fc;
        let resp = c.spec_response_for(ic as int);
        let keys = !resp.clicked && focused;
        let pending = exists|j: int| 0 <= j < cons.len() && !cons[j] && activation_press(#[trigger] c.events@[j]);
        let cons2 = if keys {
            Seq::new(cons.len(), |j: int| cons[j] || activation_press(c.events@[j]))
        } else {
            cons
        };
        (sat_inc_usize(fc), sat_inc_usize(ic), cons2, if resp.clicked || (keys && pending) { Some(k - 1) } else { clicked })
    }
}

impl Context {
    /// One link segment: its own focus and interaction slot, the segment
    /// underlined (accent when hovered or focused, else `link`), then the
    /// separator dimmed. Whether it was activated.
    fn crumb_link(&mut self, segment: &str, separator: &str, link: Color) -> (activated: bool)
        requires
            old(self).wf(),
        ensures
            final(self).wf(),
            extends(old(self).commands@, final(self).commands@),
            ({
                let focused = old(self).next_focusable_is_focused();
                let resp = old(self).spec_response_for(old(self).interaction_count as int);
                let keys = !resp.clicked && focused;
                &&& activated == (resp.clicked || (keys && exists|j: int| old(self).live_press_in(j, activation_codes())))
                &&& final(self).consumed@.len() == old(self).consumed@.len()
                &&& forall|j: int| 0 <= j < final(self).consumed@.len() ==> #[trigger] final(self).consumed@[j]
                    == (old(self).consumed@[j] || (keys && old(self).live_press_in(j, activation_codes())))
                &&& *final(self) == (Context {
                    commands: final(self).commands,
                    consumed: final(self).consumed,
                    focus_count: sat_inc_usize(old(self).focus_count),
                    interaction_count: sat_inc_usize(old(self).interaction_count),
                    last_text_idx: final(self).last_text_idx,
                    ..*old(self)
                })
            }),
    {
        let t = self.theme;
        let (focused, resp) = self.open_control();
        let ghost opened = *self;
        proof {
            assert(extends(old(self).commands@, opened.commands@)) by {
                assert(opened.commands@.take(old(self).commands@.len() as int) =~= old(self).commands@);
            }
        }
        let activated = resp.clicked || self.consume_activation_keys(focused);
        proof {
            assert(activation_codes() == seq![KeyCode::Enter, KeyCode::Char(' ')]);
            assert forall|j: int| #[trigger] opened.live_press_in(j, activation_codes())
                == old(self).live_press_in(j, activation_codes()) by {}
            if exists|j: int| opened.live_press_in(j, activation_codes()) {
                let w = choose|j: int| opened.live_press_in(j, activation_codes());
                assert(old(self).live_press_in(w, activation_codes()));
            }
            if exists|j: int| old(self).live_press_in(j, activation_codes()) {
                let w = choose|j: int| old(self).live_press_in(j, activation_codes());
                assert(opened.live_press_in(w, activation_codes()));
            }
        }
        let color = if resp.hovered || focused { t.accent } else { link };
        let ghost c1 = self.commands@;
        self.styled(segment, Style::new().fg(color).add_modifier(UNDERLINE));
        let ghost c2 = self.commands@;
        let dim = self.theme.text_dim;
        self.styled(separator, Style::new().fg(dim).add_modifier(DIM));
        proof {
            lemma_extends_push(c1, c2);
            lemma_extends_push(c2, self.commands@);
            assert(extends(old(self).commands@, c1));
            lemma_extends_trans(old(self).commands@, c1, c2);
            lemma_extends_trans(old(self).commands@, c2, self.commands@);
        }
        activated
    }

    /// Draw a breadcrumb bar in a row: every segment but the last is a link
    /// followed by the separator; the last is bold. Reports the row's
    /// response and the activated segment.
    pub fn breadcrumb_bar(&mut self, bar: &Breadcrumb) -> (r: BreadcrumbResponse)
        requires
            old(self).wf(),
        ensures
            final(self).wf(),
            ({
                let len = bar.segments@.len() as int;
                let links = if len > 0 { len - 1 } else { 0 };
                let (fc, ic, cons, clicked) = crumb_scan(*old(self), links);
                let n = old(self).commands@.len() as int;
                let c = final(self).commands@;
                &&& r.response == old(self).spec_response_for(old(self).interaction_count as int)
                &&& r.clicked_segment == match clicked { Some(i) => Some(i as usize), None => None }
                &&& final(self).consumed@ == cons
                &&& final(self).focus_count == fc
                &&& final(self).interaction_count == ic
                &&& extends(old(self).commands@, c)
                &&& c[n] == Command::InteractionMarker(old(self).interaction_count)
                &&& c[n + 1] == Command::BeginContainer(plain_container(Direction::Row, 0, old(self).theme.border))
                &&& (len > 0 ==> is_plain_text(c[c.len() - 2], bar.segments@[len - 1]@,
                    with_mods(fg_style(inherited_fg(old(self).text_color_stack@, old(self).theme.text)), BOLD)))
                &&& c.last() == Command::EndContainer
                &&& *final(self) == (Context {
                    commands: final(self).commands,
                    consumed: final(self).consumed,
                    focus_count: final(self).focus_count,
                    interaction_count: final(self).interaction_count,
                    last_text_idx: None,
                    ..*old(self)
                })
            }),
    {
        let t = self.theme;
        let link = match bar.color { Some(c) => c, None => t.primary };
        let inh = self.inherited_text_fg();
        let ghost n = self.commands@.len() as int;
        let _ = self.commands.len();
        let row = self.open_group(Direction::Row, 0);
        let ghost opened = *self;
        proof {
            assert(extends(old(self).commands@, opened.commands@)) by {
                assert(opened.commands@.take(n) =~= old(self).commands@);
            }
        }
        let len = bar.segments.len();
        let links = if len > 0 { len - 1 } else { 0 };
        let mut clicked: Option<usize> = None;
        proof {
            assert(self.commands@.take(self.commands@.len() as int) =~= self.commands@);
        }
        let mut k: usize = 0;
        while k < links
            invariant
                self.wf(),
                k <= links,
                links < usize::MAX || len == 0,
                links == (if len > 0 { len - 1 } else { 0 }) as usize,
                len == bar.segments@.len(),
                n == old(self).commands@.len(),
                opened.commands@.len() == n + 2,
                opened.commands@[n] == Command::InteractionMarker(old(self).interaction_count),
                opened.commands@[n + 1] == Command::BeginContainer(plain_container(Direction::Row, 0, old(self).theme.border)),
                extends(opened.commands@, self.commands@),
                extends(old(self).commands@, opened.commands@),
                ({
                    let (fc, ic, cons, cl) = crumb_scan(*old(self), k as int);
                    &&& self.focus_count == fc
                    &&& self.interaction_count == ic
                    &&& self.consumed@ == cons
                    &&& clicked == match cl { Some(i) => Some(i as usize), None => None }
                    &&& (cl matches Some(i) ==> 0 <= i < k)
                }),
                *self == (Context {
                    commands: self.commands,
                    consumed: self.consumed,
                    focus_count: self.focus_count,
                    interaction_count: self.interaction_count,
                    last_text_idx: self.last_text_idx,
                    ..*old(self)
                }),
            decreases links - k,
        {
            let ghost before = *self;
            let act = self.crumb_link(bar.segments[k].as_str(), bar.separator.as_str(), link);
            proof {
                lemma_extends_trans(opened.commands@, before.commands@, self.commands@);
            }
            if act {
                clicked = Some(k);
            }
            proof {
                let (fc, ic, cons, cl) = crumb_scan(*old(self), k as int);
                let c = *old(self);
                assert(before.spec_response_for(ic as int) == c.spec_response_for(ic as int));
                assert(forall|j: int| #[trigger] before.live_press_in(j, activation_codes())
                    == (0 <= j < cons.len() && !cons[j] && activation_press(c.events@[j])));
                let pending = exists|j: int| 0 <= j < cons.len() && !cons[j] && activation_press(#[trigger] c.events@[j]);
                if pending {
                    let w = choose|j: int| 0 <= j < cons.len() && !cons[j] && activation_press(#[trigger] c.events@[j]);
                    assert(before.live_press_in(w, activation_codes()));
                }
                if exists|j: int| before.live_press_in(j, activation_codes()) {
                    let w = choose|j: int| before.live_press_in(j, activation_codes());
                    assert(0 <= w < cons.len() && !cons[w] && activation_press(c.events@[w]));
                }
                let focused = c.prev_focus_count > 0 && c.focus_index % c.prev_focus_count == fc;
                let resp = c.spec_response_for(ic as int);
                let keys = !resp.clicked && focused;
                let cons2 = if keys {
                    Seq::new(cons.len(), |j: int| cons[j] || activation_press(c.events@[j]))
                } else {
                    cons
                };
                assert(self.consumed@ =~= cons2);
                assert(crumb_scan(c, k + 1) == (sat_inc_usize(fc), sat_inc_usize(ic), cons2,
                    if resp.clicked || (keys && pending) { Some(k as int) } else { cl }));
            }
            k = k + 1;
        }
        let ghost c0 = self.commands@;
        if len > 0 {
            self.styled(bar.segments[len - 1].as_str(), Style::new().fg(inh).add_modifier(BOLD));
            proof {
                lemma_extends_push(c0, self.commands@);
                lemma_extends_trans(opened.commands@, c0, self.commands@);
            }
        }
        let ghost c1 = self.commands@;
        let response = self.close_group(row);
        proof {
            crate::style::lemma_single_flags();
            assert(self.commands@.drop_last() =~= c1);
            lemma_extends_push(c1, self.commands@);
            if len == 0 {
                assert(c1 == c0);
            }
            lemma_extends_trans(opened.commands@, c1, self.commands@);
            lemma_extends_trans(old(self).commands@, opened.commands@, self.commands@);
            let c = self.commands@;
            assert(c.take(opened.commands@.len() as int)[n] == c[n]);
            assert(c.take(opened.commands@.len() as int)[n + 1] == c[n + 1]);
            if len > 0 {
                assert(c[c.len() - 2] == c1.last());
            }
        }
        BreadcrumbResponse { response, clicked_segment: clicked }
    }

    /// A breadcrumb bar over `segments` with the default separator and
    /// color; see [`breadcrumb_bar`](Self::breadcrumb_bar).
    pub fn breadcrumb(&mut self, segments: &[&str]) -> (r: BreadcrumbResponse)
        requires
            old(self).wf(),
        ensures
            final(self).wf(),
            ({
                let len = segments@.len() as int;
                let links = if len > 0 { len - 1 } else { 0 };
                let (fc, ic, cons, clicked) = crumb_scan(*old(self), links);
                &&& r.response == old(self).spec_response_for(old(self).interaction_count as int)
                &&& r.clicked_segment == match clicked { Some(i) => Some(i as usize), None => None }
                &&& final(self).consumed@ == cons
                &&& extends(old(self).commands@, final(self).commands@)
                &&& final(self).commands@.last() == Command::EndContainer
            }),
    {
        let bar = Breadcrumb::new(segments);
        self.breadcrumb_bar(&bar)
    }
}

} // verus!
