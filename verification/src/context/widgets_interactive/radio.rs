//! Radio groups: one option of several chosen, by keyboard or click.
use vstd::prelude::*;
use crate::command::Command;
use crate::context::{no_response, plain_container_args, Context, Response};
use crate::context::widgets_display::text::is_plain_text;
use crate::context::widgets_interactive::collections::{click_claims, click_rect, handle_vertical_nav, list_clicked, list_column,
    nav_step, or_else, views_of, ListState, WidgetColors};
use crate::context::widgets_interactive::selection::sat_inc_usize;
use crate::event::{Event, KeyCode, KeyEventKind};
use crate::style::{Direction, Modifiers, Style, Theme, BOLD};

verus! {

/// The options of a radio group and which one is chosen.
pub struct RadioState {
    pub items: Vec<String>,
    /// Index of the chosen option.
    pub selected: usize,
}

impl RadioState {
    /// The options as character sequences.
    pub open spec fn item_views(&self) -> Seq<Seq<char>> {
        views_of(self.items@)
    }

    /// A group over `items` with the first option chosen.
    pub fn new(items: Vec<&str>) -> (s: RadioState)
        ensures
            s.item_views() == Seq::new(items@.len(), |i: int| items@[i]@),
            s.selected == 0,
    {
        let l = ListState::new(items);
        RadioState { items: l.items, selected: 0 }
    }
}

/// The keys a focused radio group claims.
pub open spec fn radio_codes() -> Seq<KeyCode> {
    seq![KeyCode::Up, KeyCode::Char('k'), KeyCode::Down, KeyCode::Char('j'), KeyCode::Enter, KeyCode::Char(' ')]
}

/// The selection after the unclaimed key presses among the first `n` events,
/// each moved by [`nav_step`] within `[0, last]`.
pub open spec fn nav_presses(events: Seq<Event>, consumed: Seq<bool>, n: nat, sel: int, last: int) -> int
    decreases n,
{
    if n == 0 {
        sel
    } else {
        let prev = nav_presses(events, consumed, (n - 1) as nat, sel, last);
        if consumed[n - 1] {
            prev
        } else {
            match events[n - 1] {
                Event::Key(k) => if k.kind == KeyEventKind::Press { nav_step(prev, last, k.code) } else { prev },
                _ => prev,
            }
        }
    }
}

/// Style of a radio option.
pub open spec fn radio_style(t: Theme, colors: WidgetColors, chosen: bool, focused: bool) -> Style {
    if chosen {
        Style { fg: Some(or_else(colors.accent, t.primary)), bg: None, modifiers: Modifiers(if focused { BOLD } else { 0 }) }
    } else {
        Style { fg: Some(or_else(colors.fg, t.text)), bg: None, modifiers: Modifiers(0) }
    }
}

/// The text of a radio option: a cursor mark when focused and chosen, the
/// filled or empty circle, a space and the option.
pub open spec fn radio_text(item: Seq<char>, chosen: bool, focused: bool) -> Seq<char> {
    (if focused && chosen { seq!['▸', ' '] } else { seq![' ', ' '] }) + (if chosen { seq!['●'] } else { seq!['○'] })
        + seq![' '] + item
}

/// Commands from `base` on are the options of a radio group.
pub open spec fn radio_rows(cmds: Seq<Command>, base: int, items: Seq<Seq<char>>, sel: int, t: Theme,
    colors: WidgetColors, focused: bool) -> bool {
    forall|k: int| 0 <= k < items.len() ==> is_plain_text(#[trigger] cmds[base + k], radio_text(items[k], k == sel, focused),
        radio_style(t, colors, k == sel, focused))
}

impl Context {
    /// Apply this frame's unclaimed key presses to a radio selection among
    /// `len` options, claiming the navigation keys and Enter/Space.
    fn radio_handle_keys(&mut self, selected: &mut usize, len: usize)
        requires
            old(self).wf(),
            *old(selected) < len,
        ensures
            final(self).wf(),
            *final(selected) == nav_presses(old(self).events@, old(self).consumed@, old(self).events@.len() as nat,
                *old(selected) as int, len - 1),
            *final(selected) < len,
            forall|i: int| 0 <= i < final(self).consumed@.len() ==> #[trigger] final(self).consumed@[i]
                == (old(self).consumed@[i] || old(self).live_press_in(i, radio_codes())),
            final(self).consumed@.len() == old(self).consumed@.len(),
            *final(self) == (Context { consumed: final(self).consumed, ..*old(self) }),
    {
        let n = self.events.len();
        let mut i: usize = 0;
        while i < n
            invariant
                n == self.events@.len(),
                i <= n,
                self.wf(),
                self.consumed@.len() == n,
                *selected < len,
                *self == (Context { consumed: self.consumed, ..*old(self) }),
                *selected == nav_presses(old(self).events@, old(self).consumed@, i as nat, *old(selected) as int, len - 1),
                forall|j: int| 0 <= j < n ==> #[trigger] self.consumed@[j] == (old(self).consumed@[j]
                    || (j < i && old(self).live_press_in(j, radio_codes()))),
            decreases n - i,
        {
            if !self.consumed[i] {
                match &self.events[i] {
                    Event::Key(k) => {
                        if k.kind == KeyEventKind::Press {
                            let _ = handle_vertical_nav(selected, len - 1, k.code);
                            let claim = match k.code {
                                KeyCode::Up | KeyCode::Down | KeyCode::Enter => true,
                                KeyCode::Char(c) => c == 'k' || c == 'j' || c == ' ',
                                _ => false,
                            };
                            proof {
                                let rc = radio_codes();
                                if claim {
                                    match k.code {
                                        KeyCode::Up => assert(rc[0] == k.code),
                                        KeyCode::Down => assert(rc[2] == k.code),
                                        KeyCode::Enter => assert(rc[4] == k.code),
                                        KeyCode::Char(c) => {
                                            if c == 'k' { assert(rc[1] == k.code); }
                                            else if c == 'j' { assert(rc[3] == k.code); }
                                            else { assert(rc[5] == k.code); }
                                        },
                                        _ => {},
                                    }
                                } else if rc.contains(k.code) {
                                    let w = choose|w: int| 0 <= w < rc.len() && rc[w] == k.code;
                                    assert(0 <= w < 6);
                                }
                            }
                            if claim {
                                self.consumed.set(i, true);
                            }
                        }
                    },
                    _ => {},
                }
            }
            i = i + 1;
        }
    }

    /// Draw the options of a radio group.
    fn radio_render(&mut self, state: &RadioState, colors: &WidgetColors, focused: bool)
        requires
            old(self).wf(),
            old(self).commands@.len() + state.items@.len() + 2 < usize::MAX,
        ensures
            final(self).wf(),
            ({
                let n0 = old(self).commands@.len() as int;
                let t = old(self).theme;
                let len = state.items@.len() as int;
                &&& final(self).commands@.len() == n0 + len + 2
                &&& final(self).commands@.take(n0) == old(self).commands@
                &&& final(self).commands@[n0] == Command::BeginContainer(list_column(t, *colors))
                &&& radio_rows(final(self).commands@, n0 + 1, state.item_views(), state.selected as int, t, *colors, focused)
                &&& final(self).commands@[n0 + len + 1] == Command::EndContainer
                &&& *final(self) == (Context { commands: final(self).commands, last_text_idx: None, ..*old(self) })
            }),
    {
        let t = self.theme;
        let border = match colors.border {
            Some(c) => c,
            None => t.border,
        };
        let ghost n0 = self.commands@.len();
        self.begin_container(plain_container_args(Direction::Column, 0, border));
        let ghost start = *self;
        let accent = match colors.accent { Some(c) => c, None => t.primary };
        let chosen_style = if focused { Style::new().bold().fg(accent) } else { Style::new().fg(accent) };
        let plain_style = Style::new().fg(match colors.fg { Some(c) => c, None => t.text });
        proof {
            crate::style::lemma_single_flags();
            reveal_strlit("▸ ");
            reveal_strlit("  ");
            reveal_strlit("●");
            reveal_strlit("○");
            reveal_strlit(" ");
        }
        let len = state.items.len();
        let mut k: usize = 0;
        while k < len
            invariant
                len == state.items@.len(),
                k <= len,
                n0 + len + 2 < usize::MAX,
                self.wf(),
                self.commands@.len() == n0 + 1 + k,
                self.commands@.take(n0 + 1int) == start.commands@,
                start.commands@.take(n0 as int) == old(self).commands@,
                start.commands@[n0 as int] == Command::BeginContainer(list_column(t, *colors)),
                t == old(self).theme,
                chosen_style == radio_style(t, *colors, true, focused),
                plain_style == radio_style(t, *colors, false, focused),
                "▸ "@ == seq!['▸', ' '],
                "  "@ == seq![' ', ' '],
                "●"@ == seq!['●'],
                "○"@ == seq!['○'],
                " "@ == seq![' '],
                forall|j: int| 0 <= j < k ==> is_plain_text(#[trigger] self.commands@[n0 + 1 + j],
                    radio_text(state.item_views()[j], j == state.selected, focused),
                    radio_style(t, *colors, j == state.selected, focused)),
                *self == (Context { commands: self.commands, last_text_idx: self.last_text_idx, ..start }),
            decreases len - k,
        {
            let ghost before = self.commands@;
            let chosen = k == state.selected;
            let mut row = String::new();
            if focused && chosen {
                row.append("▸ ");
            } else {
                row.append("  ");
            }
            if chosen {
                row.append("●");
            } else {
                row.append("○");
            }
            row.append(" ");
            row.append(state.items[k].as_str());
            proof {
                assert(row@ =~= radio_text(state.item_views()[k as int], chosen, focused));
            }
            if chosen {
                self.styled(row.as_str(), chosen_style);
            } else {
                self.styled(row.as_str(), plain_style);
            }
            proof {
                assert(self.commands@.drop_last() == before);
                assert forall|j: int| 0 <= j < k + 1 implies is_plain_text(#[trigger] self.commands@[n0 + 1 + j],
                    radio_text(state.item_views()[j], j == state.selected, focused),
                    radio_style(t, *colors, j == state.selected, focused)) by {
                    if j < k {
                        assert(self.commands@[n0 + 1 + j] == before[n0 + 1 + j]);
                    }
                }
                assert(self.commands@.take(n0 + 1int) =~= start.commands@) by {
                    assert forall|j: int| 0 <= j < n0 + 1 implies self.commands@[j] == before[j] by {}
                    assert(before.take(n0 + 1int) == start.commands@);
                }
            }
            k = k + 1;
        }
        let ghost body = self.commands@;
        self.end_container();
        proof {
            assert(self.commands@.drop_last() == body);
            assert forall|j: int| 0 <= j < len implies is_plain_text(#[trigger] self.commands@[n0 + 1 + j],
                radio_text(state.item_views()[j], j == state.selected, focused),
                radio_style(t, *colors, j == state.selected, focused)) by {
                assert(self.commands@[n0 + 1 + j] == body[n0 + 1 + j]);
            }
            assert(self.commands@[n0 as int] == body[n0 as int]);
            assert(body[n0 as int] == start.commands@[n0 as int]);
            assert(self.commands@.take(n0 as int) =~= old(self).commands@) by {
                assert forall|j: int| 0 <= j < n0 implies self.commands@[j] == old(self).commands@[j] by {
                    assert(self.commands@[j] == body[j]);
                    assert(body[j] == start.commands@[j]);
                }
            }
        }
    }
}



/// The claimed flags once a radio group has handled its keys.
pub open spec fn radio_claimed(c: Context, focused: bool) -> Seq<bool> {
    Seq::new(c.consumed@.len(), |i: int| c.consumed@[i] || (focused && c.live_press_in(i, radio_codes())))
}

/// The selection once a radio group has handled its keys.
pub open spec fn radio_keyed(c: Context, sel0: int, last: int, focused: bool) -> int {
    if focused { nav_presses(c.events@, c.consumed@, c.events@.len() as nat, sel0, last) } else { sel0 }
}

impl Context {
    /// A radio group in custom colors: a column of options, the chosen one
    /// marked `●`. When focused, Up/`k` and Down/`j` move the choice and
    /// Enter/Space are claimed; a click chooses the option under it. With
    /// no options nothing is drawn.
    #[verifier::rlimit(100)]
    #[verifier::spinoff_prover]
    pub fn radio_colored(&mut self, state: &mut RadioState, colors: &WidgetColors) -> (r: Response)
        requires
            old(self).wf(),
            old(self).commands@.len() + old(state).items@.len() + 4 < usize::MAX,
        ensures
            final(self).wf(),
            final(state).items == old(state).items,
            old(state).items@.len() == 0 ==> {
                &&& *final(self) == *old(self)
                &&& final(state).selected == old(state).selected
                &&& r == no_response()
            },
            old(state).items@.len() > 0 ==> {
                let len = old(state).items@.len() as int;
                let sel0 = if old(state).selected < len { old(state).selected as int } else { len - 1 };
                let focused = old(self).next_focusable_is_focused();
                let id = old(self).interaction_count as int;
                let claimed = radio_claimed(*old(self), focused);
                let sel = list_clicked(*old(self), claimed, radio_keyed(*old(self), sel0, len - 1, focused), id, len);
                let m = if focused { 1int } else { 0int };
                let n0 = old(self).commands@.len() as int;
                let c = final(self).commands@;
                &&& final(state).selected == sel
                &&& r == Response { focused, changed: sel != sel0, ..old(self).spec_response_for(id) }
                &&& final(self).consumed@.len() == old(self).consumed@.len()
                &&& forall|i: int| 0 <= i < final(self).consumed@.len() ==> #[trigger] final(self).consumed@[i]
                    == (claimed[i] || click_claims(*old(self), claimed, i, id, len))
                &&& c.len() == n0 + m + len + 3
                &&& c.take(n0) == old(self).commands@
                &&& (focused ==> c[n0] == Command::FocusMarker(old(self).focus_count))
                &&& c[n0 + m] == Command::InteractionMarker(id as usize)
                &&& c[n0 + m + 1] == Command::BeginContainer(list_column(old(self).theme, *colors))
                &&& radio_rows(c, n0 + m + 2, old(state).item_views(), sel, old(self).theme, *colors, focused)
                &&& c[n0 + m + 2 + len] == Command::EndContainer
                &&& *final(self) == (Context {
                    commands: final(self).commands,
                    consumed: final(self).consumed,
                    interaction_count: sat_inc_usize(old(self).interaction_count),
                    focus_count: sat_inc_usize(old(self).focus_count),
                    last_text_idx: None,
                    ..*old(self)
                })
            },
    {
        let len = state.items.len();
        if len == 0 {
            return Response::none();
        }
        if state.selected >= len {
            state.selected = len - 1;
        }
        let old_selected = state.selected;
        let ghost n0 = self.commands@.len();
        let focused = self.register_focusable();
        let ghost registered = *self;
        if focused {
            self.radio_handle_keys(&mut state.selected, len);
        }
        proof {
            assert(self.consumed@ =~= radio_claimed(*old(self), focused));
        }
        let ghost keyed = *self;
        let id = self.next_interaction_id();
        let base = self.response_for(id);
        let ghost opened = *self;
        self.handle_row_clicks(&mut state.selected, len, id);
        proof {
            assert(click_rect(opened, id as int) == click_rect(*old(self), id as int));
            assert forall|i: int| 0 <= i < self.consumed@.len() implies #[trigger] self.consumed@[i]
                == (radio_claimed(*old(self), focused)[i] || click_claims(*old(self),
                    radio_claimed(*old(self), focused), i, id as int, len as int)) by {
                if click_rect(*old(self), id as int) is Some {
                    assert(opened.live(i) == !radio_claimed(*old(self), focused)[i]);
                }
            }
        }
        let ghost before_render = *self;
        self.radio_render(state, colors, focused);
        proof {
            let m = if focused { 1int } else { 0int };
            let nb = before_render.commands@.len();
            assert(nb == n0 + m + 1);
            assert forall|k: int| 0 <= k < nb implies self.commands@[k] == before_render.commands@[k] by {
                assert(self.commands@.take(nb as int)[k] == before_render.commands@[k]);
            }
            assert(self.commands@.take(n0 as int) =~= old(self).commands@) by {
                assert forall|k: int| 0 <= k < n0 implies self.commands@[k] == old(self).commands@[k] by {
                    assert(before_render.commands@[k] == registered.commands@[k]);
                }
            }
            assert(self.commands@[n0 + m] == before_render.commands@[n0 + m]);
            if focused {
                assert(self.commands@[n0 as int] == before_render.commands@[n0 as int]);
            }
        }
        let changed = state.selected != old_selected;
        Response { focused, changed, ..base }
    }

    /// A radio group in the theme's colors; see
    /// [`radio_colored`](Self::radio_colored).
    pub fn radio(&mut self, state: &mut RadioState) -> (r: Response)
        requires
            old(self).wf(),
            old(self).commands@.len() + old(state).items@.len() + 4 < usize::MAX,
        ensures
            final(self).wf(),
            final(state).items == old(state).items,
            old(state).items@.len() == 0 ==> {
                &&& *final(self) == *old(self)
                &&& final(state).selected == old(state).selected
                &&& r == no_response()
            },
            old(state).items@.len() > 0 ==> {
                let len = old(state).items@.len() as int;
                let sel0 = if old(state).selected < len { old(state).selected as int } else { len - 1 };
                let focused = old(self).next_focusable_is_focused();
                let id = old(self).interaction_count as int;
                let claimed = radio_claimed(*old(self), focused);
                let sel = list_clicked(*old(self), claimed, radio_keyed(*old(self), sel0, len - 1, focused), id, len);
                let m = if focused { 1int } else { 0int };
                let n0 = old(self).commands@.len() as int;
                let c = final(self).commands@;
                let colors = WidgetColors { fg: None, bg: None, border: None, accent: None };
                &&& final(state).selected == sel
                &&& r == Response { focused, changed: sel != sel0, ..old(self).spec_response_for(id) }
                &&& final(self).consumed@.len() == old(self).consumed@.len()
                &&& forall|i: int| 0 <= i < final(self).consumed@.len() ==> #[trigger] final(self).consumed@[i]
                    == (claimed[i] || click_claims(*old(self), claimed, i, id, len))
                &&& c.len() == n0 + m + len + 3
                &&& c.take(n0) == old(self).commands@
                &&& (focused ==> c[n0] == Command::FocusMarker(old(self).focus_count))
                &&& c[n0 + m] == Command::InteractionMarker(id as usize)
                &&& c[n0 + m + 1] == Command::BeginContainer(list_column(old(self).theme, colors))
                &&& radio_rows(c, n0 + m + 2, old(state).item_views(), sel, old(self).theme, colors, focused)
                &&& c[n0 + m + 2 + len] == Command::EndContainer
                &&& *final(self) == (Context {
                    commands: final(self).commands,
                    consumed: final(self).consumed,
                    interaction_count: sat_inc_usize(old(self).interaction_count),
                    focus_count: sat_inc_usize(old(self).focus_count),
                    last_text_idx: None,
                    ..*old(self)
                })
            },
    {
        let colors = WidgetColors::theme_default();
        self.radio_colored(state, &colors)
    }
}

/// Keyboard moves keep a radio choice among the options.
pub proof fn lemma_radio_keys_in_range(events: Seq<Event>, consumed: Seq<bool>, n: nat, sel: int, last: int)
    requires
        0 <= sel <= last,
        n <= events.len(),
        n <= consumed.len(),
    ensures
        0 <= nav_presses(events, consumed, n, sel, last) <= last,
    decreases n,
{
    if n > 0 {
        lemma_radio_keys_in_range(events, consumed, (n - 1) as nat, sel, last);
    }
}

} // verus!
