//! The key-binding help bar.
use vstd::prelude::*;
use crate::command::{Command, ContainerArgs};
use crate::context::{no_response, plain_container, plain_container_args, Context, Response};
use crate::context::widgets_display::layout::sat_inc;
use crate::context::widgets_display::text::is_plain_text;
use crate::style::{Color, Direction, Modifiers, Style, BOLD};

verus! {

/// The row a help bar lays its pairs out in.
pub open spec fn help_row(gap: u32, border_color: Color) -> ContainerArgs {
    plain_container(Direction::Row, #[verifier::truncate] (gap as i32), border_color)
}

/// Number of text runs of a help bar with `n` pairs: key and action of
/// each, and a separator between neighbouring pairs.
pub open spec fn help_runs(n: nat) -> nat {
    if n == 0 { 0 } else { (3 * n - 1) as nat }
}

/// Text of run `k` of a help bar over `pairs`.
pub open spec fn help_piece(pairs: Seq<(&str, &str)>, k: int) -> Seq<char> {
    let i = (k + 1) / 3;
    let j = (k + 1) % 3;
    if j == 0 { seq!['·'] } else if j == 1 { pairs[i].0@ } else { pairs[i].1@ }
}

/// Style of run `k` of a help bar.
pub open spec fn help_style(k: int, key_style: Style, text_style: Style) -> Style {
    if (k + 1) % 3 == 1 { key_style } else { text_style }
}

/// The help bar's draw commands after `before`: a row holding every run.
pub open spec fn is_help_bar(before: Context, after: Context, pairs: Seq<(&str, &str)>, gap: u32,
    key_style: Style, text_style: Style) -> bool {
    let n0 = before.commands@.len();
    let runs = help_runs(pairs.len());
    &&& after.commands@.len() == n0 + runs + 2
    &&& after.commands@.take(n0 as int) == before.commands@
    &&& after.commands@[n0 as int] == Command::BeginContainer(help_row(gap, before.theme.border))
    &&& forall|k: int| 0 <= k < runs ==> is_plain_text(#[trigger] after.commands@[n0 + 1 + k],
        help_piece(pairs, k), help_style(k, key_style, text_style))
    &&& after.commands@[n0 + runs + 1int] == Command::EndContainer
}

impl Context {
    /// A help bar of `(key, action)` pairs: keys bold in the primary color,
    /// actions dim, pairs separated by `·`.
    pub fn help(&mut self, bindings: &[(&str, &str)]) -> (r: Response)
        requires
            old(self).wf(),
            old(self).commands@.len() + 3 * bindings@.len() + 2 < usize::MAX,
        ensures
            final(self).wf(),
            r == no_response(),
            bindings@.len() == 0 ==> *final(self) == *old(self),
            bindings@.len() > 0 ==> {
                &&& is_help_bar(*old(self), *final(self), bindings@, sat_add_u32(old(self).theme.spacing.0),
                    Style { fg: Some(old(self).theme.primary), bg: None, modifiers: Modifiers(BOLD) },
                    Style { fg: Some(old(self).theme.text_dim), bg: None, modifiers: Modifiers(0) })
                &&& *final(self) == (Context {
                    commands: final(self).commands,
                    interaction_count: sat_inc(old(self).interaction_count),
                    last_text_idx: None,
                    ..*old(self)
                })
            },
    {
        let key_style = Style::new().bold().fg(self.theme.primary);
        let text_style = Style::new().fg(self.theme.text_dim);
        proof {
            crate::style::lemma_single_flags();
        }
        self.help_bar(bindings, key_style, text_style)
    }

    /// A help bar with custom key and action colors.
    pub fn help_colored(&mut self, bindings: &[(&str, &str)], key_color: Color, text_color: Color) -> (r: Response)
        requires
            old(self).wf(),
            old(self).commands@.len() + 3 * bindings@.len() + 2 < usize::MAX,
        ensures
            final(self).wf(),
            r == no_response(),
            bindings@.len() == 0 ==> *final(self) == *old(self),
            bindings@.len() > 0 ==> {
                &&& is_help_bar(*old(self), *final(self), bindings@, sat_add_u32(old(self).theme.spacing.0),
                    Style { fg: Some(key_color), bg: None, modifiers: Modifiers(BOLD) },
                    Style { fg: Some(text_color), bg: None, modifiers: Modifiers(0) })
                &&& *final(self) == (Context {
                    commands: final(self).commands,
                    interaction_count: sat_inc(old(self).interaction_count),
                    last_text_idx: None,
                    ..*old(self)
                })
            },
    {
        let key_style = Style::new().bold().fg(key_color);
        let text_style = Style::new().fg(text_color);
        proof {
            crate::style::lemma_single_flags();
        }
        self.help_bar(bindings, key_style, text_style)
    }

    fn help_bar(&mut self, bindings: &[(&str, &str)], key_style: Style, text_style: Style) -> (r: Response)
        requires
            old(self).wf(),
            old(self).commands@.len() + 3 * bindings@.len() + 2 < usize::MAX,
        ensures
            final(self).wf(),
            r == no_response(),
            bindings@.len() == 0 ==> *final(self) == *old(self),
            bindings@.len() > 0 ==> {
                &&& is_help_bar(*old(self), *final(self), bindings@, sat_add_u32(old(self).theme.spacing.0),
                    key_style, text_style)
                &&& *final(self) == (Context {
                    commands: final(self).commands,
                    interaction_count: sat_inc(old(self).interaction_count),
                    last_text_idx: None,
                    ..*old(self)
                })
            },
    {
        let n = bindings.len();
        if n == 0 {
            return Response::none();
        }
        self.interaction_count = self.interaction_count.saturating_add(1);
        let gap = self.theme.spacing.sm();
        let args = plain_container_args(Direction::Row, #[verifier::truncate] (gap as i32), self.theme.border);
        let ghost n0 = self.commands@.len();
        self.begin_container(args);
        let ghost start = *self;
        proof {
            reveal_strlit("·");
            assert("·"@ =~= seq!['·']);
        }
        let mut i: usize = 0;
        while i < n
            invariant
                n == bindings@.len(),
                0 < n,
                i <= n,
                n0 + 3 * n + 2 < usize::MAX,
                self.wf(),
                n0 == old(self).commands@.len(),
                "·"@ == seq!['·'],
                self.commands@.len() == n0 + 1 + help_runs(i as nat),
                self.commands@.take(n0 + 1int) == start.commands@,
                start.commands@.take(n0 as int) == old(self).commands@,
                start.commands@[n0 as int] == Command::BeginContainer(args),
                forall|k: int| 0 <= k < help_runs(i as nat) ==> is_plain_text(#[trigger] self.commands@[n0 + 1 + k],
                    help_piece(bindings@, k), help_style(k, key_style, text_style)),
                *self == (Context { commands: self.commands, last_text_idx: self.last_text_idx, ..start }),
            decreases n - i,
        {
            let ghost before = self.commands@;
            if i > 0 {
                self.styled("·", text_style);
            }
            let ghost mid = self.commands@;
            let (key, action) = bindings[i];
            self.styled(key, key_style);
            let ghost mid2 = self.commands@;
            self.styled(action, text_style);
            proof {
                assert(mid2.drop_last() == mid);
                assert(self.commands@.drop_last() == mid2);
                if i > 0 {
                    assert(mid.drop_last() == before);
                }
                let lo = help_runs(i as nat);
                let hi = help_runs((i + 1) as nat);
                assert forall|k: int| 0 <= k < hi implies is_plain_text(#[trigger] self.commands@[n0 + 1 + k],
                    help_piece(bindings@, k), help_style(k, key_style, text_style)) by {
                    if k < lo {
                        assert(self.commands@[n0 + 1 + k] == before[n0 + 1 + k]);
                    } else if k == hi - 1 {
                        assert((k + 1) / 3 == i && (k + 1) % 3 == 2);
                    } else if k == hi - 2 {
                        assert((k + 1) / 3 == i && (k + 1) % 3 == 1);
                        assert(self.commands@[n0 + 1 + k] == mid2[n0 + 1 + k]);
                    } else {
                        assert(k == hi - 3 && i > 0);
                        assert((k + 1) % 3 == 0);
                        assert(self.commands@[n0 + 1 + k] == mid[n0 + 1 + k]);
                    }
                }
                assert(self.commands@.take(n0 + 1int) =~= start.commands@) by {
                    assert forall|k: int| 0 <= k < n0 + 1 implies self.commands@[k] == before[k] by {
                        assert(self.commands@[k] == mid2[k]);
                        assert(mid2[k] == mid[k]);
                    }
                    assert(before.take(n0 + 1int) == start.commands@);
                }
            }
            i = i + 1;
        }
        let ghost body = self.commands@;
        self.end_container();
        proof {
            assert(self.commands@.drop_last() == body);
            assert forall|k: int| 0 <= k < help_runs(n as nat) implies is_plain_text(#[trigger] self.commands@[n0 + 1 + k],
                help_piece(bindings@, k), help_style(k, key_style, text_style)) by {
                assert(self.commands@[n0 + 1 + k] == body[n0 + 1 + k]);
            }
            assert(self.commands@[n0 as int] == body[n0 as int]);
            assert(body[n0 as int] == start.commands@[n0 as int]);
            assert(self.commands@.take(n0 as int) =~= old(self).commands@) by {
                assert forall|k: int| 0 <= k < n0 implies self.commands@[k] == old(self).commands@[k] by {
                    assert(self.commands@[k] == body[k]);
                    assert(body[k] == start.commands@[k]);
                }
            }
        }
        Response::none()
    }
}

/// `x + x`, capped at `u32::MAX`.
pub open spec fn sat_add_u32(x: u32) -> u32 {
    if x + x <= u32::MAX { (x + x) as u32 } else { u32::MAX }
}

} // verus!
