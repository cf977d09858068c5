//! QR codes drawn with half-block characters: each cell shows two module
//! rows, the upper one as foreground and the lower one as background.
use vstd::prelude::*;
use crate::command::{Command, ContainerArgs};
use crate::context::{no_response, plain_container, plain_container_args, Context, Response};
use crate::context::widgets_display::text::{appended_text, is_plain_text};
use crate::style::{Align, Color, Constraints, Direction, Margin, Modifiers, Style, Theme};

verus! {

/// The QR code `QrCode::new` builds for the bytes of `data`: its width in
/// modules and, row by row, whether each module is dark; `None` when the
/// data does not fit a QR code.
pub uninterp spec fn qr_modules(data: Seq<char>) -> Option<(nat, Seq<bool>)>;

/// `qrcode::QrCode::new` on the bytes of `data`, with `width` and
/// `to_colors` read back (a dark module as `true`). The contract names the
/// result; encoding depends on the data alone.
#[verifier::external_body]
fn qr_encode(data: &str) -> (r: Option<(usize, Vec<bool>)>)
    ensures
        match r {
            None => qr_modules(data@) is None,
            Some((w, m)) => qr_modules(data@) == Some((w as nat, m@)),
        },
{
    match qrcode::QrCode::new(data.as_bytes()) {
        Ok(code) => Some((code.width(), code.to_colors().into_iter().map(|c| c == qrcode::Color::Dark).collect())),
        Err(_) => None,
    }
}

/// Whether module `(mx, my)` of the quiet-zoned code (one light module
/// around a code `w` modules wide) is dark.
pub open spec fn module_dark(mods: Seq<bool>, w: nat, mx: int, my: int) -> bool {
    &&& 1 <= mx <= w
    &&& 1 <= my <= w
    &&& (my - 1) * w + (mx - 1) < mods.len()
    &&& mods[(my - 1) * w + (mx - 1)]
}

/// Color of a module: the text color when dark, else the background.
pub open spec fn module_color(t: Theme, mods: Seq<bool>, w: nat, mx: int, my: int) -> Color {
    if module_dark(mods, w, mx, my) { t.text } else { t.bg }
}

/// The half-block cell at column `x` of cell row `row`.
pub open spec fn qr_cell_style(t: Theme, mods: Seq<bool>, w: nat, x: int, row: int) -> Style {
    let side = w + 2;
    let upper = module_color(t, mods, w, x, 2 * row);
    let lower = if 2 * row + 1 < side { module_color(t, mods, w, x, 2 * row + 1) } else { t.bg };
    Style { fg: Some(upper), bg: Some(lower), modifiers: Modifiers(0) }
}

/// `c` is cell row `row` of the code: one `▀` run per column.
pub open spec fn is_qr_row(c: Command, t: Theme, mods: Seq<bool>, w: nat, row: int) -> bool {
    &&& c matches Command::RichText { segments, wrap, align, margin, constraints }
    &&& segments@.len() == w + 2
    &&& forall|x: int| #![trigger segments@[x]] 0 <= x < w + 2 ==> segments@[x].0@ == seq!['▀']
        && segments@[x].1 == qr_cell_style(t, mods, w, x, row)
}

/// The fixed-size box a code is drawn in.
pub open spec fn qr_box(side: u32, height: u32, border: Color) -> ContainerArgs {
    ContainerArgs {
        constraints: Constraints { min_width: Some(side), max_width: Some(side), min_height: Some(height), max_height: Some(height),
            ..crate::style::open_constraints() },
        ..plain_container(Direction::Column, 0, border)
    }
}

fn module_dark_exec(mods: &Vec<bool>, w: usize, mx: u128, my: u128) -> (r: bool)
    ensures
        r == module_dark(mods@, w as nat, mx as int, my as int),
{
    if mx < 1 || mx > w as u128 || my < 1 || my > w as u128 {
        return false;
    }
    let row: u128 = my - 1;
    proof {
        assert(row * (w as int) <= 0xffff_ffff_ffff_ffff * 0xffff_ffff_ffff_ffff) by (nonlinear_arith)
            requires row <= 0xffff_ffff_ffff_ffff, 0 <= w <= 0xffff_ffff_ffff_ffff;
    }
    let idx: u128 = row * (w as u128) + (mx - 1);
    if idx >= mods.len() as u128 {
        return false;
    }
    mods[idx as usize]
}

fn qr_row(t: Theme, mods: &Vec<bool>, w: usize, row: u128) -> (r: Vec<(String, Style)>)
    requires
        row <= 0xffff_ffff_ffff_ffff,
    ensures
        r@.len() == w + 2,
        forall|x: int| #![trigger r@[x]] 0 <= x < w + 2 ==> r@[x].0@ == seq!['▀']
            && r@[x].1 == qr_cell_style(t, mods@, w as nat, x, row as int),
{
    let side: u128 = w as u128 + 2;
    let mut out: Vec<(String, Style)> = Vec::new();
    let mut x: u128 = 0;
    proof {
        reveal_strlit("▀");
    }
    while x < side
        invariant
            side == w + 2,
            x <= side,
            row <= 0xffff_ffff_ffff_ffff,
            "▀"@ == seq!['▀'],
            out@.len() == x,
            forall|k: int| #![trigger out@[k]] 0 <= k < x ==> out@[k].0@ == seq!['▀']
                && out@[k].1 == qr_cell_style(t, mods@, w as nat, k, row as int),
        decreases side - x,
    {
        let upper = if module_dark_exec(mods, w, x, 2 * row) { t.text } else { t.bg };
        let lower = if 2 * row + 1 < side {
            if module_dark_exec(mods, w, x, 2 * row + 1) { t.text } else { t.bg }
        } else {
            t.bg
        };
        out.push(("▀".to_owned(), Style::new().fg(upper).bg(lower)));
        x = x + 1;
    }
    out
}

impl Context {
    /// A QR code for `data`, drawn with half blocks in the theme's text and
    /// background colors, with a one-module quiet zone. Data that does not
    /// fit a QR code shows `[QR Error]` instead.
    pub fn qr_code(&mut self, data: &str) -> (r: Response)
        requires
            old(self).wf(),
            old(self).commands@.len() + 3 < usize::MAX,
        ensures
            final(self).wf(),
            r == no_response(),
            match qr_modules(data@) {
                None => {
                    &&& appended_text(*old(self), *final(self))
                    &&& is_plain_text(final(self).commands@.last(), seq!['[', 'Q', 'R', ' ', 'E', 'r', 'r', 'o', 'r', ']'],
                        Style { fg: Some(crate::context::widgets_display::text::inherited_fg(old(self).text_color_stack@,
                            old(self).theme.text)), bg: None, modifiers: Modifiers(0) })
                },
                Some((w, mods)) => {
                    let n = old(self).commands@.len() as int;
                    let side = w + 2;
                    let height = (side + 1) / 2;
                    &&& final(self).commands@.len() == n + height + 2
                    &&& final(self).commands@.take(n) == old(self).commands@
                    &&& final(self).commands@[n] == Command::BeginContainer(
                        qr_box(#[verifier::truncate] (side as u32), #[verifier::truncate] (height as u32), old(self).theme.border))
                    &&& forall|row: int| 0 <= row < height ==> is_qr_row(#[trigger] final(self).commands@[n + 1 + row],
                        old(self).theme, mods, w, row)
                    &&& final(self).commands@[n + 1 + height] == Command::EndContainer
                    &&& *final(self) == (Context { commands: final(self).commands, last_text_idx: None, ..*old(self) })
                },
            },
    {
        let encoded = qr_encode(data);
        match encoded {
            None => {
                proof {
                    reveal_strlit("[QR Error]");
                    assert("[QR Error]"@ =~= seq!['[', 'Q', 'R', ' ', 'E', 'r', 'r', 'o', 'r', ']']);
                }
                self.text("[QR Error]");
                Response::none()
            },
            Some((w, mods)) => {
                let side: u128 = w as u128 + 2;
                let height: u128 = (side + 1) / 2;
                let c = Constraints {
                    min_width: Some(#[verifier::truncate] (side as u32)),
                    max_width: Some(#[verifier::truncate] (side as u32)),
                    min_height: Some(#[verifier::truncate] (height as u32)),
                    max_height: Some(#[verifier::truncate] (height as u32)),
                    width_pct: None,
                    height_pct: None,
                };
                let border = self.theme.border;
                let args = ContainerArgs { constraints: c, ..plain_container_args(Direction::Column, 0, border) };
                self.begin_container(args);
                let ghost n = old(self).commands@.len() as int;
                let mut row: u128 = 0;
                while row < height
                    invariant
                        self.wf(),
                        side == w + 2,
                        height == (side + 1) / 2,
                        row <= height,
                        qr_modules(data@) == Some((w as nat, mods@)),
                        n == old(self).commands@.len(),
                        self.commands@.len() == n + 1 + row,
                        self.commands@.take(n) == old(self).commands@,
                        self.commands@[n] == Command::BeginContainer(qr_box(#[verifier::truncate] (side as u32), #[verifier::truncate] (height as u32), old(self).theme.border)),
                        forall|r: int| 0 <= r < row ==> is_qr_row(#[trigger] self.commands@[n + 1 + r],
                            old(self).theme, mods@, w as nat, r),
                        *self == (Context { commands: self.commands, ..*old(self) }),
                    decreases height - row,
                {
                    let segments = qr_row(self.theme, &mods, w, row);
                    let cmd = Command::RichText {
                        segments,
                        wrap: false,
                        align: Align::Start,
                        margin: Margin { top: 0, right: 0, bottom: 0, left: 0 },
                        constraints: Constraints::none(),
                    };
                    let ghost before = self.commands@;
                    self.commands.push(cmd);
                    proof {
                        assert(self.commands@.take(n) =~= before.take(n));
                        assert(self.commands@[n] == before[n]);
                        assert forall|r: int| 0 <= r <= row implies is_qr_row(#[trigger] self.commands@[n + 1 + r],
                            old(self).theme, mods@, w as nat, r) by {
                            if r < row {
                                assert(self.commands@[n + 1 + r] == before[n + 1 + r]);
                            }
                        }
                    }
                    row = row + 1;
                }
                self.end_container();
                Response::none()
            },
        }
    }
}

} // verus!
