//! The per-frame UI context: the frame's input events and which of them are
//! already claimed, the draw list being built, focus and hit-test state from
//! the previous frame, and the primitives every widget builds on.
use vstd::prelude::*;
use crate::command::{Command, ContainerArgs};

pub(crate) mod widgets_display;
pub(crate) mod widgets_input;
pub(crate) mod widgets_interactive;
pub(crate) mod widgets_viz;

pub use widgets_display::layout::{Anchor, ModalOptions, ScreenNav};
pub use widgets_display::status::{AlertLevel, ConfirmState, Trend};
pub use widgets_display::text::TextEdit;
pub use widgets_display::streaming::{StreamingMarkdownState, StreamingTextState};
pub use widgets_interactive::collections::{ListResponse, ListState, WidgetColors};
pub use widgets_interactive::file_picker::{FileEntry, FilePickerState};
pub use widgets_interactive::palette::{CommandPaletteState, PaletteCommand};
pub use widgets_input::form::{FormField, FormState, ValidateTrigger, Validator};
pub use widgets_input::input_state::TextInputState;
pub use widgets_input::validators;
pub use widgets_interactive::selection::ButtonVariant;
pub use widgets_interactive::radio::RadioState;
pub use widgets_interactive::tabs::TabsState;
pub use widgets_interactive::grid::GridColumn;
pub use widgets_interactive::calendar::{CalDate, CalendarSelect, CalendarState};
pub use widgets_interactive::rich_log::{RichLogEntry, RichLogState};
pub use widgets_interactive::paginator::{PaginatorState, PaginatorStyle};
pub use widgets_interactive::multi_select::MultiSelectState;
pub use widgets_display::breadcrumb::{Breadcrumb, BreadcrumbResponse};
pub use widgets_interactive::tree::{DirectoryTreeState, TreeItem, TreeState};
use crate::event::{Event, KeyCode, KeyEventKind, MouseButton, MouseKind};
use crate::style::{open_constraints, rect_contains, Align, Color, Constraints, DebugLayer, Direction, Justify, Margin, Modifiers, Padding, Rect, Style, Theme};

verus! {

/// Interaction state a widget reports back to the caller.
#[derive(Debug, Clone, Copy, PartialEq, Eq, Structural)]
pub struct Response {
    pub clicked: bool,
    pub right_clicked: bool,
    pub double_clicked: bool,
    pub hovered: bool,
    pub changed: bool,
    pub focused: bool,
    pub gained_focus: bool,
    pub lost_focus: bool,
    pub submitted: bool,
    pub scroll_delta: i32,
    pub rect: Rect,
}

/// The response of a widget that was not hit by anything.
pub open spec fn no_response() -> Response {
    Response {
        clicked: false,
        right_clicked: false,
        double_clicked: false,
        hovered: false,
        changed: false,
        focused: false,
        gained_focus: false,
        lost_focus: false,
        submitted: false,
        scroll_delta: 0,
        rect: Rect { x: 0, y: 0, width: 0, height: 0 },
    }
}

impl Response {
    /// A response with every flag cleared and an empty rectangle.
    pub fn none() -> (r: Response)
        ensures
            r == no_response(),
    {
        Response {
            clicked: false,
            right_clicked: false,
            double_clicked: false,
            hovered: false,
            changed: false,
            focused: false,
            gained_focus: false,
            lost_focus: false,
            submitted: false,
            scroll_delta: 0,
            rect: Rect { x: 0, y: 0, width: 0, height: 0 },
        }
    }
}

/// Whether the optional point `p` lies inside `r`.
pub open spec fn hit(p: Option<(u32, u32)>, r: Rect) -> bool {
    match p {
        Some((x, y)) => rect_contains(r, x, y),
        None => false,
    }
}

/// Whether `e` is a press (of any modifiers) of `code`.
pub open spec fn is_press_of(e: Event, code: KeyCode) -> bool {
    e matches Event::Key(k) && k.kind == KeyEventKind::Press && k.code == code
}

/// Whether `e` is a left button press inside `r`.
pub open spec fn rect_hit_left_down(e: Event, r: Rect) -> bool {
    e matches Event::Mouse(m) && m.kind == MouseKind::Down(MouseButton::Left) && rect_contains(r, m.x, m.y)
}

/// `seq` with `true` written at every position listed in `idx`.
pub open spec fn mark_all(seq: Seq<bool>, idx: Seq<usize>) -> Seq<bool> {
    Seq::new(seq.len(), |k: int| seq[k] || idx.contains(k as usize))
}

/// Position of the first event that is a left button press, if any.
pub open spec fn first_left_down(events: Seq<Event>) -> Option<(u32, u32)>
    decreases events.len(),
{
    if events.len() == 0 {
        None
    } else {
        match events[0] {
            Event::Mouse(m) if m.kind == MouseKind::Down(MouseButton::Left) => Some((m.x, m.y)),
            _ => first_left_down(events.drop_first()),
        }
    }
}

/// Position of the last mouse event, if any.
pub open spec fn last_mouse_pos(events: Seq<Event>) -> Option<(u32, u32)>
    decreases events.len(),
{
    if events.len() == 0 {
        None
    } else {
        match events.last() {
            Event::Mouse(m) => Some((m.x, m.y)),
            _ => last_mouse_pos(events.drop_last()),
        }
    }
}

/// The state one frame of UI code reads and writes.
pub struct Context {
    /// This frame's input events, in arrival order.
    pub events: Vec<Event>,
    /// `consumed[i]` is set once a widget has claimed `events[i]`.
    pub consumed: Vec<bool>,
    /// The draw list built so far.
    pub commands: Vec<Command>,
    /// Index of the most recent text-like command, target of style chaining.
    pub last_text_idx: Option<usize>,
    /// Text colors pushed by enclosing containers (`None` entries inherit).
    pub text_color_stack: Vec<Option<Color>>,
    pub theme: Theme,
    pub dark_mode: bool,
    /// A modal was opened during this frame.
    pub modal_active: bool,
    /// A modal was open during the previous frame.
    pub prev_modal_active: bool,
    /// Number of overlays currently open around the code being run.
    pub overlay_depth: u32,
    /// Focusable slots registered while the current modal was open.
    pub modal_focus_start: usize,
    pub modal_focus_count: usize,
    /// Last known mouse position.
    pub mouse_pos: Option<(u32, u32)>,
    /// Position of this frame's left click, if any.
    pub click_pos: Option<(u32, u32)>,
    /// Position of this frame's right click, if any.
    pub right_click_pos: Option<(u32, u32)>,
    /// Position of this frame's double click, if any.
    pub double_click_pos: Option<(u32, u32)>,
    /// Where the wheel moved this frame, if it did.
    pub scroll_pos: Option<(u32, u32)>,
    /// Net wheel movement this frame (positive is down).
    pub scroll_delta_frame: i32,
    /// Hit rectangles of the previous frame, by interaction id.
    pub prev_hit_map: Vec<Rect>,
    /// Interaction slots allocated so far this frame.
    pub interaction_count: usize,
    /// Index of the focused focusable widget.
    pub focus_index: usize,
    /// Focusable widgets registered so far this frame.
    pub focus_count: usize,
    /// Focusable widgets registered during the previous frame.
    pub prev_focus_count: usize,
    /// Group name of each focusable widget of the previous frame.
    pub prev_focus_groups: Vec<Option<String>>,
    /// Groups under the mouse cursor.
    pub hovered_groups: Vec<String>,
    /// Groups enclosing the code being run, innermost last.
    pub group_stack: Vec<String>,
    pub area_width: u32,
    pub area_height: u32,
    pub tick: u64,
    pub debug: bool,
    pub debug_layer: DebugLayer,
    pub should_quit: bool,
    pub clipboard_text: Option<String>,
    /// Screen navigation requested inside the running screen closures, in order.
    pub pending_screen_nav: Vec<ScreenNav>,
    /// Number of screen closures enclosing the code being run.
    pub screen_nav_depth: usize,
    /// Keys of a multi-key chord typed so far, across frames.
    pub chord_pending: Vec<char>,
    /// Tick of the last key that advanced a chord.
    pub chord_last_tick: u64,
    /// Link targets activated this frame, for the host to open, in order.
    pub pending_urls: Vec<String>,
    /// Lines a scrolling view moves per wheel notch.
    pub scroll_lines_per_event: u32,
}

impl Context {
    /// The context's internal consistency.
    pub open spec fn wf(&self) -> bool {
        &&& self.consumed@.len() == self.events@.len()
        &&& (self.last_text_idx matches Some(i) ==> i < self.commands@.len())
    }

    /// Input is withheld from code outside overlays while a modal is open.
    pub open spec fn blocked(&self) -> bool {
        (self.modal_active || self.prev_modal_active) && self.overlay_depth == 0
    }

    /// Whether event `i` exists and is still unclaimed.
    pub open spec fn live(&self, i: int) -> bool {
        0 <= i < self.events@.len() && !self.consumed@[i]
    }

    /// The response interaction slot `id` gets from the previous frame's hit map.
    pub open spec fn spec_response_for(&self, id: int) -> Response {
        if self.blocked() || id < 0 || id >= self.prev_hit_map@.len() {
            no_response()
        } else {
            let r = self.prev_hit_map@[id];
            Response {
                clicked: hit(self.click_pos, r),
                right_clicked: hit(self.right_click_pos, r),
                double_clicked: hit(self.double_click_pos, r),
                hovered: hit(self.mouse_pos, r),
                changed: false,
                focused: false,
                gained_focus: false,
                lost_focus: false,
                submitted: false,
                scroll_delta: if hit(self.scroll_pos, r) {
                    self.scroll_delta_frame
                } else {
                    0
                },
                rect: r,
            }
        }
    }

    /// Whether the next focusable slot (`focus_count`) holds focus.
    pub open spec fn next_focusable_is_focused(&self) -> bool {
        self.prev_focus_count > 0 && self.focus_index % self.prev_focus_count == self.focus_count
    }

    /// Start a frame of `width` x `height` cells with the given input events,
    /// nothing claimed, nothing drawn, and the dark theme.
    pub fn new(width: u32, height: u32, events: Vec<Event>) -> (ctx: Context)
        ensures
            ctx.wf(),
            ctx.events@ == events@,
            forall|i: int| 0 <= i < events@.len() ==> !ctx.consumed@[i],
            ctx.commands@.len() == 0,
            ctx.last_text_idx is None,
            ctx.area_width == width,
            ctx.area_height == height,
            ctx.click_pos == first_left_down(events@),
            ctx.mouse_pos == last_mouse_pos(events@),
            !ctx.modal_active && !ctx.prev_modal_active && ctx.overlay_depth == 0,
            ctx.prev_hit_map@.len() == 0,
            ctx.interaction_count == 0,
            ctx.focus_index == 0 && ctx.focus_count == 0 && ctx.prev_focus_count == 0,
            ctx.text_color_stack@.len() == 0,
            ctx.theme == Theme::spec_dark(),
            ctx.pending_urls@.len() == 0,
    {
        let mut consumed: Vec<bool> = Vec::new();
        let mut click_pos: Option<(u32, u32)> = None;
        let mut mouse_pos: Option<(u32, u32)> = None;
        let n = events.len();
        let mut i: usize = 0;
        while i < n
            invariant
                n == events@.len(),
                i <= n,
                consumed@.len() == i,
                forall|k: int| 0 <= k < i ==> !consumed@[k],
                click_pos == first_left_down(events@.take(i as int)),
                mouse_pos == last_mouse_pos(events@.take(i as int)),
            decreases n - i,
        {
            proof {
                lemma_first_left_down_push(events@.take(i as int), events@[i as int]);
                assert(events@.take(i as int + 1) == events@.take(i as int).push(events@[i as int]));
                assert(events@.take(i as int + 1).drop_last() == events@.take(i as int));
            }
            match &events[i] {
                Event::Mouse(m) => {
                    if click_pos.is_none() && m.kind == MouseKind::Down(MouseButton::Left) {
                        click_pos = Some((m.x, m.y));
                    }
                    mouse_pos = Some((m.x, m.y));
                },
                _ => {},
            }
            consumed.push(false);
            i = i + 1;
        }
        proof {
            assert(events@.take(n as int) == events@);
        }
        Context {
            events,
            consumed,
            commands: Vec::new(),
            last_text_idx: None,
            text_color_stack: Vec::new(),
            theme: Theme::dark(),
            dark_mode: true,
            modal_active: false,
            prev_modal_active: false,
            overlay_depth: 0,
            modal_focus_start: 0,
            modal_focus_count: 0,
            mouse_pos,
            click_pos,
            right_click_pos: None,
            double_click_pos: None,
            scroll_pos: None,
            scroll_delta_frame: 0,
            prev_hit_map: Vec::new(),
            interaction_count: 0,
            focus_index: 0,
            focus_count: 0,
            prev_focus_count: 0,
            prev_focus_groups: Vec::new(),
            hovered_groups: Vec::new(),
            group_stack: Vec::new(),
            area_width: width,
            area_height: height,
            tick: 0,
            debug: false,
            debug_layer: DebugLayer::All,
            should_quit: false,
            clipboard_text: None,
            pending_screen_nav: Vec::new(),
            screen_nav_depth: 0,
            chord_pending: Vec::new(),
            chord_last_tick: 0,
            pending_urls: Vec::new(),
            scroll_lines_per_event: 1,
        }
    }

    /// Whether input is withheld from the code being run.
    pub fn is_blocked(&self) -> (r: bool)
        ensures
            r == self.blocked(),
    {
        (self.modal_active || self.prev_modal_active) && self.overlay_depth == 0
    }

    /// Mark every event listed in `indices` as claimed.
    pub fn consume_indices(&mut self, indices: Vec<usize>)
        requires
            old(self).wf(),
        ensures
            final(self).wf(),
            final(self).consumed@ == mark_all(old(self).consumed@, indices@),
            *final(self) == (Context { consumed: final(self).consumed, ..*old(self) }),
    {
        let n = indices.len();
        let mut k: usize = 0;
        let ghost orig = self.consumed@;
        while k < n
            invariant
                n == indices@.len(),
                k <= n,
                orig.len() == self.events@.len(),
                self.wf(),
                self.consumed@.len() == orig.len(),
                forall|j: int|
                    0 <= j < orig.len() ==> #[trigger] self.consumed@[j] == (orig[j] || exists|w: int|
                        0 <= w < k && #[trigger] indices@[w] == j as usize),
                *self == (Context { consumed: self.consumed, ..*old(self) }),
            decreases n - k,
        {
            let idx = indices[k];
            if idx < self.consumed.len() {
                self.consumed.set(idx, true);
            }
            proof {
                assert forall|j: int| 0 <= j < orig.len() implies #[trigger] self.consumed@[j] == (
                orig[j] || exists|w: int| 0 <= w < k + 1 && #[trigger] indices@[w] == j as usize) by {
                    if j == idx as int {
                        assert(indices@[k as int] == j as usize);
                    }
                }
            }
            k = k + 1;
        }
        proof {
            assert forall|j: int| 0 <= j < orig.len() implies #[trigger] self.consumed@[j] == mark_all(orig, indices@)[j] by {
                if indices@.contains(j as usize) {
                    let w = choose|w: int| 0 <= w < n && indices@[w] == j as usize;
                }
            }
            assert(self.consumed@ == mark_all(orig, indices@));
        }
    }

    /// The response interaction slot `id` gets from the previous frame.
    pub fn response_for(&self, id: usize) -> (r: Response)
        ensures
            r == self.spec_response_for(id as int),
    {
        if self.is_blocked() || id >= self.prev_hit_map.len() {
            return Response::none();
        }
        let rect = self.prev_hit_map[id];
        let clicked = match self.click_pos {
            Some((x, y)) => rect.contains(x, y),
            None => false,
        };
        let right_clicked = match self.right_click_pos {
            Some((x, y)) => rect.contains(x, y),
            None => false,
        };
        let double_clicked = match self.double_click_pos {
            Some((x, y)) => rect.contains(x, y),
            None => false,
        };
        let hovered = match self.mouse_pos {
            Some((x, y)) => rect.contains(x, y),
            None => false,
        };
        let scroll_delta = match self.scroll_pos {
            Some((x, y)) => if rect.contains(x, y) {
                self.scroll_delta_frame
            } else {
                0
            },
            None => 0,
        };
        Response {
            clicked,
            right_clicked,
            double_clicked,
            hovered,
            changed: false,
            focused: false,
            gained_focus: false,
            lost_focus: false,
            submitted: false,
            scroll_delta,
            rect,
        }
    }
}

impl Context {
    /// Whether event `i` is an unclaimed press of one of `codes`.
    pub open spec fn live_press_in(&self, i: int, codes: Seq<KeyCode>) -> bool {
        &&& self.live(i)
        &&& self.events@[i] matches Event::Key(k)
        &&& k.kind == KeyEventKind::Press
        &&& codes.contains(k.code)
    }

    /// Reserve a focusable slot; `true` when it holds keyboard focus. A
    /// focused slot is marked in the draw list.
    pub fn register_focusable(&mut self) -> (focused: bool)
        requires
            old(self).wf(),
        ensures
            final(self).wf(),
            focused == old(self).next_focusable_is_focused(),
            final(self).focus_count == (if old(self).focus_count < usize::MAX { (old(self).focus_count + 1) as usize } else { usize::MAX }),
            focused ==> final(self).commands@ == old(self).commands@.push(Command::FocusMarker(old(self).focus_count)),
            !focused ==> final(self).commands@ == old(self).commands@,
            *final(self) == (Context { commands: final(self).commands, focus_count: final(self).focus_count, ..*old(self) }),
    {
        let id = self.focus_count;
        let focused = self.prev_focus_count > 0 && self.focus_index % self.prev_focus_count == id;
        self.focus_count = self.focus_count.saturating_add(1);
        if focused {
            self.commands.push(Command::FocusMarker(id));
        }
        focused
    }

    /// Reserve the next interaction slot and mark it in the draw list.
    pub fn next_interaction_id(&mut self) -> (id: usize)
        requires
            old(self).wf(),
        ensures
            final(self).wf(),
            id == old(self).interaction_count,
            final(self).interaction_count == (if id < usize::MAX { (id + 1) as usize } else { usize::MAX }),
            final(self).commands@ == old(self).commands@.push(Command::InteractionMarker(id)),
            *final(self) == (Context { commands: final(self).commands, interaction_count: final(self).interaction_count, ..*old(self) }),
    {
        let id = self.interaction_count;
        self.interaction_count = self.interaction_count.saturating_add(1);
        self.commands.push(Command::InteractionMarker(id));
        id
    }

    /// Reserve an interaction slot and report what hit it in the previous frame.
    pub fn interaction(&mut self) -> (r: Response)
        requires
            old(self).wf(),
        ensures
            final(self).wf(),
            r == old(self).spec_response_for(old(self).interaction_count as int),
            final(self).interaction_count == (if old(self).interaction_count < usize::MAX { (old(self).interaction_count + 1) as usize } else { usize::MAX }),
            final(self).commands@ == old(self).commands@.push(Command::InteractionMarker(old(self).interaction_count)),
            *final(self) == (Context { commands: final(self).commands, interaction_count: final(self).interaction_count, ..*old(self) }),
    {
        let id = self.next_interaction_id();
        self.response_for(id)
    }

    /// When `focused`, claim every pending Enter or Space press; `true` if there was one.
    pub fn consume_activation_keys(&mut self, focused: bool) -> (r: bool)
        requires
            old(self).wf(),
        ensures
            final(self).wf(),
            r == (focused && exists|i: int| old(self).live_press_in(i, seq![KeyCode::Enter, KeyCode::Char(' ')])),
            forall|i: int| 0 <= i < final(self).consumed@.len() ==> #[trigger] final(self).consumed@[i] == (old(self).consumed@[i]
                || (focused && old(self).live_press_in(i, seq![KeyCode::Enter, KeyCode::Char(' ')]))),
            final(self).consumed@.len() == old(self).consumed@.len(),
            *final(self) == (Context { consumed: final(self).consumed, ..*old(self) }),
    {
        self.claim_pair(focused, KeyCode::Enter, KeyCode::Char(' '))
    }

    /// When `focused`, claim every pending press of `a` or `b`; `true` if there was one.
    pub fn claim_pair(&mut self, focused: bool, a: KeyCode, b: KeyCode) -> (r: bool)
        requires
            old(self).wf(),
        ensures
            final(self).wf(),
            r == (focused && exists|i: int| old(self).live_press_in(i, seq![a, b])),
            forall|i: int| 0 <= i < final(self).consumed@.len() ==> #[trigger] final(self).consumed@[i] == (old(self).consumed@[i]
                || (focused && old(self).live_press_in(i, seq![a, b]))),
            final(self).consumed@.len() == old(self).consumed@.len(),
            *final(self) == (Context { consumed: final(self).consumed, ..*old(self) }),
    {
        let ghost codes = seq![a, b];
        if !focused {
            return false;
        }
        let n = self.events.len();
        let mut found = false;
        let mut i: usize = 0;
        while i < n
            invariant
                n == self.events@.len(),
                i <= n,
                self.wf(),
                codes == seq![a, b],
                self.consumed@.len() == n,
                *self == (Context { consumed: self.consumed, ..*old(self) }),
                found == exists|j: int| 0 <= j < i && old(self).live_press_in(j, codes),
                forall|j: int| 0 <= j < n ==> #[trigger] self.consumed@[j] == (old(self).consumed@[j]
                    || (j < i && old(self).live_press_in(j, codes))),
            decreases n - i,
        {
            let hit = if !self.consumed[i] {
                match &self.events[i] {
                    Event::Key(k) => k.kind == KeyEventKind::Press && (k.code == a || k.code == b),
                    _ => false,
                }
            } else {
                false
            };
            proof {
                assert(codes[0] == a);
                assert(codes[1] == b);
                match self.events@[i as int] {
                    Event::Key(k) => {
                        if codes.contains(k.code) {
                            let w = choose|w: int| 0 <= w < codes.len() && codes[w] == k.code;
                            assert(w == 0 || w == 1);
                        }
                    },
                    _ => {},
                }
                assert(hit == old(self).live_press_in(i as int, codes));
            }
            if hit {
                self.consumed.set(i, true);
                found = true;
            }
            i = i + 1;
        }
        found
    }

    /// Append a container opening.
    pub fn begin_container(&mut self, args: ContainerArgs)
        requires
            old(self).wf(),
        ensures
            final(self).wf(),
            final(self).commands@ == old(self).commands@.push(Command::BeginContainer(args)),
            *final(self) == (Context { commands: final(self).commands, ..*old(self) }),
    {
        self.commands.push(Command::BeginContainer(args));
    }

    /// Append a container closing; nothing is a style-chain target afterwards.
    pub fn end_container(&mut self)
        requires
            old(self).wf(),
        ensures
            final(self).wf(),
            final(self).commands@ == old(self).commands@.push(Command::EndContainer),
            *final(self) == (Context { commands: final(self).commands, last_text_idx: None, ..*old(self) }),
    {
        self.commands.push(Command::EndContainer);
        self.last_text_idx = None;
    }
}

impl Context {
    /// Open a plain container in `direction` with its own interaction slot;
    /// returns the slot id. Text inside inherits the enclosing text color.
    pub fn open_group(&mut self, direction: Direction, gap: i32) -> (id: usize)
        requires
            old(self).wf(),
        ensures
            final(self).wf(),
            id == old(self).interaction_count,
            final(self).interaction_count == (if id < usize::MAX { (id + 1) as usize } else { usize::MAX }),
            final(self).commands@ == old(self).commands@.push(Command::InteractionMarker(id)).push(
                Command::BeginContainer(plain_container(direction, gap, old(self).theme.border)),
            ),
            *final(self) == (Context {
                commands: final(self).commands,
                interaction_count: final(self).interaction_count,
                ..*old(self)
            }),
    {
        let id = self.next_interaction_id();
        let args = plain_container_args(direction, gap, self.theme.border);
        self.begin_container(args);
        id
    }

    /// Close a container opened by [`open_group`](Self::open_group) and
    /// report what hit slot `id` in the previous frame.
    pub fn close_group(&mut self, id: usize) -> (r: Response)
        requires
            old(self).wf(),
        ensures
            final(self).wf(),
            r == old(self).spec_response_for(id as int),
            final(self).commands@ == old(self).commands@.push(Command::EndContainer),
            *final(self) == (Context {
                commands: final(self).commands,
                last_text_idx: None,
                ..*old(self)
            }),
    {
        self.end_container();
        self.response_for(id)
    }
}

/// A container with default layout in `direction`, whose border (if any) is
/// drawn in `border_color`.
pub open spec fn plain_container(direction: Direction, gap: i32, border_color: Color) -> ContainerArgs {
    ContainerArgs {
        direction,
        gap,
        align: Align::Start,
        justify: Justify::Start,
        border: None,
        border_style: Style { fg: Some(border_color), bg: None, modifiers: Modifiers(0) },
        bg_color: None,
        padding: Padding { top: 0, right: 0, bottom: 0, left: 0 },
        margin: Margin { top: 0, right: 0, bottom: 0, left: 0 },
        constraints: open_constraints(),
        grow: 0,
    }
}

/// The arguments of [`plain_container`].
pub fn plain_container_args(direction: Direction, gap: i32, border_color: Color) -> (a: ContainerArgs)
    ensures
        a == plain_container(direction, gap, border_color),
{
    ContainerArgs {
        direction,
        gap,
        align: Align::Start,
        justify: Justify::Start,
        border: None,
        border_style: Style::new().fg(border_color),
        bg_color: None,
        padding: Padding { top: 0, right: 0, bottom: 0, left: 0 },
        margin: Margin::zero(),
        constraints: Constraints::none(),
        grow: 0,
    }
}

/// Appending one event extends the scan of the first left click and of the
/// last mouse position in the obvious way.
pub proof fn lemma_first_left_down_push(s: Seq<Event>, e: Event)
    ensures
        first_left_down(s.push(e)) == (match first_left_down(s) {
            Some(p) => Some(p),
            None => match e {
                Event::Mouse(m) if m.kind == MouseKind::Down(MouseButton::Left) => Some((m.x, m.y)),
                _ => None,
            },
        }),
        last_mouse_pos(s.push(e)) == (match e {
            Event::Mouse(m) => Some((m.x, m.y)),
            _ => last_mouse_pos(s),
        }),
    decreases s.len(),
{
    assert(s.push(e).drop_last() == s);
    if s.len() > 0 {
        assert(s.push(e)[0] == s[0]);
        assert(s.push(e).drop_first() == s.drop_first().push(e));
        lemma_first_left_down_push(s.drop_first(), e);
    } else {
        assert(s.push(e)[0] == e);
        assert(s.push(e).drop_first().len() == 0);
        assert(first_left_down(s.push(e).drop_first()) is None);
    }
}

} // verus!
