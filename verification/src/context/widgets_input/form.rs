//! Form fields: a labelled text input with validators that run on change,
//! on blur, or only when asked.
use vstd::prelude::*;
use crate::command::Command;
use crate::context::{plain_container, Context, Response};
use crate::context::widgets_display::layout::sat_inc;
use crate::context::widgets_display::status::{added, grew_by};
use crate::context::widgets_display::text::is_plain_text;
use crate::context::widgets_input::input_keys::{input_claims, input_events};
use crate::context::widgets_input::input_state::TextInputState;
use crate::context::widgets_input::text_input::{settled, start_model, text_input_drawn};
use crate::context::widgets_interactive::collections::WidgetColors;
use crate::context::widgets_interactive::selection::{activation_pending, control_frame, variant_row, variant_style, variant_text, ButtonVariant};
use crate::style::{Direction, Modifiers, Style, BOLD, DIM};

verus! {

/// A check a field's value must pass.
#[derive(Debug, Clone)]
pub enum Validator {
    /// The value holds a character other than whitespace; else the message.
    Required(String),
    /// The value looks like an e-mail address.
    Email,
}

/// When a field's validators run by themselves.
#[derive(Debug, Clone, Copy, PartialEq, Eq, Structural)]
pub enum ValidateTrigger {
    /// After every edit.
    OnChange,
    /// When focus leaves the field.
    OnBlur,
    /// Only through [`FormField::run_validators`].
    Manual,
}

/// Whitespace for [`Validator::Required`].
pub open spec fn is_blank_char(c: char) -> bool {
    c == ' ' || c == '\t' || c == '\n' || c == '\r'
}

/// `value` has an `@` with something before it, and a `.` after the `@`
/// with something on both sides.
pub open spec fn looks_like_email(value: Seq<char>) -> bool {
    exists|i: int, j: int| 0 < i && i + 1 < j && j + 1 < value.len()
        && #[trigger] value[i] == '@' && #[trigger] value[j] == '.'
}

/// The message of the e-mail check.
pub open spec fn email_message() -> Seq<char> {
    seq!['i', 'n', 'v', 'a', 'l', 'i', 'd', ' ', 'e', 'm', 'a', 'i', 'l']
}

/// What validator `v` says of `value`: `None` when it passes.
pub open spec fn check(v: Validator, value: Seq<char>) -> Option<Seq<char>> {
    match v {
        Validator::Required(msg) => if forall|i: int| 0 <= i < value.len() ==> is_blank_char(#[trigger] value[i]) {
            Some(msg@)
        } else {
            None
        },
        Validator::Email => if looks_like_email(value) { None } else { Some(email_message()) },
    }
}

/// The message of the first validator among the first `n` that fails.
pub open spec fn first_failure(vs: Seq<Validator>, n: nat, value: Seq<char>) -> Option<Seq<char>>
    decreases n,
{
    if n == 0 {
        None
    } else {
        match first_failure(vs, (n - 1) as nat, value) {
            Some(m) => Some(m),
            None => check(vs[n - 1], value),
        }
    }
}

/// A labelled input with its validators and current error.
pub struct FormField {
    pub label: String,
    pub input: TextInputState,
    /// The message of the last failed validation, if any.
    pub error: Option<String>,
    pub validators: Vec<Validator>,
    pub trigger: ValidateTrigger,
    /// The input held focus the last time it was drawn.
    pub was_focused: bool,
}

fn blank(value: &str) -> (r: bool)
    ensures
        r == forall|i: int| 0 <= i < value@.len() ==> is_blank_char(#[trigger] value@[i]),
{
    let n = value.unicode_len();
    let mut i: usize = 0;
    while i < n
        invariant
            n == value@.len(),
            i <= n,
            forall|j: int| 0 <= j < i ==> is_blank_char(#[trigger] value@[j]),
        decreases n - i,
    {
        let c = value.get_char(i);
        if !(c == ' ' || c == '\t' || c == '\n' || c == '\r') {
            return false;
        }
        i = i + 1;
    }
    true
}

fn email_ok(value: &str) -> (r: bool)
    ensures
        r == looks_like_email(value@),
{
    let n = value.unicode_len();
    // Position of the first `@` after the start, if any.
    let mut at: usize = 0;
    let mut found = false;
    let mut i: usize = 1;
    while i < n
        invariant
            n == value@.len(),
            1 <= i,
            i <= n || n == 0,
            found ==> 0 < at < i && at < n && value@[at as int] == '@',
            !found ==> forall|k: int| 0 < k < i && k < n ==> value@[k] != '@',
            found ==> forall|k: int| 0 < k < at ==> value@[k] != '@',
        decreases n - i,
    {
        if !found && value.get_char(i) == '@' {
            at = i;
            found = true;
        }
        i = i + 1;
    }
    if !found {
        assert forall|a: int, b: int| 0 < a && a + 1 < b && b + 1 < n && #[trigger] value@[a] == '@' && #[trigger] value@[b] == '.' implies false by {}
        return false;
    }
    // A `.` strictly inside the part after the first `@`.
    let mut j: usize = at + 1;
    while j < n
        invariant
            n == value@.len(),
            0 < at < j,
            j <= n,
            value@[at as int] == '@',
            forall|k: int| 0 < k < at ==> value@[k] != '@',
            forall|k: int| at + 2 <= k < j && k + 1 < n ==> value@[k] != '.',
        decreases n - j,
    {
        if j - at >= 2 && j < n - 1 && value.get_char(j) == '.' {
            assert(value@[at as int] == '@' && value@[j as int] == '.');
            return true;
        }
        j = j + 1;
    }
    proof {
        assert forall|a: int, b: int| 0 < a && a + 1 < b && b + 1 < n && #[trigger] value@[a] == '@' && #[trigger] value@[b] == '.' implies false by {
            assert(a >= at);
            if a == at {
                assert(at + 2 <= b);
            } else {
                assert(a > at);
                assert(at + 2 <= b);
            }
        }
    }
    false
}

impl FormField {
    /// A field labelled `label`, empty, validated when focus leaves it.
    pub fn new(label: &str) -> (f: FormField)
        ensures
            f.label@ == label@,
            f.input.value@ == Seq::<char>::empty(),
            f.error is None,
            f.validators@.len() == 0,
            f.trigger == ValidateTrigger::OnBlur,
            !f.was_focused,
    {
        FormField {
            label: label.to_owned(),
            input: TextInputState::new(),
            error: None,
            validators: Vec::new(),
            trigger: ValidateTrigger::OnBlur,
            was_focused: false,
        }
    }

    /// Add a validator.
    pub fn validate(self, v: Validator) -> (f: FormField)
        ensures
            f.validators@ == self.validators@.push(v),
            f.label == self.label,
            f.error == self.error,
            f.trigger == self.trigger,
            f.was_focused == self.was_focused,
    {
        let mut f = self;
        f.validators.push(v);
        f
    }

    /// Validate after every edit.
    pub fn on_change(self) -> (f: FormField)
        ensures
            f.trigger == ValidateTrigger::OnChange,
            f.validators == self.validators,
            f.label == self.label,
            f.error == self.error,
    {
        FormField { trigger: ValidateTrigger::OnChange, ..self }
    }

    /// Validate only when [`run_validators`](Self::run_validators) is called.
    pub fn manual(self) -> (f: FormField)
        ensures
            f.trigger == ValidateTrigger::Manual,
            f.validators == self.validators,
            f.label == self.label,
            f.error == self.error,
    {
        FormField { trigger: ValidateTrigger::Manual, ..self }
    }

    /// Run the validators in order; the first failure's message becomes the
    /// error (none when all pass). `true` when all pass.
    pub fn run_validators(&mut self) -> (ok: bool)
        ensures
            ok == (first_failure(old(self).validators@, old(self).validators@.len() as nat, old(self).input.value@) is None),
            match first_failure(old(self).validators@, old(self).validators@.len() as nat, old(self).input.value@) {
                Some(m) => final(self).error matches Some(e) && e@ == m,
                None => final(self).error is None,
            },
            final(self).input == old(self).input,
            final(self).validators == old(self).validators,
            final(self).trigger == old(self).trigger,
            final(self).was_focused == old(self).was_focused,
            final(self).label == old(self).label,
    {
        let n = self.validators.len();
        let mut k: usize = 0;
        while k < n
            invariant
                n == self.validators@.len(),
                k <= n,
                first_failure(self.validators@, k as nat, self.input.value@) is None,
                self.input == old(self).input,
                self.validators == old(self).validators,
                self.trigger == old(self).trigger,
                self.was_focused == old(self).was_focused,
                self.label == old(self).label,
            decreases n - k,
        {
            let failed: Option<String> = match &self.validators[k] {
                Validator::Required(msg) => if blank(self.input.value.as_str()) { Some(msg.clone()) } else { None },
                Validator::Email => if email_ok(self.input.value.as_str()) {
                    None
                } else {
                    proof {
                        reveal_strlit("invalid email");
                        assert("invalid email"@ =~= email_message());
                    }
                    Some("invalid email".to_owned())
                },
            };
            match failed {
                Some(m) => {
                    self.error = Some(m);
                    proof {
                        let vs = old(self).validators@;
                        let v = old(self).input.value@;
                        assert(first_failure(vs, (k + 1) as nat, v) is Some);
                        lemma_first_failure_stays(vs, (k + 1) as nat, n as nat, v);
                    }
                    return false;
                },
                None => {},
            }
            k = k + 1;
        }
        self.error = None;
        true
    }

    /// Record whether the input is focused now; `true` when it just lost focus.
    pub fn observe_focus(&mut self, focused: bool) -> (lost: bool)
        ensures
            lost == (old(self).was_focused && !focused),
            *final(self) == (FormField { was_focused: focused, ..*old(self) }),
    {
        let lost = self.was_focused && !focused;
        self.was_focused = focused;
        lost
    }
}

/// Once a validator among the first `k` fails, the first failure among
/// more of them is the same.
pub proof fn lemma_first_failure_stays(vs: Seq<Validator>, k: nat, n: nat, value: Seq<char>)
    requires
        k <= n,
        first_failure(vs, k, value) is Some,
    ensures
        first_failure(vs, n, value) == first_failure(vs, k, value),
    decreases n - k,
{
    if n > k {
        lemma_first_failure_stays(vs, k, (n - 1) as nat, value);
    }
}

/// The input model a focused-or-not input reaches this frame.
pub open spec fn input_outcome(c: Context, s: TextInputState) -> (Seq<char>, int, bool, int, bool) {
    let focused = c.next_focusable_is_focused();
    let m0 = start_model(s);
    let keyed = if focused {
        input_events(c.events@, c.consumed@, c.events@.len() as nat, m0, s.suggestion_views(), s.max_length)
    } else {
        m0
    };
    settled(keyed, s.suggestion_views())
}

/// Whether a field's validators run this frame.
pub open spec fn validation_due(trigger: ValidateTrigger, changed: bool, lost: bool) -> bool {
    (trigger == ValidateTrigger::OnChange && changed) || (trigger == ValidateTrigger::OnBlur && lost)
}

/// The error a field holds after `validate` ran (or not) on `value`.
pub open spec fn error_after(f: FormField, due: bool, value: Seq<char>, e: Option<String>) -> bool {
    if due {
        match first_failure(f.validators@, f.validators@.len() as nat, value) {
            Some(m) => e matches Some(x) && x@ == m,
            None => e is None,
        }
    } else {
        e == f.error
    }
}

/// The fields of a form.
pub struct FormState {
    pub fields: Vec<FormField>,
}

impl FormState {
    /// A form with no fields.
    pub fn new() -> (s: FormState)
        ensures
            s.fields@.len() == 0,
    {
        FormState { fields: Vec::new() }
    }
}

impl Context {
    /// A form: `f` draws the fields, inside a column, with the form's state.
    pub fn form<F: FnOnce(&mut Context, &mut FormState)>(&mut self, state: &mut FormState, f: F) -> (r: &mut Self)
        requires
            old(self).wf(),
            forall|c: &mut Context, s: &mut FormState| #[trigger] f.requires((c, s)),
            forall|c: &mut Context, s: &mut FormState| #[trigger] f.ensures((c, s), ()) ==> final(c).wf(),
        ensures
            r.wf(),
            r.last_text_idx is None,
            r.commands@.last() == Command::EndContainer,
            *final(self) == *final(r),
    {
        let id = self.open_group(Direction::Column, 0);
        f(self, state);
        let _ = self.close_group(id);
        self
    }

    /// A labelled text input for `field`, with its error below. Its
    /// validators run after an edit (`OnChange`) or once focus leaves it
    /// (`OnBlur`); the new error shows from the next frame on.
    #[verifier::rlimit(100)]
    #[verifier::spinoff_prover]
    pub fn form_field(&mut self, field: &mut FormField) -> (r: &mut Self)
        requires
            old(self).wf(),
            old(self).commands@.len() + 24 < usize::MAX,
        ensures
            r.wf(),
            ({
                let t = old(self).theme;
                let focused = old(self).next_focusable_is_focused();
                let st = input_outcome(*old(self), old(field).input);
                let changed = st.0 != old(field).input.value@;
                let lost = old(field).was_focused && !focused;
                let due = validation_due(old(field).trigger, changed, lost);
                let n0 = old(self).commands@.len() as int;
                let m = if focused { 1int } else { 0int };
                let inner = Context {
                    interaction_count: sat_inc(old(self).interaction_count),
                    ..*old(self)
                };
                &&& final(field).input.value@ == st.0
                &&& final(field).input.cursor == st.1
                &&& final(field).input.show_suggestions == st.2
                &&& final(field).input.suggestion_index == st.3
                &&& final(field).was_focused == focused
                &&& error_after(*old(field), due, st.0, final(field).error)
                &&& final(field).validators == old(field).validators
                &&& final(field).trigger == old(field).trigger
                &&& final(field).label == old(field).label
                &&& forall|i: int| 0 <= i < r.consumed@.len() ==> #[trigger] r.consumed@[i]
                    == (old(self).consumed@[i] || (focused && input_claims(old(self).events@, old(self).consumed@, i,
                        start_model(old(field).input), old(field).input.suggestion_views(), old(field).input.max_length)))
                &&& r.consumed@.len() == old(self).consumed@.len()
                &&& r.commands@.take(n0) == old(self).commands@
                &&& r.commands@[n0] == Command::InteractionMarker(old(self).interaction_count)
                &&& r.commands@[n0 + 1] == Command::BeginContainer(plain_container(Direction::Column, 0, t.border))
                &&& is_plain_text(r.commands@[n0 + 2], old(field).label@,
                    Style { fg: Some(t.text), bg: None, modifiers: Modifiers(BOLD) })
                &&& (focused ==> r.commands@[n0 + 3] == Command::FocusMarker(old(self).focus_count))
                &&& text_input_drawn(inner, r.commands@.drop_last().take(r.commands@.len() - 1 - (if old(field).error is Some { 1int } else { 0int })),
                    n0 + 3 + m, (st.0, st.1, st.2, st.3, false), old(field).input, focused,
                    WidgetColors { fg: None, bg: None, border: None, accent: None })
                &&& (old(field).error matches Some(e) ==> is_plain_text(r.commands@[r.commands@.len() - 2], e@,
                    Style { fg: Some(t.error), bg: None, modifiers: Modifiers(DIM) }))
                &&& r.commands@.last() == Command::EndContainer
                &&& r.last_text_idx is None
            }),
            *final(self) == *final(r),
    {
        let ghost n0 = self.commands@.len() as int;
        let t = self.theme;
        let id = self.open_group(Direction::Column, 0);
        let ghost after_open = self.commands@;
        self.styled(field.label.as_str(), Style::new().bold().fg(t.text));
        let ghost before_input = *self;
        proof {
            assert(before_input.commands@.drop_last() == after_open);
            assert(after_open == old(self).commands@.push(Command::InteractionMarker(id)).push(
                Command::BeginContainer(plain_container(Direction::Column, 0, t.border))));
            assert(before_input.next_focusable_is_focused() == old(self).next_focusable_is_focused());
            assert(input_outcome(before_input, field.input) == input_outcome(*old(self), field.input));
        }
        let resp = self.text_input(&mut field.input);
        let ghost after_input = self.commands@;
        match &field.error {
            Some(e) => {
                self.styled(e.as_str(), Style::new().dim().fg(t.error));
            },
            None => {},
        }
        let ghost after_err = self.commands@;
        let _ = self.close_group(id);
        let lost = field.observe_focus(resp.focused);
        let due = match field.trigger {
            ValidateTrigger::OnChange => resp.changed,
            ValidateTrigger::OnBlur => lost,
            ValidateTrigger::Manual => false,
        };
        if due {
            let _ = field.run_validators();
        }
        proof {
            crate::style::lemma_single_flags();
            assert(self.commands@.drop_last() == after_err);
            if old(field).error is Some {
                assert(after_err.drop_last() == after_input);
            }
            assert(self.commands@.drop_last().take(self.commands@.len() - 1 - (if old(field).error is Some { 1int } else { 0int }))
                =~= after_input);
            assert forall|k: int| 0 <= k < before_input.commands@.len() implies self.commands@[k] == before_input.commands@[k] by {
                assert(self.commands@[k] == after_err[k]);
                assert(after_err[k] == after_input[k]);
                assert(after_input.take(before_input.commands@.len() as int)[k] == before_input.commands@[k]);
            }
            assert forall|k: int| 0 <= k < n0 implies self.commands@[k] == old(self).commands@[k] by {
                assert(self.commands@[k] == before_input.commands@[k]);
                assert(before_input.commands@[k] == after_open[k]);
            }
            assert(self.commands@.take(n0) =~= old(self).commands@);
            assert(self.commands@[n0] == before_input.commands@[n0]);
            assert(self.commands@[n0 + 1] == before_input.commands@[n0 + 1]);
            assert(before_input.commands@[n0] == after_open[n0]);
            assert(before_input.commands@[n0 + 1] == after_open[n0 + 1]);
            assert(self.commands@[n0 + 2] == before_input.commands@[n0 + 2]);
        }
        self
    }

    /// A submit button: the primary-colored [`button_with`](Self::button_with).
    pub fn form_submit(&mut self, label: &str) -> (r: Response)
        requires
            old(self).wf(),
            old(self).commands@.len() + 6 < usize::MAX,
        ensures
            final(self).wf(),
            ({
                let t = old(self).theme;
                let focused = old(self).next_focusable_is_focused();
                let base = old(self).spec_response_for(old(self).interaction_count as int);
                let keys = !base.clicked && focused;
                let m = if focused { 1int } else { 0int };
                &&& r == Response { focused, clicked: base.clicked || (keys && activation_pending(*old(self))), ..base }
                &&& control_frame(*old(self), *final(self), focused, variant_row(t, ButtonVariant::Primary, focused, base.hovered), 1)
                &&& is_plain_text(added(*old(self), *final(self), m + 2), variant_text(ButtonVariant::Primary, label@),
                    variant_style(t, ButtonVariant::Primary, focused, base.hovered))
            }),
    {
        self.button_with(label, ButtonVariant::Primary)
    }
}


/// A field validated only on request keeps its error whatever happens in a
/// frame: neither an edit nor a focus change makes validation due.
pub proof fn lemma_manual_never_validates(f: FormField, changed: bool, lost: bool, value: Seq<char>, e: Option<String>)
    requires
        f.trigger == ValidateTrigger::Manual,
        error_after(f, validation_due(f.trigger, changed, lost), value, e),
    ensures
        e == f.error,
{
}


/// What the validators accept: Required fails on an empty or all-blank
/// value with its own message and passes once any other character is
/// there; Email passes `x@y.z` for any non-empty parts and fails, with its
/// message, on a value without `@`.
pub proof fn lemma_validator_verdicts(msg: String, value: Seq<char>, k: int, x: Seq<char>, y: Seq<char>, z: Seq<char>)
    ensures
        check(Validator::Required(msg), seq![]) == Some(msg@),
        check(Validator::Required(msg), seq![' ', '\t']) == Some(msg@),
        0 <= k < value.len() && !is_blank_char(value[k]) ==> check(Validator::Required(msg), value) is None,
        x.len() > 0 && y.len() > 0 && z.len() > 0 ==> check(Validator::Email, x + seq!['@'] + y + seq!['.'] + z) is None,
        (forall|i: int| 0 <= i < value.len() ==> value[i] != '@') ==> check(Validator::Email, value) == Some(email_message()),
{
    let s2 = seq![' ', '\t'];
    assert forall|i: int| 0 <= i < s2.len() implies is_blank_char(#[trigger] s2[i]) by {}
    if x.len() > 0 && y.len() > 0 && z.len() > 0 {
        let v = x + seq!['@'] + y + seq!['.'] + z;
        let i = x.len() as int;
        let j: int = x.len() as int + 1 + y.len() as int;
        assert(v[i] == '@' && v[j] == '.');
        assert(looks_like_email(v));
    }
}

} // verus!
