use slt::command::Command;
use slt::context::{validators, Context, FormField, ValidateTrigger};
use slt::event::Event;

fn drawn(ctx: &Context) -> String {
    let mut out = String::new();
    for cmd in &ctx.commands {
        if let Command::Text { content, .. } = cmd {
            out.push_str(content);
            out.push('\n');
        }
    }
    out
}

/// One frame with the field (focusable 0) and a button (focusable 1).
fn render_field_with_focus(field: &mut FormField, focus_index: usize) -> Context {
    let mut ctx = Context::new(40, 10, Vec::new());
    ctx.focus_index = focus_index;
    ctx.prev_focus_count = 2;
    ctx.form_field(field);
    let _ = ctx.button("next");
    ctx
}

/// One frame per character, the field being the only focusable widget.
fn type_string(field: &mut FormField, text: &str) {
    for c in text.chars() {
        let mut ctx = Context::new(40, 12, vec![Event::key_char(c)]);
        ctx.focus_index = 0;
        ctx.prev_focus_count = 1;
        ctx.form_field(field);
    }
}

fn render(field: &mut FormField) -> Context {
    let mut ctx = Context::new(40, 12, Vec::new());
    ctx.form_field(field);
    ctx
}

#[test]
fn form_field_on_blur_validates_only_after_focus_leaves() {
    let mut field = FormField::new("Name").validate(validators::required("Name is required"));
    field.input.value = String::new();

    let ctx = render_field_with_focus(&mut field, 0);
    assert_eq!(field.error, None);
    assert!(!drawn(&ctx).contains("Name is required"));

    let _ = render_field_with_focus(&mut field, 1);
    assert_eq!(field.error.as_deref(), Some("Name is required"));

    let ctx = render_field_with_focus(&mut field, 1);
    assert!(drawn(&ctx).contains("Name is required"));
}

#[test]
fn form_field_on_change_validates_immediately_and_clears() {
    let mut field = FormField::new("Email").validate(validators::email()).on_change();
    assert_eq!(field.trigger, ValidateTrigger::OnChange);

    let _ = render(&mut field);

    type_string(&mut field, "abc");
    assert_eq!(field.input.value, "abc");
    assert_eq!(field.error.as_deref(), Some("invalid email"));
    let ctx = render(&mut field);
    assert!(drawn(&ctx).contains("invalid email"));

    type_string(&mut field, "@b.co");
    assert_eq!(field.input.value, "abc@b.co");
    assert_eq!(field.error, None);
    let ctx = render(&mut field);
    assert!(!drawn(&ctx).contains("invalid email"));
}

#[test]
fn form_field_manual_never_auto_validates() {
    let mut field = FormField::new("Name").validate(validators::required("required")).manual();
    field.input.value = String::new();

    let _ = render_field_with_focus(&mut field, 0);
    let ctx = render_field_with_focus(&mut field, 1);
    assert_eq!(field.error, None);
    assert!(!drawn(&ctx).contains("required"));

    assert!(!field.run_validators());
    assert_eq!(field.error.as_deref(), Some("required"));
}
