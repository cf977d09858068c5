//! Validators a form field can be given.
use vstd::prelude::*;
use crate::context::widgets_input::form::Validator;

verus! {

/// Fails with `message` on a value made of whitespace only.
pub fn required(message: &str) -> (v: Validator)
    ensures
        (v matches Validator::Required(m) && m@ == message@),
{
    Validator::Required(message.to_owned())
}

/// Fails with "invalid email" unless the value looks like an address.
pub fn email() -> (v: Validator)
    ensures
        (v is Email),
{
    Validator::Email
}

} // verus!
