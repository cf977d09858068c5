//! Input widgets that consume key and mouse events when focused.
pub(crate) mod form;
pub(crate) mod input_keys;
pub(crate) mod input_state;
pub(crate) mod input_view;
pub(crate) mod text_input;
pub mod validators;
