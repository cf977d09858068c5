//! A small immediate-mode terminal UI core: input events, styled draw
//! commands, and the widget logic that turns one into the other.
pub mod command;
pub mod context;
pub mod event;
pub mod style;
pub mod unicode;

pub use context::widgets_interactive::chord::DEFAULT_CHORD_TIMEOUT_TICKS;
