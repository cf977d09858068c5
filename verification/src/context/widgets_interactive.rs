//! Interactive widgets and the frame's input queries.
pub(crate) mod calendar;
pub(crate) mod chord;
pub(crate) mod collections;
pub(crate) mod events;
pub(crate) mod file_picker;
pub(crate) mod grid;
pub(crate) mod help;
pub(crate) mod markdown;
pub(crate) mod multi_select;
pub(crate) mod md_blocks;
pub(crate) mod md_render;
pub(crate) mod md_table;
pub(crate) mod paginator;
pub(crate) mod palette;
pub(crate) mod radio;
pub(crate) mod rich_log;
pub(crate) mod selection;
pub(crate) mod tabs;
pub(crate) mod tree;
