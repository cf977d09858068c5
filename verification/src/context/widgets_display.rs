//! Display widgets: text and its style chain, layout helpers, status widgets.
pub(crate) mod breadcrumb;
pub(crate) mod layout;
pub(crate) mod status;
pub(crate) mod streaming;
pub(crate) mod text;
