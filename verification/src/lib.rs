//! Verified core of the widget library: calendar arithmetic, form
//! validation, the hot-reload template model, image caching and the
//! smaller state machines the widgets run on.
use vstd::prelude::*;

pub mod clipboard;
pub mod date;
pub mod forms;
pub mod image;
pub mod keyed;
pub mod text;
pub mod tree;
pub mod template;
