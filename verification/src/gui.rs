//! Layout arithmetic and the descriptions of module widgets.

pub mod constants;
pub mod module_widgets;
