//! Incremental recognition of URL spans in a rendered terminal grid.

pub mod point;
pub mod locator;
pub mod ui;
pub mod url;
pub mod lemmas;
