//! Core logic of a terminal system monitor: sample parsing, history
//! buffers, configuration and layout handling, panel framing and the
//! profile chooser, each stated and proved with Verus.

pub mod chooser;
pub mod collectors;
pub mod config;
pub mod event;
pub mod layout;
pub mod order;
pub mod panel;
pub mod scan;
pub mod text;
pub mod theme;
pub mod util;
pub mod widgets;
