//! Colour palettes, selected by name from `settings.theme`.

use crate::text::str_eq;
use vstd::prelude::*;

verus! {

/// The terminal colours the palettes use.
#[derive(Debug, Clone, Copy, PartialEq, Eq, Structural)]
pub enum Color {
    DarkGray,
    Gray,
    White,
    Cyan,
    Green,
    Yellow,
    Red,
    Magenta,
}

/// Colour palette used across widgets.
#[derive(Debug, Clone, Copy, PartialEq, Eq, Structural)]
pub struct Theme {
    pub border: Color,
    pub title: Color,
    pub label: Color,
    /// Gradient used by gauges and graphs from low to high utilization.
    pub low: Color,
    pub mid: Color,
    pub high: Color,
    pub accent: Color,
    pub rx: Color,
    pub tx: Color,
}

/// The default palette.
pub open spec fn default_palette() -> Theme {
    Theme {
        border: Color::DarkGray,
        title: Color::Cyan,
        label: Color::Gray,
        low: Color::Green,
        mid: Color::Yellow,
        high: Color::Red,
        accent: Color::Magenta,
        rx: Color::Green,
        tx: Color::Cyan,
    }
}

/// The monochrome palette.
pub open spec fn mono_palette() -> Theme {
    Theme {
        border: Color::DarkGray,
        title: Color::White,
        label: Color::Gray,
        low: Color::Gray,
        mid: Color::White,
        high: Color::White,
        accent: Color::White,
        rx: Color::Gray,
        tx: Color::White,
    }
}

impl Theme {
    /// The palette named `name`: `mono`, or the default for any other name.
    pub fn by_name(name: &str) -> (t: Theme)
        ensures
            t == if name@ == "mono"@ {
                mono_palette()
            } else {
                default_palette()
            },
    {
        if str_eq(name, "mono") {
            Theme::mono()
        } else {
            Theme::default_theme()
        }
    }

    fn default_theme() -> (t: Theme)
        ensures
            t == default_palette(),
    {
        Theme {
            border: Color::DarkGray,
            title: Color::Cyan,
            label: Color::Gray,
            low: Color::Green,
            mid: Color::Yellow,
            high: Color::Red,
            accent: Color::Magenta,
            rx: Color::Green,
            tx: Color::Cyan,
        }
    }

    fn mono() -> (t: Theme)
        ensures
            t == mono_palette(),
    {
        Theme {
            border: Color::DarkGray,
            title: Color::White,
            label: Color::Gray,
            low: Color::Gray,
            mid: Color::White,
            high: Color::White,
            accent: Color::White,
            rx: Color::Gray,
            tx: Color::White,
        }
    }
}

} // verus!
