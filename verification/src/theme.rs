//! The viewer's two color themes.

use vstd::prelude::*;

verus! {

/// Theme mode.
#[derive(Debug, Clone, Copy, PartialEq, Eq, Structural)]
pub enum ThemeMode {
    Dark,
    Light,
}

/// The other theme: light for dark, dark for light.
pub open spec fn other_theme(m: ThemeMode) -> ThemeMode {
    match m {
        ThemeMode::Dark => ThemeMode::Light,
        ThemeMode::Light => ThemeMode::Dark,
    }
}

/// Switching the theme twice gives back the theme one started with.
pub proof fn law_toggle_twice(m: ThemeMode)
    ensures
        other_theme(other_theme(m)) == m,
        other_theme(m) != m,
{
}

/// An opaque color.
#[derive(Debug, Clone, Copy, PartialEq, Eq, Structural)]
pub struct Rgb {
    pub r: u8,
    pub g: u8,
    pub b: u8,
}

/// The colors of a theme.
#[derive(Debug, Clone, Copy, PartialEq, Eq, Structural)]
pub struct ColorScheme {
    pub bg: Rgb,
    pub bg_panel: Rgb,
    pub text_primary: Rgb,
    pub text_secondary: Rgb,
    pub accent: Rgb,
    pub highlight: Rgb,
    pub highlight_bg: Rgb,
    pub error: Rgb,
    pub warn: Rgb,
    pub info: Rgb,
    pub debug: Rgb,
    pub selected: Rgb,
}

pub open spec fn rgb(r: u8, g: u8, b: u8) -> Rgb {
    Rgb { r, g, b }
}

/// The colors of the dark theme.
pub open spec fn dark_scheme() -> ColorScheme {
    ColorScheme {
        bg: rgb(30, 30, 30),
        bg_panel: rgb(40, 40, 40),
        text_primary: rgb(220, 220, 220),
        text_secondary: rgb(160, 160, 160),
        accent: rgb(70, 130, 230),
        highlight: rgb(255, 255, 100),
        highlight_bg: rgb(80, 80, 40),
        error: rgb(240, 80, 80),
        warn: rgb(240, 180, 60),
        info: rgb(100, 180, 240),
        debug: rgb(160, 160, 160),
        selected: rgb(60, 80, 120),
    }
}

/// The colors of the light theme.
pub open spec fn light_scheme() -> ColorScheme {
    ColorScheme {
        bg: rgb(245, 245, 245),
        bg_panel: rgb(255, 255, 255),
        text_primary: rgb(30, 30, 30),
        text_secondary: rgb(100, 100, 100),
        accent: rgb(50, 100, 200),
        highlight: rgb(200, 150, 0),
        highlight_bg: rgb(255, 240, 180),
        error: rgb(200, 50, 50),
        warn: rgb(180, 130, 0),
        info: rgb(50, 120, 200),
        debug: rgb(120, 120, 120),
        selected: rgb(200, 220, 255),
    }
}

impl ThemeMode {
    /// The colors of this theme.
    pub fn colors(&self) -> (c: ColorScheme)
        ensures
            c == match self {
                ThemeMode::Dark => dark_scheme(),
                ThemeMode::Light => light_scheme(),
            },
    {
        match self {
            ThemeMode::Dark => ColorScheme {
                bg: Rgb { r: 30, g: 30, b: 30 },
                bg_panel: Rgb { r: 40, g: 40, b: 40 },
                text_primary: Rgb { r: 220, g: 220, b: 220 },
                text_secondary: Rgb { r: 160, g: 160, b: 160 },
                accent: Rgb { r: 70, g: 130, b: 230 },
                highlight: Rgb { r: 255, g: 255, b: 100 },
                highlight_bg: Rgb { r: 80, g: 80, b: 40 },
                error: Rgb { r: 240, g: 80, b: 80 },
                warn: Rgb { r: 240, g: 180, b: 60 },
                info: Rgb { r: 100, g: 180, b: 240 },
                debug: Rgb { r: 160, g: 160, b: 160 },
                selected: Rgb { r: 60, g: 80, b: 120 },
            },
            ThemeMode::Light => ColorScheme {
                bg: Rgb { r: 245, g: 245, b: 245 },
                bg_panel: Rgb { r: 255, g: 255, b: 255 },
                text_primary: Rgb { r: 30, g: 30, b: 30 },
                text_secondary: Rgb { r: 100, g: 100, b: 100 },
                accent: Rgb { r: 50, g: 100, b: 200 },
                highlight: Rgb { r: 200, g: 150, b: 0 },
                highlight_bg: Rgb { r: 255, g: 240, b: 180 },
                error: Rgb { r: 200, g: 50, b: 50 },
                warn: Rgb { r: 180, g: 130, b: 0 },
                info: Rgb { r: 50, g: 120, b: 200 },
                debug: Rgb { r: 120, g: 120, b: 120 },
                selected: Rgb { r: 200, g: 220, b: 255 },
            },
        }
    }

    /// The other theme.
    pub fn toggled(&self) -> (t: ThemeMode)
        ensures
            t == other_theme(*self),
    {
        match self {
            ThemeMode::Dark => ThemeMode::Light,
            ThemeMode::Light => ThemeMode::Dark,
        }
    }
}

/// `a + b`, or 255 when that is larger.
pub open spec fn sat_add(a: u8, b: u8) -> u8 {
    if a + b > 255 {
        255
    } else {
        (a + b) as u8
    }
}

/// The background of row `index` of the log view: the theme background on
/// even rows, slightly lighter (each channel raised by 8, at most 255) on
/// odd rows.
pub fn zebra_color(index: usize, scheme: &ColorScheme) -> (c: Rgb)
    ensures
        c == if index % 2 == 0 {
            scheme.bg
        } else {
            rgb(sat_add(scheme.bg.r, 8), sat_add(scheme.bg.g, 8), sat_add(scheme.bg.b, 8))
        },
{
    if index % 2 == 0 {
        scheme.bg
    } else {
        let bg = scheme.bg;
        Rgb { r: bg.r.saturating_add(8), g: bg.g.saturating_add(8), b: bg.b.saturating_add(8) }
    }
}

} // verus!
