//! The palette that a terminal gets by default: a dark one, with legible contrast.

use vstd::prelude::*;

use crate::style::{CellColor, Theme, ThemeSlots};

verus! {

/// The colors of a palette, each by what it is for.
#[derive(Clone, Copy, Debug, PartialEq, Eq, Structural)]
pub enum PaletteSlot {
    Background,
    Surface,
    SurfaceVariant,
    Border,
    Foreground,
    MutedForeground,
    Accent,
    AccentContainer,
    AccentForeground,
    Tertiary,
    TertiaryContainer,
    SelectionContainer,
    SelectionForeground,
}

/// The color of a slot as red, green and blue.
pub open spec fn shade(slot: PaletteSlot) -> (u8, u8, u8) {
    match slot {
        PaletteSlot::Background => (24, 24, 28),
        PaletteSlot::Surface => (38, 38, 44),
        PaletteSlot::SurfaceVariant => (50, 50, 58),
        PaletteSlot::Border => (90, 90, 100),
        PaletteSlot::Foreground => (235, 235, 240),
        PaletteSlot::MutedForeground => (150, 150, 160),
        PaletteSlot::Accent => (90, 160, 250),
        PaletteSlot::AccentContainer => (40, 80, 140),
        PaletteSlot::AccentForeground => (10, 14, 20),
        PaletteSlot::Tertiary => (180, 140, 250),
        PaletteSlot::TertiaryContainer => (70, 50, 100),
        PaletteSlot::SelectionContainer => (60, 110, 180),
        PaletteSlot::SelectionForeground => (245, 245, 250),
    }
}

/// The color of a slot.
pub open spec fn shade_color(slot: PaletteSlot) -> CellColor {
    let (r, g, b) = shade(slot);
    CellColor::Rgb(r, g, b)
}

/// The color of a slot as red, green and blue.
pub fn palette(slot: PaletteSlot) -> (r: (u8, u8, u8))
    ensures
        r == shade(slot),
{
    match slot {
        PaletteSlot::Background => (24, 24, 28),
        PaletteSlot::Surface => (38, 38, 44),
        PaletteSlot::SurfaceVariant => (50, 50, 58),
        PaletteSlot::Border => (90, 90, 100),
        PaletteSlot::Foreground => (235, 235, 240),
        PaletteSlot::MutedForeground => (150, 150, 160),
        PaletteSlot::Accent => (90, 160, 250),
        PaletteSlot::AccentContainer => (40, 80, 140),
        PaletteSlot::AccentForeground => (10, 14, 20),
        PaletteSlot::Tertiary => (180, 140, 250),
        PaletteSlot::TertiaryContainer => (70, 50, 100),
        PaletteSlot::SelectionContainer => (60, 110, 180),
        PaletteSlot::SelectionForeground => (245, 245, 250),
    }
}

fn color(slot: PaletteSlot) -> (r: CellColor)
    ensures
        r == shade_color(slot),
{
    let (r, g, b) = palette(slot);
    CellColor::Rgb(r, g, b)
}

/// The theme of the default palette, as a value.
pub open spec fn palette_theme() -> Theme {
    Theme {
        foreground: shade_color(PaletteSlot::Foreground),
        muted: shade_color(PaletteSlot::MutedForeground),
        accent: shade_color(PaletteSlot::Accent),
        accent_foreground: shade_color(PaletteSlot::AccentForeground),
        background: shade_color(PaletteSlot::Background),
        surface: shade_color(PaletteSlot::Surface),
        border: shade_color(PaletteSlot::Border),
        selection: shade_color(PaletteSlot::SelectionContainer),
        selection_foreground: shade_color(PaletteSlot::SelectionForeground),
    }
}

/// The theme of the default palette.
pub fn terminal_theme() -> (r: Theme)
    ensures
        r == palette_theme(),
        r == (Theme {
            foreground: shade_color(PaletteSlot::Foreground),
            muted: shade_color(PaletteSlot::MutedForeground),
            accent: shade_color(PaletteSlot::Accent),
            accent_foreground: shade_color(PaletteSlot::AccentForeground),
            background: shade_color(PaletteSlot::Background),
            surface: shade_color(PaletteSlot::Surface),
            border: shade_color(PaletteSlot::Border),
            selection: shade_color(PaletteSlot::SelectionContainer),
            selection_foreground: shade_color(PaletteSlot::SelectionForeground),
        }),
{
    Theme::resolve(
        &ThemeSlots {
            foreground: Some(color(PaletteSlot::Foreground)),
            muted: Some(color(PaletteSlot::MutedForeground)),
            accent: Some(color(PaletteSlot::Accent)),
            accent_foreground: Some(color(PaletteSlot::AccentForeground)),
            background: Some(color(PaletteSlot::Background)),
            surface: Some(color(PaletteSlot::Surface)),
            border: Some(color(PaletteSlot::Border)),
            selection: Some(color(PaletteSlot::SelectionContainer)),
            selection_foreground: Some(color(PaletteSlot::SelectionForeground)),
        },
    )
}

} // verus!
