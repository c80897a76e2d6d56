//! Styles: which bits and colors a style stands for.

use vstd::prelude::*;

use crate::buffer::{blank, patched, CellView};
use crate::style::{
    plain_style, resolved, styled, CellColor, CellStyle, FontWeight, TextStyle, Theme, ThemeSlots,
};
use crate::theme::{palette_theme, shade, shade_color, PaletteSlot};

verus! {

/// A text is drawn in its own colors where it has some, and in those of its base where it has none.
/// Weights from semibold on are bold; italic, underlined and struck out text has the bit of each;
/// what the base has set stays set, and nothing else is.
pub proof fn law_text_is_drawn_as_styled(style: TextStyle, base: CellStyle)
    ensures
        ({
            let drawn = styled(style, base);
            let bold = style.weight == FontWeight::SemiBold || style.weight == FontWeight::Bold
                || style.weight == FontWeight::UltraBold || style.weight == FontWeight::Black;
            let had = |bit: u16| base.modifiers & bit != 0;
            let has = |bit: u16| drawn.modifiers & bit != 0;
            &&& drawn.fg == if style.foreground is Some {
                style.foreground
            } else {
                base.fg
            }
            &&& drawn.bg == if style.background is Some {
                style.background
            } else {
                base.bg
            }
            &&& has(1) == (had(1) || bold)
            &&& has(4) == (had(4) || style.italic)
            &&& has(8) == (had(8) || style.underline)
            &&& has(256) == (had(256) || style.strikethrough)
            &&& drawn.modifiers & 0xfef2 == base.modifiers & 0xfef2
        }),
{
    let m = base.modifiers;
    let bold = style.weight == FontWeight::SemiBold || style.weight == FontWeight::Bold
        || style.weight == FontWeight::UltraBold || style.weight == FontWeight::Black;
    let (b, i, u, s) = (bold, style.italic, style.underline, style.strikethrough);
    lemma_bits(m, b, i, u, s);
}

proof fn lemma_bits(m: u16, b: bool, i: bool, u: bool, s: bool)
    ensures
        ({
            let bits = (((if b { 1u16 } else { 0u16 }) | (if i { 4u16 } else { 0u16 }))
                | (if u { 8u16 } else { 0u16 })) | (if s { 256u16 } else { 0u16 });
            let all = m | bits;
            &&& (all & 1 != 0) == (m & 1 != 0 || b)
            &&& (all & 4 != 0) == (m & 4 != 0 || i)
            &&& (all & 8 != 0) == (m & 8 != 0 || u)
            &&& (all & 256 != 0) == (m & 256 != 0 || s)
            &&& all & 0xfef2 == m & 0xfef2
        }),
{
    let x: u16 = if b { 1u16 } else { 0u16 };
    let y: u16 = if i { 4u16 } else { 0u16 };
    let z: u16 = if u { 8u16 } else { 0u16 };
    let w: u16 = if s { 256u16 } else { 0u16 };
    let all = m | (((x | y) | z) | w);
    assert((x == 0 || x == 1) && (y == 0 || y == 4) && (z == 0 || z == 8) && (w == 0 || w == 256)
        ==> {
        &&& ((m | (((x | y) | z) | w)) & 1 != 0) == (m & 1 != 0 || x == 1)
        &&& ((m | (((x | y) | z) | w)) & 4 != 0) == (m & 4 != 0 || y == 4)
        &&& ((m | (((x | y) | z) | w)) & 8 != 0) == (m & 8 != 0 || z == 8)
        &&& ((m | (((x | y) | z) | w)) & 256 != 0) == (m & 256 != 0 || w == 256)
        &&& (m | (((x | y) | z) | w)) & 0xfef2 == m & 0xfef2
    }) by (bit_vector);
}

/// Text without styling takes its base as it is.
pub proof fn law_plain_text_takes_its_base(base: CellStyle)
    ensures
        styled(plain_style(), base) == base,
{
    let m = base.modifiers;
    assert(m | (((0u16 | 0u16) | 0u16) | 0u16) == m) by (bit_vector);
}

/// Every slot of a theme shows its own color, and the named color of the terminal that stands for it
/// where it has none.
pub proof fn law_theme_takes_its_slots(slots: ThemeSlots)
    ensures
        ({
            let theme = resolved(slots);
            &&& slots.foreground is Some ==> Some(theme.foreground) == slots.foreground
            &&& slots.muted is Some ==> Some(theme.muted) == slots.muted
            &&& slots.accent is Some ==> Some(theme.accent) == slots.accent
            &&& slots.accent_foreground is Some ==> Some(theme.accent_foreground)
                == slots.accent_foreground
            &&& slots.background is Some ==> Some(theme.background) == slots.background
            &&& slots.surface is Some ==> Some(theme.surface) == slots.surface
            &&& slots.border is Some ==> Some(theme.border) == slots.border
            &&& slots.selection is Some ==> Some(theme.selection) == slots.selection
            &&& slots.selection_foreground is Some ==> Some(theme.selection_foreground)
                == slots.selection_foreground
            &&& slots.foreground is None ==> theme.foreground == CellColor::White
            &&& slots.muted is None ==> theme.muted == CellColor::Gray
            &&& slots.accent is None ==> theme.accent == CellColor::Cyan
            &&& slots.accent_foreground is None ==> theme.accent_foreground == CellColor::Black
            &&& slots.background is None ==> theme.background == CellColor::Reset
            &&& slots.surface is None ==> theme.surface == CellColor::DarkGray
            &&& slots.border is None ==> theme.border == CellColor::Gray
            &&& slots.selection is None ==> theme.selection == CellColor::Blue
            &&& slots.selection_foreground is None ==> theme.selection_foreground == CellColor::White
        }),
{
}

/// Ordinary text is drawn in the foreground of its theme and in nothing else; a control that has the
/// focus in the accent, and bold.
pub proof fn law_theme_styles_text_and_controls(theme: Theme)
    ensures
        theme.text_style() == (CellStyle { fg: Some(theme.foreground), bg: None, modifiers: 0 }),
        theme.control_style(false) == theme.text_style(),
        theme.control_style(true) == (CellStyle { fg: Some(theme.accent), bg: None, modifiers: 1 }),
{
}

/// How light a color is, as the sum of its parts.
pub open spec fn lightness(slot: PaletteSlot) -> int {
    shade(slot).0 + shade(slot).1 + shade(slot).2
}

/// The default palette is dark: text stands out from the background and from surfaces, muted text
/// less than other text, surfaces rise from the background and borders from surfaces. Text on an
/// accent, which is light, is dark; text on a selection is light.
pub proof fn law_palette_keeps_its_contrasts()
    ensures
        lightness(PaletteSlot::Background) < lightness(PaletteSlot::Surface),
        lightness(PaletteSlot::Surface) < lightness(PaletteSlot::SurfaceVariant),
        lightness(PaletteSlot::SurfaceVariant) < lightness(PaletteSlot::Border),
        lightness(PaletteSlot::Border) < lightness(PaletteSlot::MutedForeground),
        lightness(PaletteSlot::MutedForeground) < lightness(PaletteSlot::Foreground),
        lightness(PaletteSlot::AccentForeground) + 300 < lightness(PaletteSlot::Accent),
        lightness(PaletteSlot::AccentContainer) < lightness(PaletteSlot::Accent),
        lightness(PaletteSlot::TertiaryContainer) < lightness(PaletteSlot::Tertiary),
        lightness(PaletteSlot::SelectionContainer) + 300 < lightness(PaletteSlot::SelectionForeground),
        forall|slot: PaletteSlot|
            #[trigger] shade_color(slot) == CellColor::Rgb(
                shade(slot).0,
                shade(slot).1,
                shade(slot).2,
            ),
{
}

/// Painting over a cell replaces the colors that the style names and keeps the others, adds the
/// style's bits to the cell's, and keeps its symbol; an unset style changes nothing, and a style
/// painted twice changes no more than once.
pub proof fn law_painting_over_a_cell(cell: CellView, style: CellStyle)
    ensures
        ({
            let after = patched(cell, style);
            &&& after.symbol == cell.symbol && after.diff == cell.diff
            &&& after.fg == if style.fg is Some {
                style.fg->0
            } else {
                cell.fg
            }
            &&& after.bg == if style.bg is Some {
                style.bg->0
            } else {
                cell.bg
            }
            &&& after.modifiers == cell.modifiers | style.modifiers
            &&& patched(after, style) == after
        }),
        patched(cell, CellStyle { fg: None, bg: None, modifiers: 0 }) == cell,
        blank().symbol == seq![' '] && blank().fg == CellColor::Reset && blank().bg
            == CellColor::Reset && blank().modifiers == 0,
{
    let m = cell.modifiers;
    let n = style.modifiers;
    assert((m | n) | n == m | n) by (bit_vector);
    assert(m | 0u16 == m) by (bit_vector);
}

/// How light a color is that is given by its parts.
pub open spec fn light_of(color: CellColor) -> int {
    match color {
        CellColor::Rgb(r, g, b) => r + g + b,
        _ => -1,
    }
}

/// The default theme stands on a dark ground: the surface, the border, the muted text and the text
/// are each lighter than the one before, and text on the accent and in a selection stands off.
pub proof fn law_default_theme_can_be_read()
    ensures
        ({
            let theme = palette_theme();
            &&& 0 <= light_of(theme.background) < light_of(theme.surface)
            &&& light_of(theme.surface) < light_of(theme.border)
            &&& light_of(theme.border) < light_of(theme.muted)
            &&& light_of(theme.muted) < light_of(theme.foreground)
            &&& 0 <= light_of(theme.accent_foreground)
            &&& light_of(theme.accent_foreground) + 300 < light_of(theme.accent)
            &&& 0 <= light_of(theme.selection)
            &&& light_of(theme.selection) + 300 < light_of(theme.selection_foreground)
            &&& light_of(theme.foreground) > 700
            &&& light_of(theme.background) < 100
            &&& theme.accent == shade_color(PaletteSlot::Accent)
            &&& theme.selection == shade_color(PaletteSlot::SelectionContainer)
        }),
{
}

} // verus!
