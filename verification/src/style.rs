//! Colors, cell styles, text styles and the resolved theme.

use vstd::prelude::*;

verus! {

/// A terminal color.
#[derive(Clone, Copy, Debug, PartialEq, Eq, Structural)]
pub enum CellColor {
    /// The terminal's own default.
    Reset,
    Black,
    Red,
    Green,
    Yellow,
    Blue,
    Magenta,
    Cyan,
    Gray,
    DarkGray,
    LightRed,
    LightGreen,
    LightYellow,
    LightBlue,
    LightMagenta,
    LightCyan,
    White,
    /// A 24-bit color.
    Rgb(u8, u8, u8),
    /// An entry of the 256-color palette.
    Indexed(u8),
}

/// Bold text.
pub const BOLD: u16 = 0x0001;

/// Italic text.
pub const ITALIC: u16 = 0x0004;

/// Underlined text.
pub const UNDERLINED: u16 = 0x0008;

/// Crossed-out text.
pub const CROSSED_OUT: u16 = 0x0100;

/// What drawing changes on a cell: the colors that are set replace the cell's colors,
/// the modifier bits are added to the cell's modifiers.
#[derive(Clone, Copy, Debug, PartialEq, Eq, Structural)]
pub struct CellStyle {
    /// Foreground color, where it is replaced.
    pub fg: Option<CellColor>,
    /// Background color, where it is replaced.
    pub bg: Option<CellColor>,
    /// Modifier bits that are added.
    pub modifiers: u16,
}

impl CellStyle {
    /// The style that changes nothing.
    pub open spec fn unset() -> CellStyle {
        CellStyle { fg: None, bg: None, modifiers: 0 }
    }

    /// The style that only sets the foreground.
    pub open spec fn of_fg(color: CellColor) -> CellStyle {
        CellStyle { fg: Some(color), bg: None, modifiers: 0 }
    }

    /// The style that only sets the background.
    pub open spec fn of_bg(color: CellColor) -> CellStyle {
        CellStyle { fg: None, bg: Some(color), modifiers: 0 }
    }

    /// This style with more modifier bits.
    pub open spec fn plus(self, bits: u16) -> CellStyle {
        CellStyle { fg: self.fg, bg: self.bg, modifiers: self.modifiers | bits }
    }

    /// The style that changes nothing.
    pub fn new() -> (r: CellStyle)
        ensures
            r == CellStyle::unset(),
    {
        CellStyle { fg: None, bg: None, modifiers: 0 }
    }

    /// This style with the given foreground.
    pub fn fg(self, color: CellColor) -> (r: CellStyle)
        ensures
            r == (CellStyle { fg: Some(color), bg: self.bg, modifiers: self.modifiers }),
    {
        CellStyle { fg: Some(color), bg: self.bg, modifiers: self.modifiers }
    }

    /// This style with the given background.
    pub fn bg(self, color: CellColor) -> (r: CellStyle)
        ensures
            r == (CellStyle { fg: self.fg, bg: Some(color), modifiers: self.modifiers }),
    {
        CellStyle { fg: self.fg, bg: Some(color), modifiers: self.modifiers }
    }

    /// This style with more modifier bits.
    pub fn add_modifier(self, bits: u16) -> (r: CellStyle)
        ensures
            r == self.plus(bits),
    {
        CellStyle { fg: self.fg, bg: self.bg, modifiers: self.modifiers | bits }
    }
}

/// The weight of a resolved font.
#[derive(Clone, Copy, Debug, PartialEq, Eq, Structural)]
pub enum FontWeight {
    Thin,
    UltraLight,
    Light,
    Normal,
    Medium,
    SemiBold,
    Bold,
    UltraBold,
    Black,
}

/// The style of one run of text, with its font and colors resolved.
#[derive(Clone, Copy, Debug, PartialEq, Eq, Structural)]
pub struct TextStyle {
    /// Font weight.
    pub weight: FontWeight,
    /// Italic text.
    pub italic: bool,
    /// Underlined text.
    pub underline: bool,
    /// Crossed-out text.
    pub strikethrough: bool,
    /// Text color, where the run sets one.
    pub foreground: Option<CellColor>,
    /// Background color, where the run sets one.
    pub background: Option<CellColor>,
}

/// Text without any styling.
pub open spec fn plain_style() -> TextStyle {
    TextStyle {
        weight: FontWeight::Normal,
        italic: false,
        underline: false,
        strikethrough: false,
        foreground: None,
        background: None,
    }
}

impl TextStyle {
    /// Text without any styling.
    pub fn plain() -> (r: TextStyle)
        ensures
            r == plain_style(),
    {
        TextStyle {
            weight: FontWeight::Normal,
            italic: false,
            underline: false,
            strikethrough: false,
            foreground: None,
            background: None,
        }
    }
}

/// Whether a weight is drawn bold; weight is the one axis of a typeface that a cell
/// grid can express.
pub open spec fn heavy(weight: FontWeight) -> bool {
    ||| weight == FontWeight::SemiBold
    ||| weight == FontWeight::Bold
    ||| weight == FontWeight::UltraBold
    ||| weight == FontWeight::Black
}

/// The modifier bits that a text style stands for.
pub open spec fn text_bits(style: TextStyle) -> u16 {
    (((if heavy(style.weight) { BOLD } else { 0u16 })
        | (if style.italic { ITALIC } else { 0u16 }))
        | (if style.underline { UNDERLINED } else { 0u16 }))
        | (if style.strikethrough { CROSSED_OUT } else { 0u16 })
}

/// A text style drawn over `base`: its bits are added, its colors replace those of `base`.
pub open spec fn styled(style: TextStyle, base: CellStyle) -> CellStyle {
    CellStyle {
        fg: if style.foreground is Some { style.foreground } else { base.fg },
        bg: if style.background is Some { style.background } else { base.bg },
        modifiers: base.modifiers | text_bits(style),
    }
}

/// Resolves the style of a run of text into a cell style.
pub fn chunk_style(style: &TextStyle, base: CellStyle) -> (r: CellStyle)
    ensures
        r == styled(*style, base),
{
    let bold: u16 = match style.weight {
        FontWeight::SemiBold | FontWeight::Bold | FontWeight::UltraBold | FontWeight::Black => BOLD,
        _ => 0,
    };
    let italic: u16 = if style.italic { ITALIC } else { 0 };
    let underline: u16 = if style.underline { UNDERLINED } else { 0 };
    let crossed: u16 = if style.strikethrough { CROSSED_OUT } else { 0 };
    let mut out = base.add_modifier(bold | italic | underline | crossed);
    if let Some(color) = style.foreground {
        out = out.fg(color);
    }
    if let Some(color) = style.background {
        out = out.bg(color);
    }
    out
}

/// The theme colors that a frame draws with.
#[derive(Clone, Copy, Debug, PartialEq, Eq, Structural)]
pub struct Theme {
    /// Default text color.
    pub foreground: CellColor,
    /// De-emphasized text.
    pub muted: CellColor,
    /// Focused controls and links.
    pub accent: CellColor,
    /// Text drawn on accent fills.
    pub accent_foreground: CellColor,
    /// Terminal background.
    pub background: CellColor,
    /// Slightly raised surface.
    pub surface: CellColor,
    /// Dividers and borders.
    pub border: CellColor,
    /// Selected fill.
    pub selection: CellColor,
    /// Text drawn on the selected fill.
    pub selection_foreground: CellColor,
}

/// The theme slots as an environment holds them; a slot may be missing.
#[derive(Clone, Copy, Debug, PartialEq, Eq, Structural)]
pub struct ThemeSlots {
    pub foreground: Option<CellColor>,
    pub muted: Option<CellColor>,
    pub accent: Option<CellColor>,
    pub accent_foreground: Option<CellColor>,
    pub background: Option<CellColor>,
    pub surface: Option<CellColor>,
    pub border: Option<CellColor>,
    pub selection: Option<CellColor>,
    pub selection_foreground: Option<CellColor>,
}

/// The color of a slot, or `default` where the slot is missing.
pub open spec fn slot_or(slot: Option<CellColor>, default: CellColor) -> CellColor {
    match slot {
        Some(color) => color,
        None => default,
    }
}

fn slot_color(slot: Option<CellColor>, default: CellColor) -> (r: CellColor)
    ensures
        r == slot_or(slot, default),
{
    match slot {
        Some(color) => color,
        None => default,
    }
}

/// The theme of some slots, with the terminal's named colors for those that are missing.
pub open spec fn resolved(slots: ThemeSlots) -> Theme {
    Theme {
        foreground: slot_or(slots.foreground, CellColor::White),
        muted: slot_or(slots.muted, CellColor::Gray),
        accent: slot_or(slots.accent, CellColor::Cyan),
        accent_foreground: slot_or(slots.accent_foreground, CellColor::Black),
        background: slot_or(slots.background, CellColor::Reset),
        surface: slot_or(slots.surface, CellColor::DarkGray),
        border: slot_or(slots.border, CellColor::Gray),
        selection: slot_or(slots.selection, CellColor::Blue),
        selection_foreground: slot_or(slots.selection_foreground, CellColor::White),
    }
}

impl Theme {
    /// Resolves every slot, falling back to the terminal's named colors.
    pub fn resolve(slots: &ThemeSlots) -> (r: Theme)
        ensures
            r == resolved(*slots),
            r.foreground == slot_or(slots.foreground, CellColor::White),
            r.muted == slot_or(slots.muted, CellColor::Gray),
            r.accent == slot_or(slots.accent, CellColor::Cyan),
            r.accent_foreground == slot_or(slots.accent_foreground, CellColor::Black),
            r.background == slot_or(slots.background, CellColor::Reset),
            r.surface == slot_or(slots.surface, CellColor::DarkGray),
            r.border == slot_or(slots.border, CellColor::Gray),
            r.selection == slot_or(slots.selection, CellColor::Blue),
            r.selection_foreground == slot_or(slots.selection_foreground, CellColor::White),
    {
        Theme {
            foreground: slot_color(slots.foreground, CellColor::White),
            muted: slot_color(slots.muted, CellColor::Gray),
            accent: slot_color(slots.accent, CellColor::Cyan),
            accent_foreground: slot_color(slots.accent_foreground, CellColor::Black),
            background: slot_color(slots.background, CellColor::Reset),
            surface: slot_color(slots.surface, CellColor::DarkGray),
            border: slot_color(slots.border, CellColor::Gray),
            selection: slot_color(slots.selection, CellColor::Blue),
            selection_foreground: slot_color(slots.selection_foreground, CellColor::White),
        }
    }

    /// The base style of ordinary text.
    pub open spec fn text_style(self) -> CellStyle {
        CellStyle::of_fg(self.foreground)
    }

    /// The base style for ordinary text.
    pub fn text(&self) -> (r: CellStyle)
        ensures
            r == self.text_style(),
    {
        CellStyle { fg: Some(self.foreground), bg: None, modifiers: 0 }
    }

    /// The style of the text of a control: accented and bold while it has the focus.
    pub open spec fn control_style(self, focused: bool) -> CellStyle {
        if focused {
            CellStyle { fg: Some(self.accent), bg: None, modifiers: BOLD }
        } else {
            self.text_style()
        }
    }

    /// The style of the text of a control.
    pub fn control(&self, focused: bool) -> (r: CellStyle)
        ensures
            r == self.control_style(focused),
    {
        if focused {
            CellStyle { fg: Some(self.accent), bg: None, modifiers: BOLD }
        } else {
            self.text()
        }
    }
}

/// Resolving is idempotent: a text style that sets both colors hides the colors of any
/// base, and resolving over the result changes nothing more.
pub proof fn law_text_style_settles(style: TextStyle, base: CellStyle)
    ensures
        styled(style, styled(style, base)) == styled(style, base),
        style.foreground is Some ==> styled(style, base).fg == style.foreground,
        style.background is Some ==> styled(style, base).bg == style.background,
{
    let bits = text_bits(style);
    let held = base.modifiers;
    assert((held | bits) | bits == held | bits) by (bit_vector);
}

} // verus!
