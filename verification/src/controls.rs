//! How each control draws: plain values in, display list entries out.

use vstd::prelude::*;

use crate::geometry::{cell_clamp, clamp_cell, coordinate, coordinate_sum, shown, visible, CellRect};
use crate::paint::{cut_glyphs, emit, emit_cut, emit_text, glyphs, paints_view, Paint, PaintView};
use crate::style::{CellColor, CellStyle, Theme, BOLD, ITALIC, UNDERLINED};
use crate::text::{
    behind, chars_of, cut_runs, cut_text, decimal, display_width, limited, line_width, lines_of,
    lines_view, measure_line, repeat_char, repeated, runs_behind, runs_view, signed_decimal,
    signed_string, spans_view, string_of, styled_lines, width_of, Run, RunView, Span, SpanView,
};

verus! {

/// Paragraph alignment of each line of a text.
#[derive(Clone, Copy, Debug, PartialEq, Eq, Structural)]
pub enum Alignment {
    Leading,
    Center,
    Trailing,
}

/// The requested look of a button.
#[derive(Clone, Copy, Debug, PartialEq, Eq, Structural)]
pub enum ButtonStyle {
    Automatic,
    Plain,
    Link,
    Borderless,
    Bordered,
    BorderedProminent,
}

/// The requested look of a toggle.
#[derive(Clone, Copy, Debug, PartialEq, Eq, Structural)]
pub enum ToggleStyle {
    Automatic,
    Switch,
    Checkbox,
}

/// The requested look of a progress indicator.
#[derive(Clone, Copy, Debug, PartialEq, Eq, Structural)]
pub enum ProgressStyle {
    /// A horizontal bar.
    Linear,
    /// A ring that fills in quarters.
    Circular,
    /// A spinner.
    Loading,
}

/// A share of one whole, as slider and progress values are kept.
pub const WHOLE: u32 = 1_000_000_000;

/// `n * share`, rounded to the nearest whole number.
pub open spec fn portion(n: int, share: u32) -> int {
    let part = if share > WHOLE { WHOLE as int } else { share as int };
    (n * part + WHOLE / 2) / WHOLE as int
}

fn portion_of(n: u16, share: u32) -> (r: u16)
    ensures
        r == portion(n as int, share),
        r <= n,
{
    let part: u64 = if share > WHOLE { WHOLE as u64 } else { share as u64 };
    proof {
        assert(0 <= n * part <= 65535 * 1_000_000_000) by (nonlinear_arith)
            requires
                0 <= n <= 65535,
                0 <= part <= 1_000_000_000,
        ;
        assert(n * part <= n * 1_000_000_000) by (nonlinear_arith)
            requires
                0 <= n,
                part <= 1_000_000_000,
        ;
    }
    ((n as u64 * part + 500_000_000) / 1_000_000_000) as u16
}

// ---- Places -----------------------------------------------------------------------

/// Where a node is drawn.
#[derive(Clone, Copy, Debug, PartialEq, Eq)]
pub struct Place {
    /// The signed position of its top left corner on screen.
    pub origin: (i32, i32),
    /// Its columns and rows.
    pub size: (u16, u16),
    /// The cells of it that are visible.
    pub area: CellRect,
    /// The cells that may be drawn in.
    pub clip: CellRect,
}

impl Place {
    /// The visible cells are those of the frame that lie in the clip, and there are some.
    pub open spec fn wf(self) -> bool {
        &&& self.clip.wf()
        &&& self.area == shown(
            self.origin.0 as int,
            self.origin.1 as int,
            self.size.0 as int,
            self.size.1 as int,
            self.clip,
        )
        &&& self.area.width > 0
        &&& self.area.height > 0
    }
}

// ---- Text -------------------------------------------------------------------------

/// The columns that a line of `width` columns is moved in by in a frame of `columns`.
pub open spec fn indent(alignment: Alignment, width: usize, columns: u16) -> int {
    match alignment {
        Alignment::Leading => 0,
        Alignment::Center => if width < columns {
            (columns - width) / 2
        } else {
            0
        },
        Alignment::Trailing => if width < columns {
            columns - width
        } else {
            0
        },
    }
}

fn indent_of(alignment: Alignment, width: usize, columns: u16) -> (r: u16)
    ensures
        r == indent(alignment, width, columns),
{
    match alignment {
        Alignment::Leading => 0,
        Alignment::Center => if width < columns as usize {
            ((columns as usize - width) / 2) as u16
        } else {
            0
        },
        Alignment::Trailing => if width < columns as usize {
            columns - width as u16
        } else {
            0
        },
    }
}

/// One line of text in its row: aligned in the whole frame, then cut at the visible columns.
pub open spec fn line_paint(line: Seq<RunView>, alignment: Alignment, place: Place, y: u16) -> PaintView {
    let x = place.origin.0 + indent(alignment, line_width(line), place.size.0);
    let right = (place.area.x + place.area.width) as u16;
    if x < place.clip.x {
        let (rest, gap) = runs_behind(line, place.clip.x - x);
        PaintView::Line { x: cell_clamp(place.clip.x + gap), y, right, runs: rest }
    } else {
        PaintView::Line { x: cell_clamp(x), y, right, runs: line }
    }
}

/// The number of rows that show a line when the first `skip` of `count` lines lie above
/// the visible rows.
pub open spec fn rows_shown(count: nat, skip: nat, height: u16) -> nat {
    if skip >= count {
        0
    } else if count - skip < height {
        (count - skip) as nat
    } else {
        height as nat
    }
}

/// A paragraph: line after line, one row each, from the first line that lies in the visible
/// rows.
pub open spec fn paragraph(
    spans: Seq<SpanView>,
    alignment: Alignment,
    limit: Option<usize>,
    place: Place,
    base: CellStyle,
) -> Seq<PaintView> {
    let lines = styled_lines(spans, base);
    let skip = (place.area.y - place.origin.1) as nat;
    Seq::new(
        rows_shown(limited(lines.len(), limit), skip, place.area.height),
        |row: int| line_paint(lines[skip + row], alignment, place, (place.area.y + row) as u16),
    )
}

/// Draws a paragraph. Scrolling hides lines above the visible rows and columns before the
/// visible columns.
pub fn draw_text(
    out: &mut Vec<Paint>,
    spans: &Vec<Span>,
    alignment: Alignment,
    limit: Option<usize>,
    place: Place,
    base: CellStyle,
)
    requires
        place.wf(),
    ensures
        paints_view(final(out)@) == paints_view(old(out)@) + paragraph(
            spans_view(spans@),
            alignment,
            limit,
            place,
            base,
        ),
{
    let mut lines = lines_of(spans, base);
    let ghost all = lines_view(lines@);
    let mut count: usize = lines.len();
    if let Some(n) = limit {
        if n < count {
            count = n;
        }
    }
    let area = place.area;
    let skip: usize = (area.y as i64 - place.origin.1 as i64) as usize;
    let ghost shown = paragraph(spans_view(spans@), alignment, limit, place, base);
    let mut row: u16 = 0;
    assert(shown.take(0) == Seq::<PaintView>::empty());
    assert(paints_view(out@) =~= paints_view(old(out)@) + shown.take(0));
    while row < area.height && skip < count && (row as usize) < count - skip
        invariant
            place.wf(),
            area == place.area,
            skip == area.y - place.origin.1,
            count <= lines@.len(),
            count == limited(all.len(), limit),
            all.len() == lines@.len(),
            all == styled_lines(spans_view(spans@), base),
            shown == paragraph(spans_view(spans@), alignment, limit, place, base),
            row <= shown.len(),
            forall|i: int|
                skip + row <= i < lines@.len() ==> runs_view(#[trigger] lines@[i]@) == all[i],
            paints_view(out@) == paints_view(old(out)@) + shown.take(row as int),
        decreases area.height - row,
    {
        let index: usize = skip + row as usize;
        let mut line: Vec<Run> = Vec::new();
        std::mem::swap(&mut line, &mut lines[index]);
        assert(runs_view(line@) == all[index as int]);
        let width: usize = measure_line(&line);
        let x: i64 = place.origin.0 as i64 + indent_of(alignment, width, place.size.0) as i64;
        let left: i64 = place.clip.x as i64;
        let right: u16 = area.x + area.width;
        if x < left {
            let (rest, gap) = cut_runs(line, (left - x) as u64);
            let start: u16 = if gap >= 65535 { u16::MAX } else { clamp_cell(left + gap as i64) };
            emit(out, Paint::Line { x: start, y: area.y + row, right, runs: rest });
        } else {
            emit(out, Paint::Line { x: clamp_cell(x), y: area.y + row, right, runs: line });
        }
        row += 1;
        assert(shown.take(row as int) =~= shown.take(row - 1).push(shown[row - 1]));
    }
    assert(shown.take(row as int) =~= shown);
}

// ---- Lines and fills --------------------------------------------------------------

/// A rectangle filled with a background color.
pub open spec fn backdrop(area: CellRect, color: CellColor) -> PaintView {
    PaintView::Fill { area, style: CellStyle::of_bg(color) }
}

/// Fills a rectangle with a background color.
pub fn draw_fill(out: &mut Vec<Paint>, area: CellRect, color: CellColor)
    ensures
        paints_view(final(out)@) == paints_view(old(out)@).push(backdrop(area, color)),
{
    emit(out, Paint::Fill { area, style: CellStyle::new().bg(color) });
}

/// A horizontal rule over the visible columns of a place, in row `y`.
pub open spec fn rule(place: Place, y: int, theme: Theme) -> Seq<PaintView> {
    cut_glyphs(
        place.area.x as int,
        y,
        repeated('─', place.area.width as nat),
        place.area.width as int,
        CellStyle::of_fg(theme.border),
        place.clip,
    )
}

/// Draws a horizontal rule in row `y` over the visible columns of a place.
pub fn draw_rule(out: &mut Vec<Paint>, place: Place, y: i64, theme: &Theme)
    requires
        place.wf(),
    ensures
        paints_view(final(out)@) == paints_view(old(out)@) + rule(place, y as int, *theme),
{
    let text = repeat_char('─', place.area.width as usize);
    emit_cut(
        out,
        place.area.x as i64,
        y,
        text.as_str(),
        place.area.width as u64,
        CellStyle::new().fg(theme.border),
        place.clip,
    );
}

/// A divider: a rule along its own axis, in the first row or the first column of its frame.
pub open spec fn divider(vertical: bool, place: Place, theme: Theme) -> Seq<PaintView> {
    if !vertical {
        rule(place, place.origin.1 as int, theme)
    } else if place.origin.0 < place.clip.x {
        seq![]
    } else {
        Seq::new(
            place.area.height as nat,
            |row: int|
                glyphs(
                    place.area.x,
                    (place.area.y + row) as u16,
                    "│"@,
                    1,
                    CellStyle::of_fg(theme.border),
                ),
        )
    }
}

/// Draws a divider.
pub fn draw_divider(out: &mut Vec<Paint>, vertical: bool, place: Place, theme: &Theme)
    requires
        place.wf(),
    ensures
        paints_view(final(out)@) == paints_view(old(out)@) + divider(vertical, place, *theme),
{
    let area = place.area;
    if !vertical {
        draw_rule(out, place, place.origin.1 as i64, theme);
    } else if place.origin.0 < place.clip.x as i32 {
        assert(paints_view(out@) =~= paints_view(old(out)@) + divider(vertical, place, *theme));
    } else {
        let ghost all = divider(vertical, place, *theme);
        let mut row: u16 = 0;
        assert(paints_view(out@) =~= paints_view(old(out)@) + all.take(0));
        while row < area.height
            invariant
                area.wf(),
                area == place.area,
                row <= area.height,
                vertical,
                place.origin.0 >= place.clip.x,
                all == divider(vertical, place, *theme),
                paints_view(out@) == paints_view(old(out)@) + all.take(row as int),
            decreases area.height - row,
        {
            emit_text(out, area.x, area.y + row, "│", 1, CellStyle::new().fg(theme.border));
            row += 1;
            assert(all.take(row as int) =~= all.take(row - 1).push(all[row - 1]));
        }
        assert(all.take(row as int) =~= all);
    }
}

// ---- Buttons and toggles ----------------------------------------------------------

/// Whether a button style draws chrome around its label.
pub open spec fn has_border(style: ButtonStyle) -> bool {
    style != ButtonStyle::Plain && style != ButtonStyle::Borderless && style != ButtonStyle::Link
}

/// Whether a button style draws chrome around its label.
pub fn bordered(style: ButtonStyle) -> (r: bool)
    ensures
        r == has_border(style),
{
    match style {
        ButtonStyle::Plain | ButtonStyle::Borderless | ButtonStyle::Link => false,
        _ => true,
    }
}

/// The style of a button's brackets.
pub open spec fn bracket_style(focused: bool, theme: Theme) -> CellStyle {
    if focused {
        CellStyle { fg: Some(theme.accent), bg: None, modifiers: BOLD }
    } else {
        CellStyle::of_fg(theme.border)
    }
}

/// Two marks in the first and the last column of a place, in its first row.
pub open spec fn brackets(place: Place, first: Seq<char>, last: Seq<char>, style: CellStyle) -> Seq<PaintView> {
    let x = place.origin.0 as int;
    let y = place.origin.1 as int;
    cut_glyphs(x, y, first, 1, style, place.clip) + cut_glyphs(
        x + place.size.0 - 1,
        y,
        last,
        1,
        style,
        place.clip,
    )
}

fn draw_brackets(out: &mut Vec<Paint>, place: Place, first: &str, last: &str, style: CellStyle)
    requires
        place.wf(),
    ensures
        paints_view(final(out)@) == paints_view(old(out)@) + brackets(place, first@, last@, style),
{
    let x: i64 = place.origin.0 as i64;
    let y: i64 = place.origin.1 as i64;
    emit_cut(out, x, y, first, 1, style, place.clip);
    emit_cut(out, x + place.size.0 as i64 - 1, y, last, 1, style, place.clip);
    assert(paints_view(out@) =~= paints_view(old(out)@) + brackets(place, first@, last@, style));
}

/// The chrome of a button around its label.
pub open spec fn button_chrome(
    style: ButtonStyle,
    focused: bool,
    place: Place,
    theme: Theme,
) -> Seq<PaintView> {
    let accent = bracket_style(focused, theme);
    let area = place.area;
    let underline = CellStyle { fg: Some(theme.accent), bg: None, modifiers: UNDERLINED };
    match style {
        ButtonStyle::BorderedProminent => seq![
            PaintView::Fill {
                area,
                style: CellStyle {
                    fg: Some(theme.accent_foreground),
                    bg: Some(theme.accent),
                    modifiers: 0,
                },
            },
        ] + brackets(place, "▐"@, "▌"@, accent),
        ButtonStyle::Automatic | ButtonStyle::Bordered => brackets(place, "["@, "]"@, accent),
        ButtonStyle::Link => seq![PaintView::Fill { area, style: underline }],
        ButtonStyle::Plain | ButtonStyle::Borderless => if focused {
            seq![PaintView::Fill { area, style: underline }]
        } else {
            seq![]
        },
    }
}

/// Draws the chrome of a button.
pub fn draw_button_chrome(
    out: &mut Vec<Paint>,
    style: ButtonStyle,
    focused: bool,
    place: Place,
    theme: &Theme,
)
    requires
        place.wf(),
    ensures
        paints_view(final(out)@) == paints_view(old(out)@) + button_chrome(
            style,
            focused,
            place,
            *theme,
        ),
{
    let ghost before = paints_view(out@);
    let area = place.area;
    let accent = if focused {
        CellStyle { fg: Some(theme.accent), bg: None, modifiers: BOLD }
    } else {
        CellStyle::new().fg(theme.border)
    };
    match style {
        ButtonStyle::BorderedProminent => {
            emit(
                out,
                Paint::Fill {
                    area,
                    style: CellStyle::new().fg(theme.accent_foreground).bg(theme.accent),
                },
            );
            draw_brackets(out, place, "▐", "▌", accent);
        },
        ButtonStyle::Automatic | ButtonStyle::Bordered => {
            draw_brackets(out, place, "[", "]", accent);
        },
        ButtonStyle::Link => {
            emit(
                out,
                Paint::Fill { area, style: CellStyle { fg: Some(theme.accent), bg: None, modifiers: UNDERLINED } },
            );
        },
        ButtonStyle::Plain | ButtonStyle::Borderless => {
            if focused {
                emit(
                    out,
                    Paint::Fill { area, style: CellStyle { fg: Some(theme.accent), bg: None, modifiers: UNDERLINED } },
                );
            }
        },
    }
    assert(paints_view(out@) =~= before + button_chrome(style, focused, place, *theme));
}

/// The mark of a toggle.
pub open spec fn toggle_glyph(style: ToggleStyle, on: bool) -> Seq<char> {
    if style == ToggleStyle::Switch {
        if on {
            "(*)"@
        } else {
            "( )"@
        }
    } else if on {
        "[x]"@
    } else {
        "[ ]"@
    }
}

/// The mark of a toggle in the first cells of its frame.
pub open spec fn toggle_mark(
    style: ToggleStyle,
    on: bool,
    focused: bool,
    place: Place,
    theme: Theme,
) -> Seq<PaintView> {
    cut_glyphs(
        place.origin.0 as int,
        place.origin.1 as int,
        toggle_glyph(style, on),
        3,
        theme.control_style(focused),
        place.clip,
    )
}

/// Draws the mark of a toggle.
pub fn draw_toggle(
    out: &mut Vec<Paint>,
    style: ToggleStyle,
    on: bool,
    focused: bool,
    place: Place,
    theme: &Theme,
)
    requires
        place.wf(),
    ensures
        paints_view(final(out)@) == paints_view(old(out)@) + toggle_mark(
            style,
            on,
            focused,
            place,
            *theme,
        ),
{
    let glyph = match style {
        ToggleStyle::Switch => if on {
            "(*)"
        } else {
            "( )"
        },
        _ => if on {
            "[x]"
        } else {
            "[ ]"
        },
    };
    emit_cut(
        out,
        place.origin.0 as i64,
        place.origin.1 as i64,
        glyph,
        3,
        theme.control(focused),
        place.clip,
    );
}

// ---- Sliders, steppers and progress -----------------------------------------------

/// The visible columns of the columns `from` up to `to`: the first one and their number.
pub open spec fn band(from: int, to: int, clip: CellRect) -> (int, int) {
    let start = if from > clip.x { from } else { clip.x as int };
    let end = if to < clip.x + clip.width { to } else { clip.x + clip.width };
    if start < end {
        (start, end - start)
    } else {
        (start, 0)
    }
}

/// A run of one glyph over the visible part of some columns.
pub open spec fn bar(
    from: int,
    to: int,
    glyph: char,
    color: CellColor,
    y: int,
    clip: CellRect,
) -> Seq<PaintView> {
    let (start, len) = band(from, to, clip);
    if len > 0 && clip.y <= y < clip.y + clip.height {
        seq![
            glyphs(
                start as u16,
                y as u16,
                repeated(glyph, len as nat),
                len as usize,
                CellStyle::of_fg(color),
            ),
        ]
    } else {
        seq![]
    }
}

fn draw_bar(
    out: &mut Vec<Paint>,
    from: i64,
    to: i64,
    glyph: char,
    color: CellColor,
    y: i64,
    clip: CellRect,
)
    requires
        clip.wf(),
    ensures
        paints_view(final(out)@) == paints_view(old(out)@) + bar(
            from as int,
            to as int,
            glyph,
            color,
            y as int,
            clip,
        ),
{
    let clip_end: i64 = clip.x as i64 + clip.width as i64;
    let start: i64 = if from > clip.x as i64 { from } else { clip.x as i64 };
    let end: i64 = if to < clip_end { to } else { clip_end };
    let top: i64 = clip.y as i64;
    if start < end && top <= y && y < top + clip.height as i64 {
        let len: usize = (end - start) as usize;
        let text = repeat_char(glyph, len);
        emit(out, Paint::Text { x: start as u16, y: y as u16, text, max: len, style: CellStyle::new().fg(color) });
    } else {
        assert(paints_view(out@) =~= paints_view(old(out)@) + bar(
            from as int,
            to as int,
            glyph,
            color,
            y as int,
            clip,
        ));
    }
}

/// The width of a track.
pub open spec fn track_width(track: (u16, u16)) -> int {
    if track.0 < track.1 {
        track.1 - track.0
    } else {
        0
    }
}

/// The column of a slider's thumb, before it is shifted.
pub open spec fn thumb_column(track: (u16, u16), value: u32) -> int {
    track.0 + portion(track_width(track) - 1, value)
}

/// A slider: its track, and the thumb on it. `shift` moves the track's columns to the screen.
pub open spec fn slider(
    track: (u16, u16),
    value: u32,
    focused: bool,
    y: i32,
    clip: CellRect,
    shift: i32,
    theme: Theme,
) -> Seq<PaintView> {
    if track_width(track) > 0 {
        bar(track.0 + shift, track.1 + shift, '─', theme.muted, y as int, clip) + cut_glyphs(
            thumb_column(track, value) + shift,
            y as int,
            "●"@,
            1,
            theme.control_style(focused),
            clip,
        )
    } else {
        seq![]
    }
}

/// Draws a slider.
pub fn draw_slider(
    out: &mut Vec<Paint>,
    track: (u16, u16),
    value: u32,
    focused: bool,
    y: i32,
    clip: CellRect,
    shift: i32,
    theme: &Theme,
)
    requires
        clip.wf(),
    ensures
        paints_view(final(out)@) == paints_view(old(out)@) + slider(
            track,
            value,
            focused,
            y,
            clip,
            shift,
            *theme,
        ),
{
    let ghost before = paints_view(out@);
    if track.0 < track.1 {
        let width: u16 = track.1 - track.0;
        let thumb: i64 = track.0 as i64 + portion_of(width - 1, value) as i64 + shift as i64;
        draw_bar(
            out,
            track.0 as i64 + shift as i64,
            track.1 as i64 + shift as i64,
            '─',
            theme.muted,
            y as i64,
            clip,
        );
        emit_cut(out, thumb, y as i64, "●", 1, theme.control(focused), clip);
    }
    assert(paints_view(out@) =~= before + slider(track, value, focused, y, clip, shift, *theme));
}

/// The number of digits of a number.
pub open spec fn digit_count(v: int) -> int {
    decimal((if v < 0 { -v } else { v }) as nat).len() as int
}

/// The columns that a stepper keeps for its value: enough for both ends of its range.
pub open spec fn value_columns(low: i32, high: i32) -> int {
    let a = digit_count(low as int);
    let b = digit_count(high as int);
    (if a > b { a } else { b }) + if low < 0 || high < 0 { 1int } else { 0int }
}

fn digits_of(v: u32) -> (r: u16)
    ensures
        r == decimal(v as nat).len(),
        1 <= r <= 10,
{
    proof {
        reveal_with_fuel(decimal, 11);
    }
    if v < 10 {
        1
    } else if v < 100 {
        2
    } else if v < 1000 {
        3
    } else if v < 10000 {
        4
    } else if v < 100000 {
        5
    } else if v < 1000000 {
        6
    } else if v < 10000000 {
        7
    } else if v < 100000000 {
        8
    } else if v < 1000000000 {
        9
    } else {
        10
    }
}

/// Counts the columns that a stepper keeps for its value.
pub fn stepper_digits(low: i32, high: i32) -> (r: u16)
    ensures
        r == value_columns(low, high),
        1 <= r <= 11,
{
    let a: u16 = digits_of(if low < 0 { (-(low as i64)) as u32 } else { low as u32 });
    let b: u16 = digits_of(if high < 0 { (-(high as i64)) as u32 } else { high as u32 });
    let sign: u16 = if low < 0 || high < 0 { 1 } else { 0 };
    (if a > b { a } else { b }) + sign
}

/// What a stepper shows: its formatted value, or the plain number.
pub open spec fn stepper_text(value: i32, formatted: Option<Seq<char>>) -> Seq<char> {
    match formatted {
        Some(text) => text,
        None => signed_decimal(value as int),
    }
}

/// The larger of a text's width and the columns kept for a stepper's value.
pub open spec fn stepper_room(width: usize, low: i32, high: i32) -> int {
    if width > value_columns(low, high) {
        width as int
    } else {
        value_columns(low, high)
    }
}

/// The column at which the `[-] value [+]` group of a stepper starts: as far left as it needs,
/// but not before the first column.
pub open spec fn stepper_start(x: u16, width: u16, room: int) -> int {
    if x + width > room + 8 {
        x + width - (room + 8)
    } else {
        0
    }
}

/// A stepper: the two buttons around its value, at the right edge of its frame, which starts
/// in column `x` before it is moved to its place.
pub open spec fn stepper(
    text: Seq<char>,
    low: i32,
    high: i32,
    focused: bool,
    x: u16,
    place: Place,
    theme: Theme,
) -> Seq<PaintView> {
    let room = stepper_room(display_width(text), low, high);
    let start = place.origin.0 - x + stepper_start(x, place.size.0, room);
    stepper_group(text, start, room, focused, place, theme)
}

/// The `[-] value [+]` group of a stepper from column `start` on, with `room` columns for the
/// value.
pub open spec fn stepper_group(
    text: Seq<char>,
    start: int,
    room: int,
    focused: bool,
    place: Place,
    theme: Theme,
) -> Seq<PaintView> {
    let y = place.origin.1 as int;
    let style = theme.control_style(focused);
    cut_glyphs(start, y, "[-]"@, 3, style, place.clip) + cut_glyphs(
        start + 4,
        y,
        text,
        room,
        theme.text_style(),
        place.clip,
    ) + cut_glyphs(start + 5 + room, y, "[+]"@, 3, style, place.clip)
}

fn draw_stepper_group(
    out: &mut Vec<Paint>,
    text: &String,
    start: i64,
    room: u64,
    focused: bool,
    place: Place,
    theme: &Theme,
)
    requires
        place.wf(),
        -0x1_0000_0000 <= start <= 0x1_0000_0000,
    ensures
        paints_view(final(out)@) == paints_view(old(out)@) + stepper_group(
            text@,
            start as int,
            room as int,
            focused,
            place,
            *theme,
        ),
{
    let ghost before = paints_view(out@);
    let y: i64 = place.origin.1 as i64;
    let style = theme.control(focused);
    // A value that wide reaches past the end of the grid, however far left it starts.
    let shown: u64 = if room < 0x2_0000_0000 { room } else { 0x2_0000_0000 };
    emit_cut(out, start, y, "[-]", 3, style, place.clip);
    emit_cut(out, start + 4, y, text.as_str(), shown, theme.text(), place.clip);
    emit_cut(out, start + 5 + shown as i64, y, "[+]", 3, style, place.clip);
    assert(paints_view(out@) =~= before + stepper_group(
        text@,
        start as int,
        room as int,
        focused,
        place,
        *theme,
    ));
}

/// Draws a stepper.
pub fn draw_stepper(
    out: &mut Vec<Paint>,
    value: i32,
    formatted: &Option<String>,
    low: i32,
    high: i32,
    focused: bool,
    x: u16,
    place: Place,
    theme: &Theme,
)
    requires
        place.wf(),
    ensures
        paints_view(final(out)@) == paints_view(old(out)@) + stepper(
            stepper_text(
                value,
                match *formatted {
                    Some(text) => Some(text@),
                    None => None,
                },
            ),
            low,
            high,
            focused,
            x,
            place,
            *theme,
        ),
{
    let text: String = match formatted {
        Some(text) => text.clone(),
        None => signed_string(value),
    };
    let taken: u64 = width_of(text.as_str()) as u64;
    let kept: u64 = stepper_digits(low, high) as u64;
    let room: u64 = if taken > kept { taken } else { kept };
    let right: u64 = x as u64 + place.size.0 as u64;
    let inset: u64 = if right > 8 && room < right - 8 { right - 8 - room } else { 0 };
    let start: i64 = place.origin.0 as i64 - x as i64 + inset as i64;
    draw_stepper_group(out, &text, start, room, focused, place, theme);
}

/// The spinner's frames, in order.
pub open spec fn spinner_glyph(tick: u64) -> Seq<char> {
    let k = tick % 10;
    if k == 0 {
        "⠋"@
    } else if k == 1 {
        "⠙"@
    } else if k == 2 {
        "⠹"@
    } else if k == 3 {
        "⠸"@
    } else if k == 4 {
        "⠼"@
    } else if k == 5 {
        "⠴"@
    } else if k == 6 {
        "⠦"@
    } else if k == 7 {
        "⠧"@
    } else if k == 8 {
        "⠇"@
    } else {
        "⠏"@
    }
}

/// The ring of a circular indicator, filled in quarters.
pub open spec fn ring_glyph(value: u32) -> Seq<char> {
    let k = portion(4, value);
    if k == 0 {
        "○"@
    } else if k == 1 {
        "◔"@
    } else if k == 2 {
        "◑"@
    } else if k == 3 {
        "◕"@
    } else {
        "●"@
    }
}

/// A progress indicator: a bar, a ring or a spinner. `shift` moves the bar's columns to the
/// screen.
pub open spec fn progress(
    style: ProgressStyle,
    value: u32,
    track: (u16, u16),
    place: Place,
    shift: i32,
    tick: u64,
    theme: Theme,
) -> Seq<PaintView> {
    let x = place.origin.0 as int;
    let y = place.origin.1 as int;
    match style {
        ProgressStyle::Linear => if track_width(track) > 0 {
            let full = track.0 + portion(track_width(track), value);
            bar(track.0 + shift, full + shift, '█', theme.accent, y, place.clip) + bar(
                full + shift,
                track.1 + shift,
                '░',
                theme.muted,
                y,
                place.clip,
            )
        } else {
            seq![]
        },
        ProgressStyle::Circular => cut_glyphs(
            x,
            y,
            ring_glyph(value),
            1,
            theme.text_style(),
            place.clip,
        ),
        ProgressStyle::Loading => cut_glyphs(
            x,
            y,
            spinner_glyph(tick),
            1,
            CellStyle::of_fg(theme.accent),
            place.clip,
        ),
    }
}

/// Draws a progress indicator.
pub fn draw_progress(
    out: &mut Vec<Paint>,
    style: ProgressStyle,
    value: u32,
    track: (u16, u16),
    place: Place,
    shift: i32,
    tick: u64,
    theme: &Theme,
)
    requires
        place.wf(),
    ensures
        paints_view(final(out)@) == paints_view(old(out)@) + progress(
            style,
            value,
            track,
            place,
            shift,
            tick,
            *theme,
        ),
{
    let clip = place.clip;
    let x: i64 = place.origin.0 as i64;
    let y: i64 = place.origin.1 as i64;
    let ghost before = paints_view(out@);
    match style {
        ProgressStyle::Linear => {
            if track.0 < track.1 {
                let width: u16 = track.1 - track.0;
                let full: i64 = track.0 as i64 + portion_of(width, value) as i64 + shift as i64;
                draw_bar(out, track.0 as i64 + shift as i64, full, '█', theme.accent, y, clip);
                draw_bar(out, full, track.1 as i64 + shift as i64, '░', theme.muted, y, clip);
            }
        },
        ProgressStyle::Circular => {
            let k: u16 = portion_of(4, value);
            let glyph = if k == 0 {
                "○"
            } else if k == 1 {
                "◔"
            } else if k == 2 {
                "◑"
            } else if k == 3 {
                "◕"
            } else {
                "●"
            };
            emit_cut(out, x, y, glyph, 1, theme.text(), clip);
        },
        ProgressStyle::Loading => {
            let k: u64 = tick % 10;
            let glyph = if k == 0 {
                "⠋"
            } else if k == 1 {
                "⠙"
            } else if k == 2 {
                "⠹"
            } else if k == 3 {
                "⠸"
            } else if k == 4 {
                "⠼"
            } else if k == 5 {
                "⠴"
            } else if k == 6 {
                "⠦"
            } else if k == 7 {
                "⠧"
            } else if k == 8 {
                "⠇"
            } else {
                "⠏"
            };
            emit_cut(out, x, y, glyph, 1, CellStyle::new().fg(theme.accent), clip);
        },
    }
    assert(paints_view(out@) =~= before + progress(
        style,
        value,
        track,
        place,
        shift,
        tick,
        *theme,
    ));
}
// ---- Fields -----------------------------------------------------------------------

/// The style of the text in a field.
pub open spec fn field_style(empty: bool, focused: bool, theme: Theme) -> CellStyle {
    if empty {
        CellStyle::of_fg(theme.muted).plus(ITALIC)
    } else if focused {
        theme.text_style().plus(UNDERLINED)
    } else {
        theme.text_style()
    }
}

/// The first `n` characters of a text.
pub open spec fn head(text: Seq<char>, n: int) -> Seq<char> {
    if n < text.len() {
        text.take(n)
    } else {
        text
    }
}

fn head_of(text: &str, n: usize) -> (r: String)
    ensures
        r@ == head(text@, n as int),
{
    let mut chars = chars_of(text);
    chars.truncate(n);
    let r = string_of(&chars);
    assert(r@ =~= head(text@, n as int));
    r
}

/// The columns of a field before its text: its label and a colon, where it has a label.
pub open spec fn lead_columns(label: Seq<char>) -> int {
    if display_width(label) > 0 {
        display_width(label) + 2
    } else {
        0
    }
}

/// A label and a text behind it in the first row of a place, cut at the clip. `cursor` is the
/// cursor's column within the text; it is not shown left of the clip.
pub open spec fn labelled(
    label: Seq<char>,
    text: Seq<char>,
    style: CellStyle,
    cursor: Option<usize>,
    place: Place,
    muted: CellStyle,
) -> Seq<PaintView> {
    let clip = place.clip;
    let edge = clip.x + clip.width;
    let right = (place.area.x + place.area.width) as u16;
    let y = place.origin.1;
    let lead = lead_columns(label);
    let cut = clip.x - place.origin.0;
    if !(clip.y <= y < clip.y + clip.height) {
        seq![]
    } else if cut <= 0 {
        seq![
            PaintView::Field {
                x: place.origin.0 as u16,
                y: y as u16,
                edge: edge as u16,
                right,
                label,
                label_width: display_width(label),
                colon: true,
                muted,
                text,
                style,
                cursor: match cursor {
                    Some(at) => Some(coordinate(at as int)),
                    None => None,
                },
            },
        ]
    } else if cut < lead {
        let (rest, gap) = behind(label + ": "@, cut);
        if clip.x + gap < edge {
            seq![
                PaintView::Field {
                    x: (clip.x + gap) as u16,
                    y: y as u16,
                    edge: edge as u16,
                    right,
                    label: rest,
                    label_width: columns_behind(lead, cut + gap),
                    colon: false,
                    muted,
                    text,
                    style,
                    cursor: match cursor {
                        Some(at) => Some(coordinate(at as int)),
                        None => None,
                    },
                },
            ]
        } else {
            seq![]
        }
    } else {
        let (rest, gap) = behind(text, cut - lead);
        if clip.x + gap < edge {
            seq![
                PaintView::Field {
                    x: (clip.x + gap) as u16,
                    y: y as u16,
                    edge: edge as u16,
                    right,
                    label: seq![],
                    label_width: 0,
                    colon: false,
                    muted,
                    text: rest,
                    style,
                    cursor: match cursor {
                        Some(at) => if at >= cut - lead {
                            Some(coordinate(at - (cut - lead) - gap))
                        } else {
                            None
                        },
                        None => None,
                    },
                },
            ]
        } else {
            seq![]
        }
    }
}

/// `all - taken` columns, or none where more were taken.
pub open spec fn columns_behind(all: int, taken: int) -> usize {
    if taken < all {
        (all - taken) as usize
    } else {
        0
    }
}

fn hold_coordinate(v: i128) -> (r: i32)
    ensures
        r == coordinate(v as int),
{
    if v > i32::MAX as i128 {
        i32::MAX
    } else if v < i32::MIN as i128 {
        i32::MIN
    } else {
        v as i32
    }
}

fn draw_labelled(
    out: &mut Vec<Paint>,
    label: &String,
    text: String,
    style: CellStyle,
    cursor: Option<usize>,
    place: Place,
    muted: CellStyle,
)
    requires
        place.wf(),
    ensures
        paints_view(final(out)@) == paints_view(old(out)@) + labelled(
            label@,
            text@,
            style,
            cursor,
            place,
            muted,
        ),
{
    let ghost before = paints_view(out@);
    let ghost shown = labelled(label@, text@, style, cursor, place, muted);
    let clip = place.clip;
    let edge: u16 = clip.x + clip.width;
    let right: u16 = place.area.x + place.area.width;
    let y: i64 = place.origin.1 as i64;
    let label_width: usize = width_of(label.as_str());
    let lead: i128 = if label_width > 0 { label_width as i128 + 2 } else { 0 };
    let cut: i64 = clip.x as i64 - place.origin.0 as i64;
    let at: Option<i32> = match cursor {
        Some(at) => Some(hold_coordinate(at as i128)),
        None => None,
    };
    if y < clip.y as i64 || y >= clip.y as i64 + clip.height as i64 {
        assert(paints_view(out@) =~= before + shown);
        return;
    }
    if cut <= 0 {
        emit(
            out,
            Paint::Field {
                x: place.origin.0 as u16,
                y: y as u16,
                edge,
                right,
                label: label.clone(),
                label_width,
                colon: true,
                muted,
                text,
                style,
                cursor: at,
            },
        );
    } else if (cut as i128) < lead {
        let mut whole = String::new();
        whole.append(label.as_str());
        whole.append(": ");
        proof {
            reveal_strlit("");
            assert(whole@ =~= label@ + ": "@);
        }
        let (rest, gap) = cut_text(whole.as_str(), cut as u64);
        if (gap as u64) < clip.width as u64 {
            let taken: i128 = cut as i128 + gap as i128;
            let room: usize = if taken < lead { (lead - taken) as usize } else { 0 };
            emit(
                out,
                Paint::Field {
                    x: clip.x + gap as u16,
                    y: y as u16,
                    edge,
                    right,
                    label: rest,
                    label_width: room,
                    colon: false,
                    muted,
                    text,
                    style,
                    cursor: at,
                },
            );
        }
    } else {
        let past: i64 = (cut as i128 - lead) as i64;
        let (rest, gap) = cut_text(text.as_str(), past as u64);
        if (gap as u64) < clip.width as u64 {
            let seen: Option<i32> = match cursor {
                Some(at) => if at as i128 >= past as i128 {
                    Some(hold_coordinate(at as i128 - past as i128 - gap as i128))
                } else {
                    None
                },
                None => None,
            };
            let none = String::new();
            assert(none@ =~= Seq::<char>::empty());
            emit(
                out,
                Paint::Field {
                    x: clip.x + gap as u16,
                    y: y as u16,
                    edge,
                    right,
                    label: none,
                    label_width: 0,
                    colon: false,
                    muted,
                    text: rest,
                    style,
                    cursor: seen,
                },
            );
        }
    }
    assert(paints_view(out@) =~= before + shown);
}

/// A text field: its label, then its value, or the prompt while the value is empty. The
/// cursor stands behind the characters before it.
pub open spec fn field(
    label: Seq<char>,
    value: Seq<char>,
    prompt: Seq<char>,
    cursor: usize,
    focused: bool,
    place: Place,
    theme: Theme,
) -> Seq<PaintView> {
    let text = if value.len() == 0 { prompt } else { value };
    labelled(
        label,
        text,
        field_style(value.len() == 0, focused, theme),
        if focused {
            Some(display_width(head(text, cursor as int)))
        } else {
            None
        },
        place,
        CellStyle::of_fg(theme.muted),
    )
}

/// Draws a text field.
pub fn draw_field(
    out: &mut Vec<Paint>,
    label: &String,
    value: &String,
    prompt: &String,
    cursor: usize,
    focused: bool,
    place: Place,
    theme: &Theme,
)
    requires
        place.wf(),
    ensures
        paints_view(final(out)@) == paints_view(old(out)@) + field(
            label@,
            value@,
            prompt@,
            cursor,
            focused,
            place,
            *theme,
        ),
{
    let empty = value.as_str().is_empty();
    let text: String = if empty { prompt.clone() } else { value.clone() };
    let muted = CellStyle::new().fg(theme.muted);
    let style = if empty {
        muted.add_modifier(ITALIC)
    } else if focused {
        theme.text().add_modifier(UNDERLINED)
    } else {
        theme.text()
    };
    let at: Option<usize> = if focused {
        let before = head_of(text.as_str(), cursor);
        Some(width_of(before.as_str()))
    } else {
        None
    };
    draw_labelled(out, label, text, style, at, place, muted);
}

/// A masked field: one dot for each character of the secret, whatever the characters are.
pub open spec fn secure_field(
    label: Seq<char>,
    count: nat,
    cursor: usize,
    focused: bool,
    place: Place,
    theme: Theme,
) -> Seq<PaintView> {
    labelled(
        label,
        repeated('•', count),
        field_style(false, focused, theme),
        if focused {
            Some((if cursor < count { cursor as int } else { count as int }) as usize)
        } else {
            None
        },
        place,
        CellStyle::of_fg(theme.muted),
    )
}

/// Draws a masked field of `count` characters.
pub fn draw_secure(
    out: &mut Vec<Paint>,
    label: &String,
    count: usize,
    cursor: usize,
    focused: bool,
    place: Place,
    theme: &Theme,
)
    requires
        place.wf(),
    ensures
        paints_view(final(out)@) == paints_view(old(out)@) + secure_field(
            label@,
            count as nat,
            cursor,
            focused,
            place,
            *theme,
        ),
{
    let style = if focused { theme.text().add_modifier(UNDERLINED) } else { theme.text() };
    let at: Option<usize> = if focused {
        Some(if cursor < count { cursor } else { count })
    } else {
        None
    };
    draw_labelled(out, label, repeat_char('•', count), style, at, place, CellStyle::new().fg(theme.muted));
}

// ---- Scroll bars ------------------------------------------------------------------

/// The rows of a scroll bar's thumb: the first one, counted from the top of the screen,
/// and their number. `offset` rows of `extent` lie above a viewport of `height` rows, of
/// which `area` is visible.
pub open spec fn scroll_thumb(offset: i32, extent: u16, height: u16, area: CellRect) -> (int, int) {
    let track = area.height as int;
    let share = track * track / extent as int;
    let thumb = if share < 1 { 1 } else { share };
    let above = if offset < 0 { 0 } else { offset as int };
    let down = above * (track - thumb) / (extent - height);
    (area.y + down, thumb)
}

/// A scroll bar in the last visible column of a viewport whose content is taller than the
/// viewport.
pub open spec fn scrollbar(
    offset: i32,
    extent: u16,
    height: u16,
    area: CellRect,
    theme: Theme,
) -> Seq<PaintView> {
    if extent <= height {
        seq![]
    } else {
        let (top, thumb) = scroll_thumb(offset, extent, height, area);
        let x = (area.x + area.width - 1) as u16;
        Seq::new(
            area.height as nat,
            |row: int|
                if top <= area.y + row < top + thumb {
                    glyphs(x, (area.y + row) as u16, "┃"@, 1, CellStyle::of_fg(theme.muted))
                } else {
                    glyphs(x, (area.y + row) as u16, "│"@, 1, CellStyle::of_fg(theme.border))
                },
        )
    }
}

/// Places the thumb of a scroll bar.
pub fn scroll_thumb_rows(offset: i32, extent: u16, height: u16, area: CellRect) -> (r: (i64, i64))
    requires
        extent > height,
        area.height > 0,
        area.height <= height,
    ensures
        (r.0 as int, r.1 as int) == scroll_thumb(offset, extent, height, area),
        1 <= r.1 <= area.height,
        0 <= r.0 <= 0x1_0000_0000_0000,
{
    let track: i64 = area.height as i64;
    let all: i64 = extent as i64;
    proof {
        assert(1 <= track * track <= 65535 * 65535) by (nonlinear_arith)
            requires
                1 <= track <= 65535,
        ;
    }
    let share: i64 = track * track / all;
    let thumb: i64 = if share < 1 { 1 } else { share };
    proof {
        assert(0 <= track * track / (all as int) <= track) by (nonlinear_arith)
            requires
                0 < track <= all,
        ;
    }
    let above: i64 = if offset < 0 { 0 } else { offset as i64 };
    let room: i64 = track - thumb;
    proof {
        assert(0 <= above * room <= 0x7fff_ffff * 65535) by (nonlinear_arith)
            requires
                0 <= above <= 0x7fff_ffff,
                0 <= room <= 65535,
        ;
    }
    let down: i64 = above * room / (extent as i64 - height as i64);
    proof {
        let span = extent - height;
        assert(0 <= (above * room) / span <= above * room) by (nonlinear_arith)
            requires
                0 <= above * room,
                1 <= span,
        ;
    }
    (area.y as i64 + down, thumb)
}

/// Draws a scroll bar where the content is taller than the viewport.
pub fn draw_scrollbar(
    out: &mut Vec<Paint>,
    offset: i32,
    extent: u16,
    height: u16,
    area: CellRect,
    theme: &Theme,
)
    requires
        area.wf(),
        area.width > 0,
        0 < area.height <= height,
    ensures
        paints_view(final(out)@) == paints_view(old(out)@) + scrollbar(
            offset,
            extent,
            height,
            area,
            *theme,
        ),
{
    let ghost all = scrollbar(offset, extent, height, area, *theme);
    if extent <= height {
        assert(paints_view(out@) =~= paints_view(old(out)@) + all);
        return ;
    }
    let (top, thumb) = scroll_thumb_rows(offset, extent, height, area);
    let x: u16 = area.x + (area.width - 1);
    let mut row: u16 = 0;
    assert(paints_view(out@) =~= paints_view(old(out)@) + all.take(0));
    while row < area.height
        invariant
            area.wf(),
            row <= area.height,
            extent > height,
            x == area.x + area.width - 1,
            0 <= top <= 0x1_0000_0000_0000,
            1 <= thumb <= 65535,
            (top as int, thumb as int) == scroll_thumb(offset, extent, height, area),
            all == scrollbar(offset, extent, height, area, *theme),
            paints_view(out@) == paints_view(old(out)@) + all.take(row as int),
        decreases area.height - row,
    {
        let y: u16 = area.y + row;
        if top <= y as i64 && (y as i64) < top + thumb {
            emit_text(out, x, y, "┃", 1, CellStyle::new().fg(theme.muted));
        } else {
            emit_text(out, x, y, "│", 1, CellStyle::new().fg(theme.border));
        }
        row += 1;
        assert(all.take(row as int) =~= all.take(row - 1).push(all[row - 1]));
    }
    assert(all.take(row as int) =~= all);
}

// ---- Tabs -------------------------------------------------------------------------

/// One tab of a tab bar.
#[derive(Clone, Copy, Debug, PartialEq, Eq, Structural)]
pub struct TabEntry {
    /// Stable identifier, matched against the selection.
    pub id: u32,
    /// Whether the tab can be selected.
    pub enabled: bool,
    /// Count drawn behind the label.
    pub badge: Option<i32>,
}

/// The chrome of one tab: its label's style, and its badge behind the label.
pub open spec fn tab_chrome(
    entry: TabEntry,
    selected: bool,
    label: CellRect,
    area: CellRect,
    clip: CellRect,
    shift: (i32, i32),
    theme: Theme,
) -> Seq<PaintView> {
    let left_edge = coordinate(label.x + shift.0);
    let y = coordinate(label.y + shift.1);
    let visible = shown(
        left_edge as int,
        y as int,
        label.width as int,
        label.height as int,
        clip,
    );
    let mark = if selected {
        seq![
            PaintView::Fill {
                area: visible,
                style: CellStyle::of_fg(theme.accent).plus(BOLD | UNDERLINED),
            },
        ]
    } else if !entry.enabled {
        seq![PaintView::Fill { area: visible, style: CellStyle::of_fg(theme.muted) }]
    } else {
        seq![]
    };
    let x = left_edge + label.width;
    match entry.badge {
        Some(n) => mark + cut_glyphs(
            x,
            y as int,
            seq![' '] + signed_decimal(n as int),
            (if x < area.x + area.width && area.x + area.width - x < 65535 {
                area.x + area.width - x
            } else if x < area.x + area.width {
                65535
            } else {
                0
            }),
            CellStyle::of_fg(theme.muted),
            clip,
        ),
        None => mark,
    }
}

/// Draws the chrome of one tab.
pub fn draw_tab(
    out: &mut Vec<Paint>,
    entry: &TabEntry,
    selected: bool,
    label: CellRect,
    area: CellRect,
    clip: CellRect,
    shift: (i32, i32),
    theme: &Theme,
)
    requires
        area.wf(),
        clip.wf(),
    ensures
        paints_view(final(out)@) == paints_view(old(out)@) + tab_chrome(
            *entry,
            selected,
            label,
            area,
            clip,
            shift,
            *theme,
        ),
{
    let ghost before = paints_view(out@);
    let left_edge: i32 = coordinate_sum(label.x as i32, shift.0);
    let top_edge: i32 = coordinate_sum(label.y as i32, shift.1);
    let seen = visible(
        left_edge,
        top_edge,
        label.width,
        label.height,
        clip,
    );
    if selected {
        emit(
            out,
            Paint::Fill { area: seen, style: CellStyle::new().fg(theme.accent).add_modifier(BOLD | UNDERLINED) },
        );
        assert(0u16 | (BOLD | UNDERLINED) == BOLD | UNDERLINED) by (bit_vector);
    } else if !entry.enabled {
        emit(out, Paint::Fill { area: seen, style: CellStyle::new().fg(theme.muted) });
    }
    if let Some(n) = entry.badge {
        let x: i64 = left_edge as i64 + label.width as i64;
        let y: i64 = top_edge as i64;
        let right: i64 = area.x as i64 + area.width as i64;
        let left: u16 = if x >= right {
            0
        } else if right - x < 65535 {
            (right - x) as u16
        } else {
            65535
        };
        let number = signed_string(n);
        let mut text = String::new();
        text.append(" ");
        text.append(number.as_str());
        proof {
            reveal_strlit(" ");
            assert(text@ =~= seq![' '] + signed_decimal(n as int));
        }
        emit_cut(out, x, y, text.as_str(), left as u64, CellStyle::new().fg(theme.muted), clip);
    }
    assert(paints_view(out@) =~= before + tab_chrome(
        *entry,
        selected,
        label,
        area,
        clip,
        shift,
        *theme,
    ));
}

// ---- Laws -------------------------------------------------------------------------

/// A larger share never fills fewer cells of a bar or fewer quarters of a ring, nothing fills
/// none of them, and everything fills all.
pub proof fn law_progress_never_shrinks(cells: int, less: u32, more: u32)
    requires
        0 <= cells,
        less <= more,
    ensures
        portion(cells, less) <= portion(cells, more),
        0 <= portion(cells, less) <= cells,
        portion(cells, 0) == 0,
        portion(cells, WHOLE) == cells,
{
    let a = if less > WHOLE { WHOLE as int } else { less as int };
    let b = if more > WHOLE { WHOLE as int } else { more as int };
    assert(0 <= cells * a <= cells * b <= cells * WHOLE) by (nonlinear_arith)
        requires
            0 <= cells,
            0 <= a <= b <= WHOLE,
    ;
    assert(cells * 0 == 0);
    assert(cells * 0u32 == 0) by (nonlinear_arith);
}

} // verus!
