//! Drawing: what a node shows, where, and in which style.

use vstd::prelude::*;

use crate::buffer::{blank, stringn, CellView};
use crate::controls::{
    indent, portion, stepper_room, stepper_text, Alignment, ButtonStyle, ProgressStyle, TabEntry,
    ToggleStyle,
};
use crate::geometry::CellRect;
use crate::input::selected_tab;
use crate::node::{FieldView, KindView, NodeView, SecureView};
use crate::paint::{applied, applied_all, cut_glyphs, print, print_runs, PaintView};
use crate::render::{all_painted, DrawCtx, Drawn};
use crate::scroll::ScrollState;
use crate::style::{CellColor, CellStyle, Theme};
use crate::text::{
    behind, display_width, line_width, repeated, runs_behind, styled_lines, RunView, SpanView,
};

verus! {

/// Whether all cells of a node lie in the clip once it is shifted, and it has some.
pub open spec fn seen(node: NodeView, clip: CellRect, shift: (i32, i32)) -> bool {
    &&& clip.wf()
    &&& node.frame.width > 0
    &&& node.frame.height > 0
    &&& clip.x <= node.frame.x + shift.0
    &&& clip.y <= node.frame.y + shift.1
    &&& node.frame.x + shift.0 + node.frame.width <= clip.x + clip.width
    &&& node.frame.y + shift.1 + node.frame.height <= clip.y + clip.height
}

/// Whether a node has nothing in it, so that it draws itself alone.
pub open spec fn alone(node: NodeView) -> bool {
    node.children.len() == 0
}

/// The style with a foreground and nothing else.
pub open spec fn ink_of(color: CellColor) -> CellStyle {
    CellStyle { fg: Some(color), bg: None, modifiers: 0 }
}

/// The style of a control: accented and bold while it has the focus, plain text otherwise.
pub open spec fn control_ink(node: NodeView, ctx: DrawCtx) -> CellStyle {
    if node.focus is Some && ctx.focused == node.focus {
        CellStyle { fg: Some(ctx.theme.accent), bg: None, modifiers: 1 }
    } else {
        ink_of(ctx.theme.foreground)
    }
}

/// Whether a list has one entry, which prints `text` at `(x, y)` in `style`, cut at `far`.
pub open spec fn prints(
    paints: Seq<PaintView>,
    x: int,
    y: int,
    text: Seq<char>,
    columns: int,
    far: int,
    style: CellStyle,
) -> bool {
    let max = if x + columns < far {
        columns
    } else {
        far - x
    };
    &&& paints.len() == 1
    &&& paints[0] matches PaintView::Text { x: at, y: row, text: shown, max: room, style: ink }
    &&& at == x && row == y && shown == text && room == max && ink == style
}

proof fn lemma_alone(node: NodeView, ctx: DrawCtx, clip: CellRect, shift: (i32, i32))
    requires
        seen(node, clip, shift),
        alone(node),
        node.kind !is Lazy,
        node.kind !is Dynamic,
    ensures
        node.painted(ctx, clip, shift) == node.chrome(ctx, clip, shift),
        node.visible_area(clip, shift) == (CellRect {
            x: (node.frame.x + shift.0) as u16,
            y: (node.frame.y + shift.1) as u16,
            width: node.frame.width,
            height: node.frame.height,
        }),
        node.place(clip, shift).wf(),
        node.origin(shift) == (
            (node.frame.x + shift.0) as i32,
            (node.frame.y + shift.1) as i32,
        ),
{
    let inner = all_painted(
        node.children,
        node.drawn_children(),
        ctx,
        node.inner_clip(clip, shift),
        node.inner_shift(shift),
    );
    assert(inner =~= seq![]);
    assert(node.chrome(ctx, clip, shift) + inner =~= node.chrome(ctx, clip, shift));
}

/// A row of glyphs ends where it would end, or at the edge of the clip; what lies left of the clip
/// is left out, and the rest keeps its columns. Outside of the rows of the clip nothing is shown.
pub proof fn law_glyphs_slide_under_their_clip(
    x: int,
    y: int,
    text: Seq<char>,
    max: int,
    style: CellStyle,
    clip: CellRect,
)
    requires
        clip.wf(),
        0 <= max <= 65535,
    ensures
        ({
            let paints = cut_glyphs(x, y, text, max, style, clip);
            let edge = clip.x + clip.width;
            let end = if x + max < edge {
                x + max
            } else {
                edge
            };
            let (rest, gap) = behind(text, clip.x - x);
            let start = if x < clip.x {
                clip.x + gap
            } else {
                x
            };
            let drawn = clip.y <= y < clip.y + clip.height && start < end;
            &&& paints.len() == if drawn {
                1int
            } else {
                0
            }
            &&& drawn ==> {
                &&& paints[0] matches PaintView::Text { x: at, y: row, text: shown, max: room, style: ink }
                &&& at == start && row == y && ink == style
                &&& at + room == end
                &&& shown == if x < clip.x {
                    rest
                } else {
                    text
                }
            }
        }),
{
}

// ---- Marks ------------------------------------------------------------------------

/// A toggle shows its mark in its first three columns: brackets around a cross where it is on and
/// around a blank where it is off, or, as a switch, round ones around a star.
pub proof fn law_toggle_shows_its_state(
    node: NodeView,
    value: bool,
    style: ToggleStyle,
    ctx: DrawCtx,
    clip: CellRect,
    shift: (i32, i32),
)
    requires
        seen(node, clip, shift),
        alone(node),
        node.kind == (KindView::Toggle { value, style }),
    ensures
        prints(
            node.painted(ctx, clip, shift),
            node.frame.x + shift.0,
            node.frame.y + shift.1,
            match (style == ToggleStyle::Switch, value) {
                (true, true) => "(*)"@,
                (true, false) => "( )"@,
                (false, true) => "[x]"@,
                (false, false) => "[ ]"@,
            },
            3,
            clip.x + clip.width,
            control_ink(node, ctx),
        ),
{
    lemma_alone(node, ctx, clip, shift);
}

/// A bordered button has a bracket in its first column and one in its last; a prominent one is
/// filled too, with half blocks at its ends. A link is underlined, and so is a plain button while it
/// has the focus. Brackets are accented and bold while the button has the focus.
pub proof fn law_button_shows_its_chrome(
    node: NodeView,
    action: u32,
    style: ButtonStyle,
    ctx: DrawCtx,
    clip: CellRect,
    shift: (i32, i32),
)
    requires
        seen(node, clip, shift),
        alone(node),
        node.kind == (KindView::Button { action, style }),
    ensures
        ({
            let focused = node.focus is Some && ctx.focused == node.focus;
            let x = node.frame.x + shift.0;
            let y = node.frame.y + shift.1;
            let far = clip.x + clip.width;
            let last = x + node.frame.width - 1;
            let area = CellRect {
                x: x as u16,
                y: y as u16,
                width: node.frame.width,
                height: node.frame.height,
            };
            let ink = if focused {
                CellStyle { fg: Some(ctx.theme.accent), bg: None, modifiers: 1 }
            } else {
                ink_of(ctx.theme.border)
            };
            let line = PaintView::Fill {
                area,
                style: CellStyle { fg: Some(ctx.theme.accent), bg: None, modifiers: 8 },
            };
            let fill = PaintView::Fill {
                area,
                style: CellStyle {
                    fg: Some(ctx.theme.accent_foreground),
                    bg: Some(ctx.theme.accent),
                    modifiers: 0,
                },
            };
            let paints = node.painted(ctx, clip, shift);
            match style {
                ButtonStyle::Automatic | ButtonStyle::Bordered => {
                    &&& paints.len() == 2
                    &&& prints(seq![paints[0]], x, y, "["@, 1, far, ink)
                    &&& prints(seq![paints[1]], last, y, "]"@, 1, far, ink)
                },
                ButtonStyle::BorderedProminent => {
                    &&& paints.len() == 3
                    &&& paints[0] == fill
                    &&& prints(seq![paints[1]], x, y, "▐"@, 1, far, ink)
                    &&& prints(seq![paints[2]], last, y, "▌"@, 1, far, ink)
                },
                ButtonStyle::Link => paints == seq![line],
                ButtonStyle::Plain | ButtonStyle::Borderless => paints == if focused {
                    seq![line]
                } else {
                    seq![]
                },
            }
        }),
{
    lemma_alone(node, ctx, clip, shift);
}

/// A color, and a background, fill all cells of the node and change no symbol and no foreground.
pub proof fn law_colors_fill_their_cells(
    node: NodeView,
    color: CellColor,
    ctx: DrawCtx,
    clip: CellRect,
    shift: (i32, i32),
)
    requires
        seen(node, clip, shift),
        alone(node),
        node.kind == KindView::Fill(color) || node.kind == KindView::Background(color),
    ensures
        node.painted(ctx, clip, shift) == seq![
            PaintView::Fill {
                area: CellRect {
                    x: (node.frame.x + shift.0) as u16,
                    y: (node.frame.y + shift.1) as u16,
                    width: node.frame.width,
                    height: node.frame.height,
                },
                style: CellStyle { fg: None, bg: Some(color), modifiers: 0 },
            },
        ],
{
    lemma_alone(node, ctx, clip, shift);
}

/// A divider in a column of views is a rule across its first row, one in a row of views a rule down
/// its first column.
pub proof fn law_divider_runs_across(
    node: NodeView,
    ctx: DrawCtx,
    clip: CellRect,
    shift: (i32, i32),
)
    requires
        seen(node, clip, shift),
        alone(node),
        node.kind is Divider,
    ensures
        ({
            let x = node.frame.x + shift.0;
            let y = node.frame.y + shift.1;
            let far = clip.x + clip.width;
            let ink = ink_of(ctx.theme.border);
            let paints = node.painted(ctx, clip, shift);
            &&& !node.kind->vertical ==> prints(
                paints,
                x,
                y,
                Seq::new(node.frame.width as nat, |i: int| '─'),
                node.frame.width as int,
                far,
                ink,
            )
            &&& node.kind->vertical ==> {
                &&& paints.len() == node.frame.height
                &&& forall|k: int|
                    0 <= k < paints.len() ==> prints(
                        seq![#[trigger] paints[k]],
                        x,
                        y + k,
                        "│"@,
                        1,
                        far,
                        ink,
                    )
            }
        }),
{
    lemma_alone(node, ctx, clip, shift);
    assert(repeated('─', node.frame.width as nat) =~= Seq::new(
        node.frame.width as nat,
        |i: int| '─',
    ));
}

/// The bar of a navigation view ends with a rule in its second row; a hidden bar has none.
pub proof fn law_navigation_shows_a_rule(
    node: NodeView,
    hidden: bool,
    ctx: DrawCtx,
    clip: CellRect,
    shift: (i32, i32),
)
    requires
        seen(node, clip, shift),
        alone(node),
        node.kind == (KindView::NavBar { hidden }),
    ensures
        hidden || node.frame.height < 2 ==> node.painted(ctx, clip, shift) == Seq::<PaintView>::empty(),
        !hidden && node.frame.height >= 2 ==> prints(
            node.painted(ctx, clip, shift),
            node.frame.x + shift.0,
            node.frame.y + shift.1 + 1,
            Seq::new(node.frame.width as nat, |i: int| '─'),
            node.frame.width as int,
            clip.x + clip.width,
            ink_of(ctx.theme.border),
        ),
{
    lemma_alone(node, ctx, clip, shift);
    assert(repeated('─', node.frame.width as nat) =~= Seq::new(
        node.frame.width as nat,
        |i: int| '─',
    ));
}

/// Gradients and surfaces are handed to the host with their key, where they begin, how large they
/// are and which of their cells are seen; a surface without pixels shows a marker.
pub proof fn law_host_gets_its_keys(
    node: NodeView,
    ctx: DrawCtx,
    clip: CellRect,
    shift: (i32, i32),
)
    requires
        seen(node, clip, shift),
        alone(node),
    ensures
        ({
            let x = node.frame.x + shift.0;
            let y = node.frame.y + shift.1;
            let area = CellRect {
                x: x as u16,
                y: y as u16,
                width: node.frame.width,
                height: node.frame.height,
            };
            let origin = (x as i32, y as i32);
            let size = (node.frame.width, node.frame.height);
            let paints = node.painted(ctx, clip, shift);
            &&& node.kind matches KindView::Gradient(key) ==> paints == seq![
                PaintView::Gradient { key, origin, size, area },
            ]
            &&& node.kind matches KindView::Gpu { key, ready, .. } ==> {
                &&& ready ==> paints == seq![PaintView::Surface { key, origin, size, area }]
                &&& !ready ==> prints(
                    paints,
                    x,
                    y,
                    "[gpu]"@,
                    5,
                    clip.x + clip.width,
                    ink_of(ctx.theme.muted),
                )
            }
            &&& node.kind is Empty || node.kind is Container ==> paints == Seq::<PaintView>::empty()
        }),
{
    if node.kind !is Lazy && node.kind !is Dynamic {
        lemma_alone(node, ctx, clip, shift);
    }
}

// ---- Tracks and bars --------------------------------------------------------------

/// A slider shows its track from end to end, and its thumb on it: in the first column at the low
/// end of the range, in the last one at the high end, and in between at the nearest column to its
/// share of the track.
pub proof fn law_slider_shows_its_value(
    node: NodeView,
    value: i64,
    track: (u16, u16),
    ctx: DrawCtx,
    clip: CellRect,
    shift: (i32, i32),
)
    requires
        seen(node, clip, shift),
        alone(node),
        node.kind == (KindView::Slider { value, track }),
        track.0 < track.1,
        clip.x <= track.0 + shift.0,
        track.1 + shift.0 <= clip.x + clip.width,
    ensures
        ({
            let paints = node.painted(ctx, clip, shift);
            let y = node.frame.y + shift.1;
            let far = clip.x + clip.width;
            let width = track.1 - track.0;
            let share = if value < 0 {
                0
            } else if value > 1_000_000_000 {
                1_000_000_000
            } else {
                value as int
            };
            &&& paints.len() == 2
            &&& prints(
                seq![paints[0]],
                track.0 + shift.0,
                y,
                Seq::new(width as nat, |i: int| '─'),
                width,
                far,
                ink_of(ctx.theme.muted),
            )
            &&& paints[1] matches PaintView::Text { x: thumb, .. }
            &&& prints(seq![paints[1]], thumb as int, y, "●"@, 1, far, control_ink(node, ctx))
            &&& track.0 + shift.0 <= thumb < track.1 + shift.0
            &&& share == 0 ==> thumb == track.0 + shift.0
            &&& share == 1_000_000_000 ==> thumb == track.1 + shift.0 - 1
            &&& {
                let steps = thumb - (track.0 + shift.0);
                2 * (width - 1) * share - 1_000_000_000 < 2_000_000_000 * steps <= 2 * (width - 1)
                    * share + 1_000_000_000
            }
        }),
{
    lemma_alone(node, ctx, clip, shift);
    let width = track.1 - track.0;
    assert(repeated('─', width as nat) =~= Seq::new(width as nat, |i: int| '─'));
    let share = crate::render::slider_share(value);
    lemma_portion(width - 1, share);
}

proof fn lemma_portion(n: int, share: u32)
    requires
        0 <= n,
        share <= 1_000_000_000,
    ensures
        ({
            let p = portion(n, share);
            &&& 0 <= p <= n
            &&& 2 * n * share - 1_000_000_000 < 2_000_000_000 * p <= 2 * n * share + 1_000_000_000
            &&& share == 0 ==> p == 0
            &&& share == 1_000_000_000 ==> p == n
        }),
{
    crate::controls::law_progress_never_shrinks(n, share, share);
    assert(2 * n * share == 2 * (n * share)) by (nonlinear_arith);
}

/// A bar is filled from its left end up to its share, to the nearest column, and empty behind that:
/// full blocks and then shades, which meet without a gap.
pub proof fn law_bar_shows_its_share(
    node: NodeView,
    value: u32,
    bar: (u16, u16),
    ctx: DrawCtx,
    clip: CellRect,
    shift: (i32, i32),
)
    requires
        seen(node, clip, shift),
        alone(node),
        node.kind == (KindView::Progress { value, style: ProgressStyle::Linear, bar }),
        bar.0 < bar.1,
        value <= 1_000_000_000,
        clip.x <= bar.0 + shift.0,
        bar.1 + shift.0 <= clip.x + clip.width,
    ensures
        ({
            let paints = node.painted(ctx, clip, shift);
            let y = node.frame.y + shift.1;
            let x = bar.0 + shift.0;
            let width = bar.1 - bar.0;
            let far = clip.x + clip.width;
            exists|full: int|
                {
                    &&& 0 <= full <= width
                    &&& 2 * width * value - 1_000_000_000 < 2_000_000_000 * full <= 2 * width * value
                        + 1_000_000_000
                    &&& #[trigger] is_bar(paints, x, y, full, width, far, ctx.theme)
                }
        }),
{
    lemma_alone(node, ctx, clip, shift);
    let width = bar.1 - bar.0;
    let full = portion(width, value);
    lemma_portion(width, value);
    let solid = Seq::new(full as nat, |i: int| '█');
    let shade = Seq::new((width - full) as nat, |i: int| '░');
    assert(repeated('█', full as nat) =~= solid);
    assert(repeated('░', (width - full) as nat) =~= shade);
    assert(is_bar(
        node.painted(ctx, clip, shift),
        bar.0 + shift.0,
        node.frame.y + shift.1,
        full,
        width,
        clip.x + clip.width,
        ctx.theme,
    ));
}

/// Whether a list shows a bar of `width` columns of which the first `full` are filled.
pub open spec fn is_bar(
    paints: Seq<PaintView>,
    x: int,
    y: int,
    full: int,
    width: int,
    far: int,
    theme: Theme,
) -> bool {
    let solid = Seq::new(full as nat, |i: int| '█');
    let shade = Seq::new((width - full) as nat, |i: int| '░');
    let filled = if full > 0 {
        1int
    } else {
        0int
    };
    &&& full > 0 ==> paints.len() >= 1 && prints(
        seq![paints[0]],
        x,
        y,
        solid,
        full,
        far,
        ink_of(theme.accent),
    )
    &&& full < width ==> paints.len() == filled + 1 && prints(
        seq![paints.last()],
        x + full,
        y,
        shade,
        width - full,
        far,
        ink_of(theme.muted),
    )
    &&& full == width ==> paints.len() == filled
}

/// A ring shows its share in quarters, to the nearest one; a spinner turns with every tick, through
/// ten positions. Either stands in the first cell.
pub proof fn law_rings_and_spinners_show(
    node: NodeView,
    value: u32,
    style: ProgressStyle,
    bar: (u16, u16),
    ctx: DrawCtx,
    clip: CellRect,
    shift: (i32, i32),
)
    requires
        seen(node, clip, shift),
        alone(node),
        node.kind == (KindView::Progress { value, style, bar }),
    ensures
        style == ProgressStyle::Circular ==> prints(
            node.painted(ctx, clip, shift),
            node.frame.x + shift.0,
            node.frame.y + shift.1,
            if value < 125_000_000 {
                "○"@
            } else if value < 375_000_000 {
                "◔"@
            } else if value < 625_000_000 {
                "◑"@
            } else if value < 875_000_000 {
                "◕"@
            } else {
                "●"@
            },
            1,
            clip.x + clip.width,
            ink_of(ctx.theme.foreground),
        ),
        style == ProgressStyle::Loading ==> prints(
            node.painted(ctx, clip, shift),
            node.frame.x + shift.0,
            node.frame.y + shift.1,
            match ctx.tick % 10 {
                0 => "⠋"@,
                1 => "⠙"@,
                2 => "⠹"@,
                3 => "⠸"@,
                4 => "⠼"@,
                5 => "⠴"@,
                6 => "⠦"@,
                7 => "⠧"@,
                8 => "⠇"@,
                _ => "⠏"@,
            },
            1,
            clip.x + clip.width,
            ink_of(ctx.theme.accent),
        ),
{
    lemma_alone(node, ctx, clip, shift);
}

/// A stepper shows its buttons and its value at its right edge: the value four columns behind the
/// start of the first button, and the other button a column behind the room for the value. The
/// value is shown as it is formatted, or in digits.
pub proof fn law_stepper_shows_its_value(
    node: NodeView,
    value: i32,
    step: i32,
    low: i32,
    high: i32,
    formatter: Option<Seq<char>>,
    ctx: DrawCtx,
    clip: CellRect,
    shift: (i32, i32),
)
    requires
        seen(node, clip, shift),
        alone(node),
        node.kind == (KindView::Stepper { value, step, low, high, formatter }),
        ({
            let text = stepper_text(value, formatter);
            &&& 1 <= stepper_room(display_width(text), low, high)
            &&& stepper_room(display_width(text), low, high) + 8 <= node.frame.width
        }),
    ensures
        ({
            let text = match formatter {
                Some(text) => text,
                None => crate::text::signed_decimal(value as int),
            };
            let room = stepper_room(display_width(text), low, high);
            let right = node.frame.x + shift.0 + node.frame.width;
            let y = node.frame.y + shift.1;
            let far = clip.x + clip.width;
            let paints = node.painted(ctx, clip, shift);
            let ink = control_ink(node, ctx);
            &&& paints.len() == 3
            &&& prints(seq![paints[0]], right - room - 8, y, "[-]"@, 3, far, ink)
            &&& prints(
                seq![paints[1]],
                right - room - 4,
                y,
                text,
                room,
                far,
                ink_of(ctx.theme.foreground),
            )
            &&& prints(seq![paints[2]], right - 3, y, "[+]"@, 3, far, ink)
            &&& room >= display_width(text)
        }),
{
    lemma_alone(node, ctx, clip, shift);
}

/// The room of a stepper's value is enough for the value and for both ends of its range, with a
/// sign where one of them has one, and no more than one of these needs.
pub proof fn law_stepper_room_is_enough(width: usize, low: i32, high: i32)
    ensures
        ({
            let room = stepper_room(width, low, high);
            let sign = if low < 0 || high < 0 {
                1int
            } else {
                0int
            };
            let digits = |v: i32|
                crate::text::decimal((if v < 0 { -(v as int) } else { v as int }) as nat).len() as int;
            &&& room >= width
            &&& room >= digits(low) + sign
            &&& room >= digits(high) + sign
            &&& room == width || room == digits(low) + sign || room == digits(high) + sign
        }),
{
}

// ---- Text -------------------------------------------------------------------------

/// A text shows its lines from the top of its frame on, one in each row, as far as its limit and its
/// frame allow. Each line starts at the left edge, stands in the middle, or ends at the right edge,
/// as the text is aligned; one that is too wide starts at the left edge.
pub proof fn law_text_shows_its_lines(
    node: NodeView,
    content: Seq<SpanView>,
    alignment: Alignment,
    line_limit: Option<usize>,
    ctx: DrawCtx,
    clip: CellRect,
    shift: (i32, i32),
    k: int,
)
    requires
        seen(node, clip, shift),
        alone(node),
        node.kind == (KindView::Text { content, alignment, line_limit }),
        0 <= k,
    ensures
        ({
            let lines = styled_lines(content, ink_of(ctx.theme.foreground));
            let paints = node.painted(ctx, clip, shift);
            let x = node.frame.x + shift.0;
            let width = node.frame.width;
            let shown = |n: int|
                n < lines.len() && n < node.frame.height && (line_limit is Some ==> n < line_limit->0);
            &&& (k < paints.len()) == shown(k)
            &&& k < paints.len() ==> {
                &&& paints[k] matches PaintView::Line { x: at, y: row, right, runs }
                &&& row == node.frame.y + shift.1 + k
                &&& right == x + width
                &&& runs == lines[k]
                &&& {
                    let left = at - x;
                    let rest = x + width - (at + line_width(lines[k]));
                    &&& line_width(lines[k]) >= width || alignment == Alignment::Leading ==> left
                        == 0
                    &&& line_width(lines[k]) < width && alignment == Alignment::Center ==> left
                        <= rest <= left + 1
                    &&& line_width(lines[k]) < width && alignment == Alignment::Trailing ==> rest
                        == 0
                }
            }
        }),
{
    lemma_alone(node, ctx, clip, shift);
}

/// A text that is partly scrolled off keeps its place: in each row that is seen stands the line that
/// belongs there, and of each line the columns that are seen.
pub proof fn law_text_slides_under_its_clip(
    node: NodeView,
    content: Seq<SpanView>,
    alignment: Alignment,
    line_limit: Option<usize>,
    ctx: DrawCtx,
    clip: CellRect,
    shift: (i32, i32),
    k: int,
)
    requires
        clip.wf(),
        alone(node),
        node.kind == (KindView::Text { content, alignment, line_limit }),
        -100_000 <= shift.0 <= 100_000,
        -100_000 <= shift.1 <= 100_000,
        0 <= k < node.painted(ctx, clip, shift).len(),
    ensures
        ({
            let lines = styled_lines(content, ink_of(ctx.theme.foreground));
            let paints = node.painted(ctx, clip, shift);
            let top = node.frame.y + shift.1;
            let index = if top < clip.y {
                clip.y - top + k
            } else {
                k
            };
            let start = node.frame.x + shift.0 + indent(
                alignment,
                line_width(lines[index]),
                node.frame.width,
            );
            &&& 0 <= index < lines.len()
            &&& paints[k] matches PaintView::Line { x, y, right, runs }
            &&& y == top + index
            &&& clip.y <= y < clip.y + clip.height
            &&& right <= clip.x + clip.width
            &&& start >= clip.x ==> runs == lines[index] && (start <= u16::MAX ==> x == start)
            &&& start < clip.x ==> {
                let (rest, gap) = runs_behind(lines[index], clip.x - start);
                &&& runs == rest
                &&& 0 <= clip.x + gap <= u16::MAX ==> x == clip.x + gap
            }
        }),
{
    let inner = all_painted(
        node.children,
        node.drawn_children(),
        ctx,
        node.inner_clip(clip, shift),
        node.inner_shift(shift),
    );
    assert(inner =~= seq![]);
    assert(node.chrome(ctx, clip, shift) + inner =~= node.chrome(ctx, clip, shift));
}

// ---- Fields -----------------------------------------------------------------------

/// The column behind a label, a colon and a blank that are printed from column `x` on.
pub open spec fn behind_label(
    cells: Seq<CellView>,
    area: CellRect,
    x: u16,
    y: u16,
    far: int,
    label: Seq<char>,
    ink: CellStyle,
) -> (Seq<CellView>, u16) {
    let room = |from: u16, wanted: usize|
        (if far <= from {
            0
        } else if wanted < far - from {
            wanted as int
        } else {
            far - from
        }) as usize;
    if display_width(label) == 0 {
        (cells, x)
    } else {
        let (next, end) = print(cells, area, x, y, label, room(x, display_width(label)), ink);
        print(next, area, end, y, ": "@, room(end, 2), ink)
    }
}

/// The cursor of a field that has the focus stands where the next character goes: as many columns
/// behind the label and its colon as the characters before the cursor take. What lies behind the
/// cursor has no part in it. A field without the focus shows no cursor.
pub proof fn law_cursor_stands_where_typing_goes(
    node: NodeView,
    state: FieldView,
    ctx: DrawCtx,
    clip: CellRect,
    shift: (i32, i32),
    cells: Seq<CellView>,
    area: CellRect,
    before: Option<(u16, u16)>,
)
    requires
        seen(node, clip, shift),
        alone(node),
        node.kind == KindView::Field(state),
        state.cursor <= state.value.len(),
        state.value.len() > 0,
    ensures
        ({
            let focused = node.focus is Some && ctx.focused == node.focus;
            let x = (node.frame.x + shift.0) as u16;
            let y = (node.frame.y + shift.1) as u16;
            let start = behind_label(
                cells,
                area,
                x,
                y,
                clip.x + clip.width,
                state.label,
                ink_of(ctx.theme.muted),
            ).1;
            let width = display_width(state.value.take(state.cursor as int));
            let cursor = applied_all(node.painted(ctx, clip, shift), cells, area, before).1;
            &&& !focused ==> cursor == before
            &&& focused && start + width <= u16::MAX ==> cursor == Some(((start + width) as u16, y))
        }),
{
    lemma_alone(node, ctx, clip, shift);
    lemma_applied_one(node.painted(ctx, clip, shift), cells, area, before);
    assert(state.cursor == state.value.len() ==> state.value.take(state.cursor as int)
        =~= state.value);
}

proof fn lemma_applied_one(
    paints: Seq<PaintView>,
    cells: Seq<CellView>,
    area: CellRect,
    before: Option<(u16, u16)>,
)
    requires
        paints.len() == 1,
    ensures
        applied_all(paints, cells, area, before) == applied(paints[0], cells, area, before),
{
    assert(paints.drop_last() =~= seq![]);
    assert(applied_all(paints.drop_last(), cells, area, before) == (cells, before));
}

/// Two fields that differ in nothing but where the cursor is show it as many columns apart as the
/// characters between take: the cursor moves over the value and not over the label.
pub proof fn law_cursor_moves_over_the_value(
    node: NodeView,
    state: FieldView,
    other: FieldView,
    ctx: DrawCtx,
    clip: CellRect,
    shift: (i32, i32),
    cells: Seq<CellView>,
    area: CellRect,
)
    requires
        seen(node, clip, shift),
        alone(node),
        node.kind == KindView::Field(state),
        node.focus is Some,
        ctx.focused == node.focus,
        0 < state.value.len(),
        state.cursor <= state.value.len(),
        0 < other.value.len(),
        other.cursor <= other.value.len(),
        other.label == state.label,
        display_width(state.value.take(state.cursor as int)) <= 60000,
        display_width(other.value.take(other.cursor as int)) <= 60000,
    ensures
        ({
            let twin = NodeView { kind: KindView::Field(other), ..node };
            let here = applied_all(node.painted(ctx, clip, shift), cells, area, None).1;
            let there = applied_all(twin.painted(ctx, clip, shift), cells, area, None).1;
            &&& here is Some && there is Some
            &&& {
                let (x1, y1) = here->0;
                let (x2, y2) = there->0;
                &&& y1 == y2
                &&& x1 < u16::MAX && x2 < u16::MAX ==> x1 - display_width(
                    state.value.take(state.cursor as int),
                ) == x2 - display_width(other.value.take(other.cursor as int))
            }
        }),
{
    let twin = NodeView { kind: KindView::Field(other), ..node };
    lemma_alone(node, ctx, clip, shift);
    lemma_alone(twin, ctx, clip, shift);
    lemma_applied_one(node.painted(ctx, clip, shift), cells, area, None);
    lemma_applied_one(twin.painted(ctx, clip, shift), cells, area, None);
    assert(state.cursor == state.value.len() ==> state.value.take(state.cursor as int)
        =~= state.value);
    assert(other.cursor == other.value.len() ==> other.value.take(other.cursor as int)
        =~= other.value);
}

/// A field shows its label and a colon, muted, and behind them its value, up to its right edge; or
/// its prompt, muted and italic, while the value is empty. The value is underlined while the field
/// has the focus.
pub proof fn law_field_shows_its_value(
    node: NodeView,
    state: FieldView,
    ctx: DrawCtx,
    clip: CellRect,
    shift: (i32, i32),
    cells: Seq<CellView>,
    area: CellRect,
)
    requires
        seen(node, clip, shift),
        alone(node),
        node.kind == KindView::Field(state),
    ensures
        ({
            let focused = node.focus is Some && ctx.focused == node.focus;
            let x = (node.frame.x + shift.0) as u16;
            let y = (node.frame.y + shift.1) as u16;
            let right = node.frame.x + shift.0 + node.frame.width;
            let (labelled, start) = behind_label(
                cells,
                area,
                x,
                y,
                clip.x + clip.width,
                state.label,
                ink_of(ctx.theme.muted),
            );
            let room = (if right > start {
                right - start
            } else {
                0
            }) as usize;
            let (text, ink) = if state.value.len() == 0 {
                (
                    state.prompt,
                    CellStyle { fg: Some(ctx.theme.muted), bg: None, modifiers: 4 },
                )
            } else {
                (
                    state.value,
                    CellStyle {
                        fg: Some(ctx.theme.foreground),
                        bg: None,
                        modifiers: if focused {
                            8u16
                        } else {
                            0u16
                        },
                    },
                )
            };
            applied_all(node.painted(ctx, clip, shift), cells, area, None).0 == print(
                labelled,
                area,
                start,
                y,
                text,
                room,
                ink,
            ).0
        }),
{
    lemma_alone(node, ctx, clip, shift);
    lemma_applied_one(node.painted(ctx, clip, shift), cells, area, None);
    assert(0u16 | 4u16 == 4u16) by (bit_vector);
    assert(0u16 | 8u16 == 8u16) by (bit_vector);
}

/// A masked field shows one dot for each character of its secret and nothing of the characters, and
/// its cursor stands behind the dots before it.
pub proof fn law_masked_field_shows_dots(
    node: NodeView,
    state: SecureView,
    ctx: DrawCtx,
    clip: CellRect,
    shift: (i32, i32),
    cells: Seq<CellView>,
    area: CellRect,
)
    requires
        seen(node, clip, shift),
        alone(node),
        node.kind == KindView::Secure(state),
        state.cursor <= state.value.len(),
        state.value.len() <= usize::MAX,
    ensures
        ({
            let focused = node.focus is Some && ctx.focused == node.focus;
            let x = (node.frame.x + shift.0) as u16;
            let y = (node.frame.y + shift.1) as u16;
            let right = node.frame.x + shift.0 + node.frame.width;
            let (labelled, start) = behind_label(
                cells,
                area,
                x,
                y,
                clip.x + clip.width,
                state.label,
                ink_of(ctx.theme.muted),
            );
            let room = (if right > start {
                right - start
            } else {
                0
            }) as usize;
            let ink = CellStyle {
                fg: Some(ctx.theme.foreground),
                bg: None,
                modifiers: if focused {
                    8u16
                } else {
                    0u16
                },
            };
            let (after, cursor) = applied_all(node.painted(ctx, clip, shift), cells, area, None);
            &&& after == print(
                labelled,
                area,
                start,
                y,
                Seq::new(state.value.len(), |i: int| '•'),
                room,
                ink,
            ).0
            &&& !focused ==> cursor is None
            &&& focused && start + state.cursor <= u16::MAX ==> cursor == Some(
                ((start + state.cursor) as u16, y),
            )
        }),
{
    lemma_alone(node, ctx, clip, shift);
    lemma_applied_one(node.painted(ctx, clip, shift), cells, area, None);
    assert(0u16 | 8u16 == 8u16) by (bit_vector);
    assert(repeated('•', state.value.len()) =~= Seq::new(state.value.len(), |i: int| '•'));
}

/// A field that is scrolled off to the left keeps its place: the cursor stands in the column that it
/// would stand in, what lies left of the clip is not shown, and the text behind that is.
pub proof fn law_field_slides_under_its_clip(
    node: NodeView,
    state: FieldView,
    ctx: DrawCtx,
    clip: CellRect,
    shift: (i32, i32),
)
    requires
        clip.wf(),
        alone(node),
        node.kind == KindView::Field(state),
        -100_000 <= shift.0 <= 100_000,
        -100_000 <= shift.1 <= 100_000,
        node.frame.x + shift.0 < clip.x,
        node.painted(ctx, clip, shift).len() > 0,
        state.value.len() > 0,
        state.cursor <= state.value.len(),
        display_width(state.label) <= 100_000,
        display_width(state.value.take(state.cursor as int)) <= 100_000,
    ensures
        ({
            let focused = node.focus is Some && ctx.focused == node.focus;
            let left = node.frame.x + shift.0;
            let lead = if display_width(state.label) > 0 {
                display_width(state.label) + 2
            } else {
                0
            };
            let at = display_width(state.value.take(state.cursor as int));
            let paints = node.painted(ctx, clip, shift);
            let end = left + node.frame.width;
            &&& paints.len() == 1
            &&& paints[0] matches PaintView::Field {
                x,
                y,
                edge,
                right,
                label,
                label_width,
                colon,
                muted,
                text,
                style,
                cursor,
            }
            &&& y == node.frame.y + shift.1
            &&& x >= clip.x
            &&& !colon
            &&& edge == clip.x + clip.width
            &&& right == if end < clip.x + clip.width {
                end
            } else {
                clip.x + clip.width
            }
            &&& muted == ink_of(ctx.theme.muted)
            &&& style == (CellStyle {
                fg: Some(ctx.theme.foreground),
                bg: None,
                modifiers: if focused {
                    8
                } else {
                    0
                },
            })
            &&& x < left + lead ==> x + label_width == left + lead
            &&& x >= left + lead ==> label_width == 0
            &&& clip.x - left < lead ==> {
                &&& label == behind(state.label + ": "@, clip.x - left).0
                &&& x == clip.x + behind(state.label + ": "@, clip.x - left).1
                &&& text == state.value
                &&& cursor == if focused {
                    Some(at as i32)
                } else {
                    None
                }
            }
            &&& clip.x - left >= lead ==> {
                let cut = clip.x - left - lead;
                &&& label.len() == 0
                &&& text == behind(state.value, cut).0
                &&& x == clip.x + behind(state.value, cut).1
                &&& !focused || at < cut ==> cursor is None
                &&& focused && at >= cut ==> cursor is Some && x + cursor->0 == left + lead + at
            }
        }),
{
    let inner = all_painted(
        node.children,
        node.drawn_children(),
        ctx,
        node.inner_clip(clip, shift),
        node.inner_shift(shift),
    );
    assert(inner =~= seq![]);
    assert(node.chrome(ctx, clip, shift) + inner =~= node.chrome(ctx, clip, shift));
    assert(state.cursor == state.value.len() ==> state.value.take(state.cursor as int)
        =~= state.value);
    assert(0u16 | 8u16 == 8u16) by (bit_vector);
}

// ---- Viewports and tabs -----------------------------------------------------------

/// A viewport whose content is taller than it is shows a scroll bar in its last column: a thumb as
/// long a part of it as the viewport is of the content, at the top where the offset is zero, at the
/// bottom where it is as large as it gets, and never outside.
pub proof fn law_scroll_bar_shows_the_position(
    node: NodeView,
    state: ScrollState,
    ctx: DrawCtx,
    clip: CellRect,
    shift: (i32, i32),
    k: int,
)
    requires
        seen(node, clip, shift),
        alone(node),
        node.kind == KindView::Scroll(state),
        0 <= state.offset.1,
        state.offset.1 == 0 || state.offset.1 + node.frame.height <= state.extent.1,
    ensures
        ({
            let paints = node.painted(ctx, clip, shift);
            let h = node.frame.height as int;
            let all = state.extent.1 as int;
            let x = node.frame.x + shift.0 + node.frame.width - 1;
            let y = node.frame.y + shift.1;
            &&& all <= h ==> paints == Seq::<PaintView>::empty()
            &&& all > h ==> exists|first: int, size: int|
                {
                    &&& #[trigger] is_scroll_bar(paints, x, y, h, first, size, ctx.theme)
                    &&& 1 <= size <= h
                    &&& size == 1 || size * all <= h * h
                    &&& h * h < (size + 1) * all
                    &&& 0 <= first <= h - size
                    &&& state.offset.1 == 0 ==> first == 0
                    &&& state.offset.1 == all - h ==> first == h - size
                    &&& first * (all - h) <= state.offset.1 * (h - size) < (first + 1) * (all - h)
                }
        }),
{
    lemma_alone(node, ctx, clip, shift);
    let h = node.frame.height as int;
    let all = state.extent.1 as int;
    if all > h {
        let area = node.visible_area(clip, shift);
        let (top, size) = crate::controls::scroll_thumb(
            state.offset.1,
            state.extent.1,
            node.frame.height,
            area,
        );
        let first = top - area.y;
        let share = h * h / all;
        let above = state.offset.1 as int;
        vstd::arithmetic::div_mod::lemma_fundamental_div_mod(h * h, all);
        vstd::arithmetic::div_mod::lemma_mod_bound(h * h, all);
        assert(0 <= share < h || share == 0) by (nonlinear_arith)
            requires
                h * h == all * share + (h * h) % all,
                0 <= (h * h) % all < all,
                0 < h < all,
        ;
        assert(all * share == share * all) by (nonlinear_arith);
        assert((share + 1) * all == share * all + all) by (nonlinear_arith);
        assert(size == 1 || size == share);
        assert(h * h < (size + 1) * all) by (nonlinear_arith)
            requires
                h * h < (share + 1) * all,
                share <= size,
                all > 0,
        ;
        let room = h - size;
        let span = all - h;
        assert(0 <= above * room) by (nonlinear_arith)
            requires
                0 <= above,
                0 <= room,
        ;
        vstd::arithmetic::div_mod::lemma_fundamental_div_mod(above * room, span);
        vstd::arithmetic::div_mod::lemma_mod_bound(above * room, span);
        assert(first == above * room / span);
        assert(span * first == first * span) by (nonlinear_arith);
        assert((first + 1) * span == first * span + span) by (nonlinear_arith);
        assert(0 <= first <= room && (above == 0 ==> first == 0) && (above == span ==> first == room))
            by (nonlinear_arith)
            requires
                first * span <= above * room < (first + 1) * span,
                0 <= above <= span,
                0 <= room,
                0 < span,
        ;
        let paints = node.painted(ctx, clip, shift);
        assert(is_scroll_bar(
            paints,
            node.frame.x + shift.0 + node.frame.width - 1,
            node.frame.y + shift.1,
            h,
            first,
            size,
            ctx.theme,
        ));
    }
}

/// A scroll bar of which a part is cut off runs over the rows that are left, from end to end.
pub proof fn law_scroll_bar_runs_over_what_is_seen(
    node: NodeView,
    state: ScrollState,
    ctx: DrawCtx,
    clip: CellRect,
    shift: (i32, i32),
)
    requires
        clip.wf(),
        alone(node),
        node.kind == KindView::Scroll(state),
        node.visible_area(clip, shift).width > 0,
        node.visible_area(clip, shift).height > 0,
        0 <= state.offset.1,
        state.offset.1 + node.frame.height <= state.extent.1,
        node.frame.height < state.extent.1,
    ensures
        ({
            let area = node.visible_area(clip, shift);
            let rows = area.height as int;
            exists|first: int, size: int|
                {
                    &&& #[trigger] is_scroll_bar(
                        node.painted(ctx, clip, shift),
                        area.x + area.width - 1,
                        area.y as int,
                        rows,
                        first,
                        size,
                        ctx.theme,
                    )
                    &&& 1 <= size <= rows
                    &&& 0 <= first <= rows - size
                    &&& state.offset.1 == 0 ==> first == 0
                    &&& state.offset.1 == state.extent.1 - node.frame.height ==> first == rows - size
                }
        }),
{
    let inner = all_painted(
        node.children,
        node.drawn_children(),
        ctx,
        node.inner_clip(clip, shift),
        node.inner_shift(shift),
    );
    assert(inner =~= seq![]);
    assert(node.chrome(ctx, clip, shift) + inner =~= node.chrome(ctx, clip, shift));
    let area = node.visible_area(clip, shift);
    let rows = area.height as int;
    let all = state.extent.1 as int;
    let (top, size) = crate::controls::scroll_thumb(
        state.offset.1,
        state.extent.1,
        node.frame.height,
        area,
    );
    let first = top - area.y;
    let share = rows * rows / all;
    let above = state.offset.1 as int;
    let span = all - node.frame.height;
    let room = rows - size;
    assert(rows <= node.frame.height);
    vstd::arithmetic::div_mod::lemma_fundamental_div_mod(rows * rows, all);
    vstd::arithmetic::div_mod::lemma_mod_bound(rows * rows, all);
    assert(0 <= share < rows || share == 0) by (nonlinear_arith)
        requires
            rows * rows == all * share + (rows * rows) % all,
            0 <= (rows * rows) % all < all,
            0 < rows < all,
    ;
    assert(0 <= above * room) by (nonlinear_arith)
        requires
            0 <= above,
            0 <= room,
    ;
    vstd::arithmetic::div_mod::lemma_fundamental_div_mod(above * room, span);
    vstd::arithmetic::div_mod::lemma_mod_bound(above * room, span);
    assert(first == above * room / span);
    assert(0 <= first <= room && (above == 0 ==> first == 0) && (above == span ==> first == room))
        by (nonlinear_arith)
        requires
            above * room == span * first + (above * room) % span,
            0 <= (above * room) % span < span,
            0 <= above <= span,
            0 <= room,
            0 < span,
    ;
    assert(is_scroll_bar(
        node.painted(ctx, clip, shift),
        area.x + area.width - 1,
        area.y as int,
        rows,
        first,
        size,
        ctx.theme,
    ));
}

/// Whether a list shows a scroll bar of `height` rows, with a thumb of `size` rows from row `first`
/// on.
pub open spec fn is_scroll_bar(
    paints: Seq<PaintView>,
    x: int,
    y: int,
    height: int,
    first: int,
    size: int,
    theme: Theme,
) -> bool {
    &&& paints.len() == height
    &&& forall|k: int|
        0 <= k < height ==> if first <= k < first + size {
            (#[trigger] paints[k]) == (PaintView::Text {
                x: x as u16,
                y: (y + k) as u16,
                text: "┃"@,
                max: 1,
                style: ink_of(theme.muted),
            })
        } else {
            paints[k] == (PaintView::Text {
                x: x as u16,
                y: (y + k) as u16,
                text: "│"@,
                max: 1,
                style: ink_of(theme.border),
            })
        }
}

/// A viewport draws its content over its own cells only, moved back by its offset.
pub proof fn law_viewport_draws_its_content_moved(
    node: NodeView,
    state: ScrollState,
    ctx: DrawCtx,
    clip: CellRect,
    shift: (i32, i32),
)
    requires
        seen(node, clip, shift),
        node.kind == KindView::Scroll(state),
        state.requested is None,
        -100_000 <= state.offset.0 <= 100_000,
        -100_000 <= state.offset.1 <= 100_000,
        -100_000 <= shift.0 <= 100_000,
        -100_000 <= shift.1 <= 100_000,
    ensures
        ({
            let window = CellRect {
                x: (node.frame.x + shift.0) as u16,
                y: (node.frame.y + shift.1) as u16,
                width: node.frame.width,
                height: node.frame.height,
            };
            let moved = (
                (shift.0 - state.offset.0) as i32,
                (shift.1 - state.offset.1) as i32,
            );
            let bar = (NodeView { children: seq![], ..node }).painted(ctx, clip, shift);
            node.painted(ctx, clip, shift) == bar + all_painted(
                node.children,
                Drawn::All,
                ctx,
                window,
                moved,
            )
        }),
{
    let bare = NodeView { children: Seq::empty(), ..node };
    lemma_alone(bare, ctx, clip, shift);
    assert(bare.chrome(ctx, clip, shift) == node.chrome(ctx, clip, shift));
}

/// Children are drawn one after the other, so that later ones lie above earlier ones, and a
/// container adds nothing.
pub proof fn law_later_children_lie_above(
    first: Seq<NodeView>,
    last: NodeView,
    ctx: DrawCtx,
    clip: CellRect,
    shift: (i32, i32),
    node: NodeView,
)
    requires
        node.kind is Container,
        node.children == first.push(last),
    ensures
        node.painted(ctx, clip, shift) == (NodeView { children: first, ..node }).painted(
            ctx,
            clip,
            shift,
        ) + last.painted(ctx, clip, shift),
        (NodeView { children: seq![], ..node }).painted(ctx, clip, shift) == Seq::<PaintView>::empty(),
{
    assert(first.push(last).drop_last() =~= first);
    let short = NodeView { children: first, ..node };
    let none = NodeView { children: Seq::empty(), ..node };
    let rest = all_painted(first, Drawn::All, ctx, clip, shift);
    let all = all_painted(first.push(last), Drawn::All, ctx, clip, shift);
    assert(all =~= rest + last.painted(ctx, clip, shift));
    assert(short.painted(ctx, clip, shift) =~= rest);
    assert(node.painted(ctx, clip, shift) =~= all);
    assert(all_painted(none.children, Drawn::All, ctx, clip, shift) =~= seq![]);
    assert(none.painted(ctx, clip, shift) =~= seq![]);
}

/// What a slot holds is drawn as it stands.
pub proof fn law_slot_draws_its_content(
    node: NodeView,
    slot: NodeView,
    ctx: DrawCtx,
    clip: CellRect,
    shift: (i32, i32),
)
    requires
        seen(node, clip, shift),
        node.kind == KindView::Dynamic(Box::new(slot)),
    ensures
        node.painted(ctx, clip, shift) == slot.painted(ctx, clip, shift),
{
    assert(Seq::<PaintView>::empty() + slot.painted(ctx, clip, shift) =~= slot.painted(
        ctx,
        clip,
        shift,
    ));
}

/// Of the children of a tab bar the labels are drawn and the content of the selected tab, and no
/// other content.
pub proof fn law_only_the_selected_content_is_drawn(
    node: NodeView,
    tabs: Seq<TabEntry>,
    selection: u32,
    i: int,
)
    requires
        node.kind == (KindView::Tabs { selection, tabs }),
        tabs.len() <= 0xffff_ffff,
        0 <= i,
    ensures
        node.drawn_children().keeps(i) == (i < tabs.len() || i == tabs.len() + selected_tab(
            tabs,
            selection,
        )),
{
    crate::laws::events::law_selected_tab_has_the_id(tabs, selection);
}

/// The label of the selected tab is accented, bold and underlined, that of a tab that cannot be
/// selected muted, and any other plain; a badge stands behind the label, after a blank.
pub proof fn law_tab_bar_marks_its_tabs(
    entry: TabEntry,
    selected: bool,
    label: CellRect,
    area: CellRect,
    clip: CellRect,
    theme: Theme,
)
    requires
        clip.wf(),
        label.width > 0,
        label.height > 0,
        clip.x <= label.x,
        clip.y <= label.y,
        label.x + label.width <= clip.x + clip.width,
        label.y + label.height <= clip.y + clip.height,
    ensures
        ({
            let paints = crate::controls::tab_chrome(
                entry,
                selected,
                label,
                area,
                clip,
                (0, 0),
                theme,
            );
            let accent = PaintView::Fill {
                area: label,
                style: CellStyle { fg: Some(theme.accent), bg: None, modifiers: 9 },
            };
            let muted = PaintView::Fill { area: label, style: ink_of(theme.muted) };
            let marked = selected || !entry.enabled;
            &&& selected ==> paints.len() >= 1 && paints[0] == accent
            &&& !selected && !entry.enabled ==> paints.len() >= 1 && paints[0] == muted
            &&& entry.badge is None ==> paints.len() == if marked {
                1int
            } else {
                0int
            }
            &&& entry.badge is Some && label.x + label.width < area.x + area.width && area.x
                + area.width <= clip.x + clip.width ==> {
                &&& paints.len() == if marked {
                    2int
                } else {
                    1int
                }
                &&& prints(
                    seq![paints.last()],
                    label.x + label.width,
                    label.y as int,
                    seq![' '] + crate::text::signed_decimal(entry.badge->0 as int),
                    area.x + area.width - (label.x + label.width),
                    clip.x + clip.width,
                    ink_of(theme.muted),
                )
            }
        }),
{
    assert(0u16 | (1u16 | 8u16) == 9u16) by (bit_vector);
}

// ---- Display lists ----------------------------------------------------------------

/// Printing starts in the cell that an entry names, takes at most its columns, and is left out where
/// the cell lies outside of the area.
pub proof fn law_entries_print_where_they_say(
    x: u16,
    y: u16,
    text: Seq<char>,
    max: usize,
    style: CellStyle,
    cells: Seq<CellView>,
    area: CellRect,
    cursor: Option<(u16, u16)>,
)
    ensures
        area.x <= x && area.y <= y < area.y + area.height ==> applied(
            PaintView::Text { x, y, text, max, style },
            cells,
            area,
            cursor,
        ) == (stringn(cells, area, x, y, text, max, style).0, cursor),
        !(area.x <= x && area.y <= y < area.y + area.height) ==> applied(
            PaintView::Text { x, y, text, max, style },
            cells,
            area,
            cursor,
        ) == (cells, cursor),
{
}

/// A fill changes the cells of its rectangle and no others: it replaces the colors that it names,
/// adds its modifiers, and leaves the symbols.
pub proof fn law_fills_change_their_cells(
    rect: CellRect,
    style: CellStyle,
    cells: Seq<CellView>,
    area: CellRect,
    cursor: Option<(u16, u16)>,
    i: int,
)
    requires
        rect.wf(),
        0 <= i < cells.len(),
    ensures
        ({
            let (after, at) = applied(PaintView::Fill { area: rect, style }, cells, area, cursor);
            let inside = rect.covers(
                area.x + i % (area.width as int),
                area.y + i / (area.width as int),
            );
            &&& at == cursor
            &&& after.len() == cells.len()
            &&& after[i].symbol == cells[i].symbol
            &&& after[i].diff == cells[i].diff
            &&& !inside ==> after[i] == cells[i]
            &&& inside ==> {
                &&& style.fg is Some ==> Some(after[i].fg) == style.fg
                &&& style.fg is None ==> after[i].fg == cells[i].fg
                &&& style.bg is Some ==> Some(after[i].bg) == style.bg
                &&& style.bg is None ==> after[i].bg == cells[i].bg
                &&& after[i].modifiers == cells[i].modifiers | style.modifiers
            }
        }),
{
}

/// A list is applied entry by entry, from the first one to the last.
pub proof fn law_lists_are_applied_in_order(
    first: PaintView,
    second: PaintView,
    rest: Seq<PaintView>,
    cells: Seq<CellView>,
    area: CellRect,
    cursor: Option<(u16, u16)>,
)
    ensures
        ({
            let (once, at) = applied(first, cells, area, cursor);
            let (twice, then) = applied(second, once, area, at);
            applied_all(seq![first, second] + rest, cells, area, cursor) == applied_all(
                rest,
                twice,
                area,
                then,
            )
        }),
    decreases rest.len(),
{
    let list = seq![first, second] + rest;
    if rest.len() == 0 {
        assert(list.drop_last() =~= seq![first]);
        assert(list.last() == second);
        assert(seq![first].drop_last() =~= seq![]);
        assert(applied_all(seq![first].drop_last(), cells, area, cursor) == (cells, cursor));
        assert(applied_all(seq![first], cells, area, cursor) == applied(first, cells, area, cursor));
    } else {
        law_lists_are_applied_in_order(first, second, rest.drop_last(), cells, area, cursor);
        assert(list.drop_last() =~= seq![first, second] + rest.drop_last());
        assert(list.last() == rest.last());
    }
}

/// The runs of a line are printed one behind the other, each from where the one before it ended, as
/// far as there are columns left.
pub proof fn law_runs_are_printed_one_behind_the_other(
    x: u16,
    y: u16,
    right: u16,
    first: RunView,
    rest: Seq<RunView>,
    cells: Seq<CellView>,
    area: CellRect,
    cursor: Option<(u16, u16)>,
)
    ensures
        ({
            let runs = seq![first] + rest;
            let line = PaintView::Line { x, y, right, runs };
            let (next, end) = print(
                cells,
                area,
                x,
                y,
                first.text,
                (right - x) as usize,
                first.style,
            );
            &&& x < right ==> applied(line, cells, area, cursor) == applied(
                PaintView::Line { x: end, y, right, runs: rest },
                next,
                area,
                cursor,
            )
            &&& x >= right ==> applied(line, cells, area, cursor) == (cells, cursor)
        }),
        applied(PaintView::Line { x, y, right, runs: seq![] }, cells, area, cursor) == (cells, cursor),
{
    let runs = seq![first] + rest;
    assert(runs.drop_first() =~= rest);
    assert(runs[0] == first);
    assert(print_runs(cells, area, x, y, right, runs).len() >= 0);
    assert(print_runs(cells, area, x, y, right, seq![]).len() >= 0);
}

} // verus!
