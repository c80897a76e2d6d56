//! What of a tree is visible: nothing is drawn outside of the clip, and what the mouse hits is
//! shown under it.

use vstd::prelude::*;

use crate::controls::{
    bar, bracket_style, brackets, button_chrome, divider, field_style, head, indent, labelled,
    line_paint, paragraph, portion, progress, ring_glyph, rule, scrollbar, slider, spinner_glyph,
    stepper, stepper_room, stepper_start, stepper_text, tab_chrome, thumb_column, toggle_glyph,
    track_width, Alignment, ButtonStyle, Place, ProgressStyle, TabEntry,
};
use crate::geometry::{coordinate, shown, CellRect};
use crate::input::{frames, selected_tab};
use crate::node::{topmost_hit, KindView, NodeView};
use crate::paint::{all_miss, col_of, cut_glyphs, row_of, PaintView};
use crate::render::{all_painted, shorter, slider_share, tab_bar, DrawCtx, Drawn};
use crate::style::{CellColor, CellStyle, Theme};
use crate::text::{display_width, line_width, repeated, runs_behind, RunView, SpanView};

verus! {

impl PaintView {
    /// Whether everything that the entry may draw lies in `clip`.
    pub open spec fn within(self, clip: CellRect) -> bool {
        forall|col: int, row: int| #[trigger] self.reaches(col, row) ==> clip.covers(col, row)
    }
}

/// Whether everything that a list may draw lies in `clip`.
pub open spec fn all_within(paints: Seq<PaintView>, clip: CellRect) -> bool {
    forall|k: int| 0 <= k < paints.len() ==> (#[trigger] paints[k]).within(clip)
}

proof fn lemma_both_within(a: Seq<PaintView>, b: Seq<PaintView>, clip: CellRect)
    requires
        all_within(a, clip),
        all_within(b, clip),
    ensures
        all_within(a + b, clip),
{
    let both = a + b;
    assert forall|k: int| 0 <= k < both.len() implies (#[trigger] both[k]).within(clip) by {
        if k < a.len() {
            assert(both[k] == a[k]);
        } else {
            assert(both[k] == b[k - a.len()]);
        }
    }
}

/// Whether a rectangle that is not empty lies inside another one.
pub open spec fn edges_in(inner: CellRect, outer: CellRect) -> bool {
    &&& inner.width > 0
    &&& inner.height > 0
    &&& outer.x <= inner.x
    &&& outer.y <= inner.y
    &&& inner.x + inner.width <= outer.x + outer.width
    &&& inner.y + inner.height <= outer.y + outer.height
}

proof fn lemma_place_edges(place: Place)
    requires
        place.wf(),
    ensures
        place.area.wf(),
        edges_in(place.area, place.clip),
{
}

proof fn lemma_glyphs_within(x: int, y: int, text: Seq<char>, max: int, style: CellStyle, clip: CellRect)
    requires
        clip.wf(),
    ensures
        all_within(cut_glyphs(x, y, text, max, style, clip), clip),
{
}

proof fn lemma_bar_within(from: int, to: int, glyph: char, color: CellColor, y: int, clip: CellRect)
    requires
        clip.wf(),
    ensures
        all_within(bar(from, to, glyph, color, y, clip), clip),
{
}

proof fn lemma_slider_within(
    track: (u16, u16),
    value: u32,
    focused: bool,
    y: i32,
    clip: CellRect,
    shift: i32,
    theme: Theme,
)
    requires
        clip.wf(),
    ensures
        all_within(slider(track, value, focused, y, clip, shift, theme), clip),
{
    let thumb = thumb_column(track, value) + shift;
    let style = theme.control_style(focused);
    lemma_bar_within(track.0 + shift, track.1 + shift, '─', theme.muted, y as int, clip);
    lemma_glyphs_within(thumb, y as int, "●"@, 1, style, clip);
    lemma_both_within(
        bar(track.0 + shift, track.1 + shift, '─', theme.muted, y as int, clip),
        cut_glyphs(thumb, y as int, "●"@, 1, style, clip),
        clip,
    );
}

proof fn lemma_progress_within(
    style: ProgressStyle,
    value: u32,
    track: (u16, u16),
    place: Place,
    shift: i32,
    tick: u64,
    theme: Theme,
)
    requires
        place.wf(),
    ensures
        all_within(progress(style, value, track, place, shift, tick, theme), place.clip),
{
    let clip = place.clip;
    let x = place.origin.0 as int;
    let y = place.origin.1 as int;
    match style {
        ProgressStyle::Linear => {
            let full = track.0 + portion(track_width(track), value);
            lemma_bar_within(track.0 + shift, full + shift, '█', theme.accent, y, clip);
            lemma_bar_within(full + shift, track.1 + shift, '░', theme.muted, y, clip);
            lemma_both_within(
                bar(track.0 + shift, full + shift, '█', theme.accent, y, clip),
                bar(full + shift, track.1 + shift, '░', theme.muted, y, clip),
                clip,
            );
        },
        ProgressStyle::Circular => {
            lemma_glyphs_within(
                x,
                y,
                ring_glyph(value),
                1,
                theme.text_style(),
                clip,
            );
        },
        ProgressStyle::Loading => {
            lemma_glyphs_within(
                x,
                y,
                spinner_glyph(tick),
                1,
                CellStyle::of_fg(theme.accent),
                clip,
            );
        },
    }
}

proof fn lemma_tab_within(
    entry: TabEntry,
    selected: bool,
    label: CellRect,
    area: CellRect,
    clip: CellRect,
    shift: (i32, i32),
    theme: Theme,
)
    requires
        clip.wf(),
    ensures
        all_within(tab_chrome(entry, selected, label, area, clip, shift, theme), clip),
{
}

proof fn lemma_tab_bar_within(
    tabs: Seq<TabEntry>,
    labels: Seq<CellRect>,
    selected: int,
    area: CellRect,
    clip: CellRect,
    shift: (i32, i32),
    theme: Theme,
    n: nat,
)
    requires
        clip.wf(),
    ensures
        all_within(tab_bar(tabs, labels, selected, area, clip, shift, theme, n), clip),
    decreases n,
{
    if n > 0 {
        let i = n - 1;
        lemma_tab_bar_within(tabs, labels, selected, area, clip, shift, theme, (n - 1) as nat);
        lemma_tab_within(tabs[i], i == selected, labels[i], area, clip, shift, theme);
        lemma_both_within(
            tab_bar(tabs, labels, selected, area, clip, shift, theme, (n - 1) as nat),
            tab_chrome(tabs[i], i == selected, labels[i], area, clip, shift, theme),
            clip,
        );
    }
}

proof fn lemma_gap_is_a_width(runs: Seq<RunView>, columns: int)
    ensures
        runs_behind(runs, columns).1 >= 0,
    decreases runs.len(),
{
    if runs.len() > 0 {
        lemma_gap_is_a_width(runs.drop_first(), columns - display_width(runs[0].text));
    }
}

proof fn lemma_paragraph_within(
    spans: Seq<SpanView>,
    alignment: Alignment,
    limit: Option<usize>,
    place: Place,
    base: CellStyle,
)
    requires
        place.wf(),
    ensures
        all_within(paragraph(spans, alignment, limit, place, base), place.clip),
{
    lemma_place_edges(place);
    assert forall|line: Seq<RunView>, y: u16|
        place.clip.y <= y < place.clip.y + place.clip.height implies (#[trigger] line_paint(
        line,
        alignment,
        place,
        y,
    )).within(place.clip) by {
        let x = place.origin.0 + indent(alignment, line_width(line), place.size.0);
        lemma_gap_is_a_width(line, place.clip.x - x);
    }
}

proof fn lemma_rule_within(place: Place, y: int, theme: Theme)
    requires
        place.wf(),
    ensures
        all_within(rule(place, y, theme), place.clip),
{
    lemma_place_edges(place);
}

proof fn lemma_divider_within(vertical: bool, place: Place, theme: Theme)
    requires
        place.wf(),
    ensures
        all_within(divider(vertical, place, theme), place.clip),
{
    lemma_place_edges(place);
    if !vertical {
        lemma_rule_within(place, place.origin.1 as int, theme);
    }
}

proof fn lemma_brackets_within(place: Place, first: Seq<char>, last: Seq<char>, style: CellStyle)
    requires
        place.wf(),
    ensures
        all_within(brackets(place, first, last, style), place.clip),
{
    let x = place.origin.0 as int;
    let y = place.origin.1 as int;
    let far = x + place.size.0 - 1;
    lemma_glyphs_within(x, y, first, 1, style, place.clip);
    lemma_glyphs_within(far, y, last, 1, style, place.clip);
    lemma_both_within(
        cut_glyphs(x, y, first, 1, style, place.clip),
        cut_glyphs(far, y, last, 1, style, place.clip),
        place.clip,
    );
}

proof fn lemma_button_within(style: ButtonStyle, focused: bool, place: Place, theme: Theme)
    requires
        place.wf(),
    ensures
        all_within(button_chrome(style, focused, place, theme), place.clip),
{
    lemma_place_edges(place);
    let accent = bracket_style(focused, theme);
    lemma_brackets_within(place, "▐"@, "▌"@, accent);
    lemma_brackets_within(place, "["@, "]"@, accent);
}

proof fn lemma_stepper_within(
    text: Seq<char>,
    low: i32,
    high: i32,
    focused: bool,
    x: u16,
    place: Place,
    theme: Theme,
)
    requires
        place.wf(),
    ensures
        all_within(stepper(text, low, high, focused, x, place, theme), place.clip),
{
    let room = stepper_room(display_width(text), low, high);
    let start = place.origin.0 - x + stepper_start(x, place.size.0, room);
    let y = place.origin.1 as int;
    let style = theme.control_style(focused);
    let clip = place.clip;
    lemma_glyphs_within(start, y, "[-]"@, 3, style, clip);
    lemma_glyphs_within(start + 4, y, text, room, theme.text_style(), clip);
    lemma_glyphs_within(start + 5 + room, y, "[+]"@, 3, style, clip);
    let less = cut_glyphs(start, y, "[-]"@, 3, style, clip);
    let value = cut_glyphs(start + 4, y, text, room, theme.text_style(), clip);
    let more = cut_glyphs(start + 5 + room, y, "[+]"@, 3, style, clip);
    lemma_both_within(less, value, clip);
    lemma_both_within(less + value, more, clip);
}

proof fn lemma_labelled_within(
    label: Seq<char>,
    text: Seq<char>,
    style: CellStyle,
    cursor: Option<usize>,
    place: Place,
    muted: CellStyle,
)
    requires
        place.wf(),
    ensures
        all_within(labelled(label, text, style, cursor, place, muted), place.clip),
{
    lemma_place_edges(place);
}

proof fn lemma_scrollbar_within(
    offset: i32,
    extent: u16,
    height: u16,
    area: CellRect,
    theme: Theme,
    clip: CellRect,
)
    requires
        clip.wf(),
        edges_in(area, clip),
    ensures
        all_within(scrollbar(offset, extent, height, area, theme), clip),
{
}

proof fn lemma_chrome_within(node: NodeView, ctx: DrawCtx, clip: CellRect, shift: (i32, i32))
    requires
        clip.wf(),
        !node.hidden(clip, shift),
    ensures
        all_within(node.chrome(ctx, clip, shift), clip),
{
    let place = node.place(clip, shift);
    let area = place.area;
    let origin = place.origin;
    let theme = ctx.theme;
    let focused = node.focus is Some && node.focus == ctx.focused;
    if node.kind is Container || node.kind is Lazy {
    } else {
        lemma_place_edges(place);
        match node.kind {
            KindView::Slider { value, track } => {
                lemma_slider_within(
                    track,
                    slider_share(value),
                    focused,
                    origin.1,
                    clip,
                    shift.0,
                    theme,
                );
            },
            KindView::Progress { value, style, bar } => {
                lemma_progress_within(style, value, bar, place, shift.0, ctx.tick, theme);
            },
            KindView::Tabs { selection, tabs } => {
                lemma_tab_bar_within(
                    tabs,
                    frames(node.children),
                    selected_tab(tabs, selection),
                    area,
                    clip,
                    shift,
                    theme,
                    shorter(tabs.len(), node.children.len()),
                );
            },
            KindView::Text { content, alignment, line_limit } => {
                lemma_paragraph_within(content, alignment, line_limit, place, theme.text_style());
            },
            KindView::Divider { vertical } => {
                lemma_divider_within(vertical, place, theme);
            },
            KindView::Button { style, .. } => {
                lemma_button_within(style, focused, place, theme);
            },
            KindView::Toggle { value, style } => {
                lemma_glyphs_within(
                    origin.0 as int,
                    origin.1 as int,
                    toggle_glyph(style, value),
                    3,
                    theme.control_style(focused),
                    clip,
                );
            },
            KindView::Stepper { value, low, high, formatter, .. } => {
                lemma_stepper_within(
                    stepper_text(value, formatter),
                    low,
                    high,
                    focused,
                    node.frame.x,
                    place,
                    theme,
                );
            },
            KindView::Field(state) => {
                lemma_field_within(node, ctx, clip, shift);
            },
            KindView::Secure(state) => {
                lemma_field_within(node, ctx, clip, shift);
            },
            KindView::Gpu { ready, .. } => {
                lemma_glyphs_within(
                    area.x as int,
                    area.y as int,
                    "[gpu]"@,
                    5,
                    CellStyle::of_fg(theme.muted),
                    clip,
                );
            },
            KindView::Scroll(state) => {
                lemma_scrollbar_within(
                    state.offset.1,
                    state.extent.1,
                    node.frame.height,
                    area,
                    theme,
                    clip,
                );
            },
            KindView::NavBar { .. } => {
                lemma_rule_within(place, origin.1 + 1, theme);
            },
            _ => {},
        }
    }
}

proof fn lemma_field_within(node: NodeView, ctx: DrawCtx, clip: CellRect, shift: (i32, i32))
    requires
        node.kind is Field || node.kind is Secure,
        node.place(clip, shift).wf(),
    ensures
        all_within(node.chrome(ctx, clip, shift), clip),
{
    let focused = node.focus is Some && node.focus == ctx.focused;
    let place = node.place(clip, shift);
    let muted = CellStyle::of_fg(ctx.theme.muted);
    match node.kind {
        KindView::Field(state) => {
            let text = if state.value.len() == 0 { state.prompt } else { state.value };
            lemma_labelled_within(
                state.label,
                text,
                field_style(state.value.len() == 0, focused, ctx.theme),
                if focused {
                    Some(display_width(head(text, state.cursor as int)))
                } else {
                    None
                },
                place,
                muted,
            );
        },
        KindView::Secure(state) => {
            let count = state.value.len();
            lemma_labelled_within(
                state.label,
                repeated('•', count),
                field_style(false, focused, ctx.theme),
                if focused {
                    Some(
                        (if state.cursor < count {
                            state.cursor as int
                        } else {
                            count as int
                        }) as usize,
                    )
                } else {
                    None
                },
                place,
                muted,
            );
        },
        _ => {},
    }
}

proof fn lemma_wider_within(paints: Seq<PaintView>, inner: CellRect, outer: CellRect)
    requires
        edges_in(inner, outer),
        all_within(paints, inner),
    ensures
        all_within(paints, outer),
{
    assert forall|k: int| 0 <= k < paints.len() implies (#[trigger] paints[k]).within(outer) by {
        assert(paints[k].within(inner));
    }
}

proof fn lemma_painted_within(node: NodeView, ctx: DrawCtx, clip: CellRect, shift: (i32, i32))
    requires
        clip.wf(),
    ensures
        all_within(node.painted(ctx, clip, shift), clip),
    decreases node,
{
    if !node.hidden(clip, shift) {
        lemma_chrome_within(node, ctx, clip, shift);
        let chrome = node.chrome(ctx, clip, shift);
        match node.kind {
            KindView::Lazy { children, .. } => {
                lemma_list_within(children, Drawn::All, ctx, clip, shift);
                lemma_both_within(
                    chrome,
                    all_painted(children, Drawn::All, ctx, clip, shift),
                    clip,
                );
            },
            KindView::Dynamic(slot) => {
                lemma_painted_within(*slot, ctx, clip, shift);
                lemma_both_within(chrome, slot.painted(ctx, clip, shift), clip);
            },
            _ => {
                let inner = node.inner_clip(clip, shift);
                let inner_shift = node.inner_shift(shift);
                let drawn = node.drawn_children();
                if node.kind is Scroll {
                    lemma_place_edges(node.place(clip, shift));
                }
                lemma_list_within(node.children, drawn, ctx, inner, inner_shift);
                let content = all_painted(node.children, drawn, ctx, inner, inner_shift);
                if node.kind is Scroll {
                    lemma_wider_within(content, inner, clip);
                }
                lemma_both_within(chrome, content, clip);
            },
        }
    }
}

proof fn lemma_list_within(
    nodes: Seq<NodeView>,
    drawn: Drawn,
    ctx: DrawCtx,
    clip: CellRect,
    shift: (i32, i32),
)
    requires
        clip.wf(),
    ensures
        all_within(all_painted(nodes, drawn, ctx, clip, shift), clip),
    decreases nodes,
{
    if nodes.len() > 0 {
        lemma_list_within(nodes.drop_last(), drawn, ctx, clip, shift);
        if drawn.keeps(nodes.len() - 1) {
            lemma_painted_within(nodes.last(), ctx, clip, shift);
            lemma_both_within(
                all_painted(nodes.drop_last(), drawn, ctx, clip, shift),
                nodes.last().painted(ctx, clip, shift),
                clip,
            );
        }
    }
}

/// A subtree draws nothing outside of its clip, whatever the nodes are and wherever they are
/// shifted.
pub proof fn law_drawing_is_cut(node: NodeView, ctx: DrawCtx, clip: CellRect, shift: (i32, i32))
    requires
        clip.wf(),
    ensures
        all_within(node.painted(ctx, clip, shift), clip),
{
    lemma_painted_within(node, ctx, clip, shift);
}

/// A list that stays inside of a rectangle leaves every cell outside of it alone.
pub proof fn law_cells_outside_are_left_alone(
    paints: Seq<PaintView>,
    clip: CellRect,
    grid: CellRect,
    i: int,
)
    requires
        all_within(paints, clip),
        !clip.covers(col_of(grid, i), row_of(grid, i)),
    ensures
        all_miss(paints, grid, i),
{
    assert forall|k: int| 0 <= k < paints.len() implies (#[trigger] paints[k]).misses(grid, i) by {
        assert(paints[k].within(clip));
    }
}

/// A viewport cuts its content: however far the content is scrolled, it draws nothing outside
/// of the visible part of the viewport.
pub proof fn law_viewport_cuts_its_content(
    node: NodeView,
    ctx: DrawCtx,
    clip: CellRect,
    shift: (i32, i32),
)
    requires
        clip.wf(),
        node.kind is Scroll,
    ensures
        all_within(node.painted(ctx, clip, shift), node.visible_area(clip, shift)),
{
    if !node.hidden(clip, shift) {
        let area = node.visible_area(clip, shift);
        lemma_place_edges(node.place(clip, shift));
        let chrome = node.chrome(ctx, clip, shift);
        if let KindView::Scroll(state) = node.kind {
            lemma_scrollbar_within(
                state.offset.1,
                state.extent.1,
                node.frame.height,
                area,
                ctx.theme,
                area,
            );
        }
        let inner_shift = node.inner_shift(shift);
        lemma_list_within(node.children, Drawn::All, ctx, area, inner_shift);
        let content = all_painted(node.children, Drawn::All, ctx, area, inner_shift);
        lemma_both_within(chrome, content, area);
        assert(node.painted(ctx, clip, shift) == chrome + content);
    }
}

proof fn lemma_shown_is_wf(x: int, y: int, width: int, height: int, clip: CellRect)
    requires
        clip.wf(),
        0 <= width,
        0 <= height,
    ensures
        shown(x, y, width, height, clip).wf(),
{
}

// ---- The mouse --------------------------------------------------------------------

impl NodeView {
    /// Whether drawing shows a node of the subtree with the focus id `id` at `(col, row)`.
    pub open spec fn shows(
        self,
        id: u32,
        clip: CellRect,
        shift: (i32, i32),
        col: int,
        row: int,
    ) -> bool
        decreases self,
    {
        &&& !self.hidden(clip, shift)
        &&& {
            ||| self.focus == Some(id) && self.visible_area(clip, shift).covers(col, row)
            ||| match self.kind {
                KindView::Lazy { children, .. } => some_shows(
                    children,
                    Drawn::All,
                    id,
                    clip,
                    shift,
                    col,
                    row,
                ),
                KindView::Dynamic(slot) => slot.shows(id, clip, shift, col, row),
                _ => some_shows(
                    self.children,
                    self.drawn_children(),
                    id,
                    self.inner_clip(clip, shift),
                    self.inner_shift(shift),
                    col,
                    row,
                ),
            }
        }
    }

    /// Whether the subtree is drawn as it stands: no viewport has to move first, and the
    /// contents of tabs that are not selected have no room.
    pub open spec fn is_at_rest(self) -> bool
        decreases self,
    {
        &&& match self.kind {
            KindView::Scroll(state) => state.requested is None,
            KindView::Tabs { .. } => forall|i: int|
                0 <= i < self.children.len() && !self.drawn_children().keeps(i) ==> {
                    let frame = (#[trigger] self.children[i]).frame;
                    frame.width == 0 || frame.height == 0
                },
            KindView::Lazy { children, .. } => all_at_rest(children),
            KindView::Dynamic(slot) => slot.is_at_rest(),
            _ => true,
        }
        &&& all_at_rest(self.children)
    }
}

/// Whether drawing shows a node with the focus id `id` at `(col, row)` in one of a list of
/// subtrees.
pub open spec fn some_shows(
    nodes: Seq<NodeView>,
    drawn: Drawn,
    id: u32,
    clip: CellRect,
    shift: (i32, i32),
    col: int,
    row: int,
) -> bool
    decreases nodes,
{
    nodes.len() > 0 && {
        ||| drawn.keeps(nodes.len() - 1) && nodes.last().shows(id, clip, shift, col, row)
        ||| some_shows(nodes.drop_last(), drawn, id, clip, shift, col, row)
    }
}

/// Whether a list of subtrees is drawn as it stands.
pub open spec fn all_at_rest(nodes: Seq<NodeView>) -> bool
    decreases nodes,
{
    nodes.len() == 0 || (nodes.last().is_at_rest() && all_at_rest(nodes.drop_last()))
}

proof fn lemma_hit_is_shown(
    node: NodeView,
    id: u32,
    clip: CellRect,
    shift: (i32, i32),
    col: i32,
    row: i32,
    at: (int, int),
)
    requires
        clip.wf(),
        clip.covers(at.0, at.1),
        node.is_at_rest(),
        node.hit_id(col, row) == Some(id),
        col + shift.0 == at.0,
        row + shift.1 == at.1,
    ensures
        node.shows(id, clip, shift, at.0, at.1),
    decreases node,
{
    let area = node.visible_area(clip, shift);
    assert(area.covers(at.0, at.1));
    match node.kind {
        KindView::Lazy { children, .. } => {
            if topmost_hit(children, col, row) is Some {
                lemma_topmost_is_shown(children, Drawn::All, id, clip, shift, col, row, at);
            }
        },
        KindView::Dynamic(slot) => {
            if slot.hit_id(col, row) is Some {
                lemma_hit_is_shown(*slot, id, clip, shift, col, row, at);
            }
        },
        KindView::Scroll(state) => {
            let inner_col = coordinate(col + state.offset.0);
            let inner_row = coordinate(row + state.offset.1);
            let origin = node.origin(shift);
            lemma_shown_is_wf(
                origin.0 as int,
                origin.1 as int,
                node.frame.width as int,
                node.frame.height as int,
                clip,
            );
            if topmost_hit(node.children, inner_col, inner_row) is Some {
                lemma_hit_is_near(node.children, inner_col, inner_row);
                lemma_topmost_is_shown(
                    node.children,
                    Drawn::All,
                    id,
                    area,
                    node.inner_shift(shift),
                    inner_col,
                    inner_row,
                    at,
                );
            }
        },
        _ => {
            if topmost_hit(node.children, col, row) is Some {
                lemma_topmost_is_shown(
                    node.children,
                    node.drawn_children(),
                    id,
                    clip,
                    shift,
                    col,
                    row,
                    at,
                );
            }
        },
    }
}

proof fn lemma_hit_is_near(nodes: Seq<NodeView>, col: i32, row: i32)
    requires
        topmost_hit(nodes, col, row) is Some,
    ensures
        0 <= col <= 131070,
        0 <= row <= 131070,
    decreases nodes.len(),
{
    if nodes.last().hit_id(col, row) is None {
        lemma_hit_is_near(nodes.drop_last(), col, row);
    }
}

proof fn lemma_topmost_is_shown(
    nodes: Seq<NodeView>,
    drawn: Drawn,
    id: u32,
    clip: CellRect,
    shift: (i32, i32),
    col: i32,
    row: i32,
    at: (int, int),
)
    requires
        clip.wf(),
        clip.covers(at.0, at.1),
        all_at_rest(nodes),
        topmost_hit(nodes, col, row) == Some(id),
        col + shift.0 == at.0,
        row + shift.1 == at.1,
        forall|i: int|
            0 <= i < nodes.len() && !drawn.keeps(i) ==> {
                let frame = (#[trigger] nodes[i]).frame;
                frame.width == 0 || frame.height == 0
            },
    ensures
        some_shows(nodes, drawn, id, clip, shift, at.0, at.1),
    decreases nodes,
{
    if nodes.last().hit_id(col, row) is Some {
        assert(drawn.keeps(nodes.len() - 1)) by {
            assert(nodes[nodes.len() - 1].frame.covers(col as int, row as int));
        }
        lemma_hit_is_shown(nodes.last(), id, clip, shift, col, row, at);
    } else {
        let front = nodes.drop_last();
        assert forall|i: int| 0 <= i < front.len() && !drawn.keeps(i) implies {
            let frame = (#[trigger] front[i]).frame;
            frame.width == 0 || frame.height == 0
        } by {
            assert(front[i] == nodes[i]);
        }
        lemma_topmost_is_shown(front, drawn, id, clip, shift, col, row, at);
    }
}

/// The node that a press reaches is shown under the mouse: on a screen that shows the tree as
/// it stands, the node that is hit at a cell is drawn over that cell, however far it was
/// scrolled.
pub proof fn law_hit_is_shown(root: NodeView, screen: CellRect, col: u16, row: u16, id: u32)
    requires
        screen.wf(),
        screen.covers(col as int, row as int),
        root.is_at_rest(),
        root.hit_id(col as i32, row as i32) == Some(id),
    ensures
        root.shows(id, screen, (0, 0), col as int, row as int),
{
    lemma_hit_is_shown(
        root,
        id,
        screen,
        (0, 0),
        col as i32,
        row as i32,
        (col as int, row as int),
    );
}

} // verus!
