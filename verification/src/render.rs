//! Drawing a node tree: from nodes to a display list, and on into a buffer.

use ratatui::buffer::Buffer;
use vstd::prelude::*;

use crate::buffer::{area_of, buffer_area, buffer_cells, whole, CellView};
use crate::controls::{
    backdrop, button_chrome, divider, draw_button_chrome, draw_divider, draw_field, draw_fill,
    draw_progress, draw_rule, draw_scrollbar, draw_secure, draw_slider, draw_stepper, draw_tab,
    draw_text, draw_toggle, field, paragraph, progress, rule, scrollbar, secure_field, slider,
    stepper, stepper_text, tab_chrome, toggle_mark, Place, TabEntry, WHOLE,
};
use crate::geometry::{
    coordinate, coordinate_difference, coordinate_sum, shown, visible, CellRect,
};
use crate::input::{frames, selected_index, selected_tab};
use crate::node::{nodes_view, Kind, KindView, Node, NodeView, SecureView};
use crate::paint::{
    agree, all_miss, applied_all, cut_glyphs, emit, emit_cut, paint_all, paints_view, Paint,
    PaintView,
};
use crate::scroll::{ScrollMetrics, ScrollOp};
use crate::style::{CellStyle, Theme};
use crate::text::chars_of;

verus! {

/// What drawing a frame needs besides the nodes.
#[derive(Clone, Copy, Debug, PartialEq, Eq, Structural)]
pub struct DrawCtx {
    /// Theme colors of this frame.
    pub theme: Theme,
    /// The focus id of the node that has the focus.
    pub focused: Option<u32>,
    /// Animation frame counter.
    pub tick: u64,
}

/// Which of a list of children are drawn: all of them, or the first `labels` ones and
/// one of the others.
#[derive(Clone, Copy, Debug, PartialEq, Eq, Structural)]
pub enum Drawn {
    All,
    Tab { labels: usize, selected: usize },
}

impl Drawn {
    /// Whether child `i` is drawn.
    pub open spec fn keeps(self, i: int) -> bool {
        match self {
            Drawn::All => true,
            Drawn::Tab { labels, selected } => i < labels || i - labels == selected,
        }
    }

    fn keep(&self, i: usize) -> (r: bool)
        ensures
            r == self.keeps(i as int),
    {
        match *self {
            Drawn::All => true,
            Drawn::Tab { labels, selected } => i < labels || i - labels == selected,
        }
    }
}

/// A slider's value held inside its range.
pub open spec fn slider_share(value: i64) -> u32 {
    if value < 0 {
        0
    } else if value > WHOLE {
        WHOLE
    } else {
        value as u32
    }
}

/// The chrome of the first `n` tabs.
pub open spec fn tab_bar(
    tabs: Seq<TabEntry>,
    labels: Seq<CellRect>,
    selected: int,
    area: CellRect,
    clip: CellRect,
    shift: (i32, i32),
    theme: Theme,
    n: nat,
) -> Seq<PaintView>
    decreases n,
{
    if n == 0 {
        seq![]
    } else {
        let i = n - 1;
        tab_bar(tabs, labels, selected, area, clip, shift, theme, (n - 1) as nat) + tab_chrome(
            tabs[i],
            i == selected,
            labels[i],
            area,
            clip,
            shift,
            theme,
        )
    }
}

/// The smaller of two lengths.
pub open spec fn shorter(a: nat, b: nat) -> nat {
    if a < b {
        a
    } else {
        b
    }
}

impl NodeView {
    /// Where the node's top left corner lies on screen.
    pub open spec fn origin(self, shift: (i32, i32)) -> (i32, i32) {
        (coordinate(self.frame.x + shift.0), coordinate(self.frame.y + shift.1))
    }

    /// The cells of the node that are visible.
    pub open spec fn visible_area(self, clip: CellRect, shift: (i32, i32)) -> CellRect {
        let origin = self.origin(shift);
        shown(
            origin.0 as int,
            origin.1 as int,
            self.frame.width as int,
            self.frame.height as int,
            clip,
        )
    }

    /// Whether drawing passes the node by. Containers are never passed by: their children
    /// may reach out of them.
    pub open spec fn hidden(self, clip: CellRect, shift: (i32, i32)) -> bool {
        let area = self.visible_area(clip, shift);
        &&& area.width == 0 || area.height == 0
        &&& self.kind !is Container
        &&& self.kind !is Lazy
    }

    /// Where the node is drawn.
    pub open spec fn place(self, clip: CellRect, shift: (i32, i32)) -> Place {
        Place {
            origin: self.origin(shift),
            size: (self.frame.width, self.frame.height),
            area: self.visible_area(clip, shift),
            clip,
        }
    }

    /// What the node draws itself, before its children.
    pub open spec fn chrome(self, ctx: DrawCtx, clip: CellRect, shift: (i32, i32)) -> Seq<PaintView> {
        let area = self.visible_area(clip, shift);
        let origin = self.origin(shift);
        let place = self.place(clip, shift);
        let focused = self.focus is Some && self.focus == ctx.focused;
        match self.kind {
            KindView::Text { content, alignment, line_limit } => paragraph(
                content,
                alignment,
                line_limit,
                place,
                ctx.theme.text_style(),
            ),
            KindView::Fill(color) => seq![backdrop(area, color)],
            KindView::Divider { vertical } => divider(vertical, place, ctx.theme),
            KindView::Button { style, .. } => button_chrome(style, focused, place, ctx.theme),
            KindView::Toggle { value, style } => toggle_mark(
                style,
                value,
                focused,
                place,
                ctx.theme,
            ),
            KindView::Field(state) => field(
                state.label,
                state.value,
                state.prompt,
                state.cursor,
                focused,
                place,
                ctx.theme,
            ),
            KindView::Secure(state) => secure_field(
                state.label,
                state.value.len(),
                state.cursor,
                focused,
                place,
                ctx.theme,
            ),
            KindView::Slider { value, track } => slider(
                track,
                slider_share(value),
                focused,
                origin.1,
                clip,
                shift.0,
                ctx.theme,
            ),
            KindView::Stepper { value, low, high, formatter, .. } => stepper(
                stepper_text(value, formatter),
                low,
                high,
                focused,
                self.frame.x,
                place,
                ctx.theme,
            ),
            KindView::Progress { value, style, bar } => progress(
                style,
                value,
                bar,
                place,
                shift.0,
                ctx.tick,
                ctx.theme,
            ),
            KindView::Background(color) => seq![backdrop(area, color)],
            KindView::Gradient(key) => seq![
                PaintView::Gradient {
                    key,
                    origin,
                    size: (self.frame.width, self.frame.height),
                    area,
                },
            ],
            KindView::Gpu { key, ready, .. } => if ready {
                seq![
                    PaintView::Surface {
                        key,
                        origin,
                        size: (self.frame.width, self.frame.height),
                        area,
                    },
                ]
            } else {
                cut_glyphs(
                    area.x as int,
                    area.y as int,
                    "[gpu]"@,
                    5,
                    CellStyle::of_fg(ctx.theme.muted),
                    clip,
                )
            },
            KindView::Scroll(state) => scrollbar(
                state.offset.1,
                state.extent.1,
                self.frame.height,
                area,
                ctx.theme,
            ),
            KindView::Tabs { selection, tabs } => tab_bar(
                tabs,
                frames(self.children),
                selected_tab(tabs, selection),
                area,
                clip,
                shift,
                ctx.theme,
                shorter(tabs.len(), self.children.len()),
            ),
            KindView::NavBar { hidden } => if !hidden && self.frame.height > 1 {
                rule(place, origin.1 + 1, ctx.theme)
            } else {
                seq![]
            },
            _ => seq![],
        }
    }

    /// Which of the node's children are drawn.
    pub open spec fn drawn_children(self) -> Drawn {
        match self.kind {
            KindView::Tabs { selection, tabs } => Drawn::Tab {
                labels: tabs.len() as usize,
                selected: selected_tab(tabs, selection) as usize,
            },
            _ => Drawn::All,
        }
    }

    /// The clip of the node's children: a viewport cuts its content.
    pub open spec fn inner_clip(self, clip: CellRect, shift: (i32, i32)) -> CellRect {
        match self.kind {
            KindView::Scroll(_) => self.visible_area(clip, shift),
            _ => clip,
        }
    }

    /// The shift of the node's children: a viewport moves its content.
    pub open spec fn inner_shift(self, shift: (i32, i32)) -> (i32, i32) {
        match self.kind {
            KindView::Scroll(state) => {
                let offset = state.drawn_offset(self.frame);
                (coordinate(shift.0 - offset.0), coordinate(shift.1 - offset.1))
            },
            _ => shift,
        }
    }

    /// What the subtree draws, shifted by `shift` and cut at `clip`.
    pub open spec fn painted(self, ctx: DrawCtx, clip: CellRect, shift: (i32, i32)) -> Seq<PaintView>
        decreases self,
    {
        if self.hidden(clip, shift) {
            seq![]
        } else {
            self.chrome(ctx, clip, shift) + match self.kind {
                KindView::Lazy { children, .. } => all_painted(children, Drawn::All, ctx, clip, shift),
                KindView::Dynamic(slot) => slot.painted(ctx, clip, shift),
                _ => all_painted(
                    self.children,
                    self.drawn_children(),
                    ctx,
                    self.inner_clip(clip, shift),
                    self.inner_shift(shift),
                ),
            }
        }
    }
}

/// What a list of subtrees draws, one behind the other.
pub open spec fn all_painted(
    nodes: Seq<NodeView>,
    drawn: Drawn,
    ctx: DrawCtx,
    clip: CellRect,
    shift: (i32, i32),
) -> Seq<PaintView>
    decreases nodes,
{
    if nodes.len() == 0 {
        seq![]
    } else {
        all_painted(nodes.drop_last(), drawn, ctx, clip, shift) + if drawn.keeps(nodes.len() - 1) {
            nodes.last().painted(ctx, clip, shift)
        } else {
            seq![]
        }
    }
}

fn draw_tab_bar(
    out: &mut Vec<Paint>,
    tabs: &Vec<TabEntry>,
    labels: &Vec<Node>,
    selected: usize,
    area: CellRect,
    clip: CellRect,
    shift: (i32, i32),
    theme: &Theme,
)
    requires
        area.wf(),
        clip.wf(),
    ensures
        paints_view(final(out)@) == paints_view(old(out)@) + tab_bar(
            tabs@,
            frames(nodes_view(labels@)),
            selected as int,
            area,
            clip,
            shift,
            *theme,
            shorter(tabs@.len(), labels@.len()),
        ),
{
    let ghost rects = frames(nodes_view(labels@));
    let ghost before = paints_view(out@);
    let mut i: usize = 0;
    assert(paints_view(out@) =~= before + Seq::<PaintView>::empty());
    while i < tabs.len() && i < labels.len()
        invariant
            i <= tabs@.len(),
            i <= labels@.len(),
            area.wf(),
            clip.wf(),
            rects == frames(nodes_view(labels@)),
            paints_view(out@) == before + tab_bar(
                tabs@,
                rects,
                selected as int,
                area,
                clip,
                shift,
                *theme,
                i as nat,
            ),
        decreases tabs@.len() - i,
    {
        assert(rects[i as int] == labels@[i as int].frame);
        draw_tab(out, &tabs[i], i == selected, labels[i].frame, area, clip, shift, theme);
        i += 1;
        assert(paints_view(out@) =~= before + tab_bar(
            tabs@,
            rects,
            selected as int,
            area,
            clip,
            shift,
            *theme,
            i as nat,
        ));
    }
}

fn paint_nodes(
    nodes: &Vec<Node>,
    drawn: Drawn,
    out: &mut Vec<Paint>,
    ctx: &DrawCtx,
    clip: CellRect,
    shift: (i32, i32),
)
    requires
        clip.wf(),
    ensures
        paints_view(final(out)@) == paints_view(old(out)@) + all_painted(
            nodes_view(nodes@),
            drawn,
            *ctx,
            clip,
            shift,
        ),
    decreases nodes@,
{
    let ghost values = nodes_view(nodes@);
    let ghost before = paints_view(out@);
    let mut i: usize = 0;
    assert(paints_view(out@) =~= before + all_painted(values.take(0), drawn, *ctx, clip, shift));
    while i < nodes.len()
        invariant
            i <= nodes@.len(),
            clip.wf(),
            values == nodes_view(nodes@),
            paints_view(out@) == before + all_painted(
                values.take(i as int),
                drawn,
                *ctx,
                clip,
                shift,
            ),
        decreases nodes@.len() - i,
    {
        proof {
            assert(decreases_to!(nodes@ => nodes@[i as int]));
            assert(values.take(i + 1).drop_last() =~= values.take(i as int));
        }
        if drawn.keep(i) {
            nodes[i].paint_shifted(out, ctx, clip, shift);
        }
        i += 1;
        assert(paints_view(out@) =~= before + all_painted(
            values.take(i as int),
            drawn,
            *ctx,
            clip,
            shift,
        ));
    }
    assert(values.take(i as int) =~= values);
}

impl Node {
    fn paint_chrome(
        &self,
        out: &mut Vec<Paint>,
        ctx: &DrawCtx,
        clip: CellRect,
        shift: (i32, i32),
        origin: (i32, i32),
        area: CellRect,
    )
        requires
            clip.wf(),
            area.wf(),
            area == self@.visible_area(clip, shift),
            origin == self@.origin(shift),
            !self@.hidden(clip, shift),
        ensures
            paints_view(final(out)@) == paints_view(old(out)@) + self@.chrome(*ctx, clip, shift),
    {
        let focused = match (self.focus, ctx.focused) {
            (Some(own), Some(id)) => own == id,
            _ => false,
        };
        let theme = &ctx.theme;
        let place = Place { origin, size: (self.frame.width, self.frame.height), area, clip };
        let ghost before = paints_view(out@);
        match &self.kind {
            Kind::Text { content, alignment, line_limit } => {
                draw_text(out, content, *alignment, *line_limit, place, theme.text());
            },
            Kind::Fill(color) => {
                draw_fill(out, area, *color);
            },
            Kind::Divider { vertical } => {
                draw_divider(out, *vertical, place, theme);
            },
            Kind::Button { style, .. } => {
                draw_button_chrome(out, *style, focused, place, theme);
            },
            Kind::Toggle { value, style } => {
                draw_toggle(out, *style, *value, focused, place, theme);
            },
            Kind::Field(state) => {
                draw_field(
                    out,
                    &state.label,
                    &state.value,
                    &state.prompt,
                    state.cursor,
                    focused,
                    place,
                    theme,
                );
            },
            Kind::Secure(state) => {
                let count: usize = chars_of(state.value.as_str()).len();
                draw_secure(out, &state.label, count, state.cursor, focused, place, theme);
            },
            Kind::Slider { value, track } => {
                let share: u32 = if *value < 0 {
                    0
                } else if *value > WHOLE as i64 {
                    WHOLE
                } else {
                    *value as u32
                };
                draw_slider(out, *track, share, focused, origin.1, clip, shift.0, theme);
            },
            Kind::Stepper { value, low, high, formatter, .. } => {
                draw_stepper(
                    out,
                    *value,
                    formatter,
                    *low,
                    *high,
                    focused,
                    self.frame.x,
                    place,
                    theme,
                );
            },
            Kind::Progress { value, style, bar } => {
                draw_progress(out, *style, *value, *bar, place, shift.0, ctx.tick, theme);
            },
            Kind::Background(color) => {
                draw_fill(out, area, *color);
            },
            Kind::Gradient(key) => {
                emit(
                    out,
                    Paint::Gradient {
                        key: *key,
                        origin,
                        size: (self.frame.width, self.frame.height),
                        area,
                    },
                );
            },
            Kind::Gpu { key, ready, .. } => {
                if *ready {
                    emit(
                        out,
                        Paint::Surface {
                            key: *key,
                            origin,
                            size: (self.frame.width, self.frame.height),
                            area,
                        },
                    );
                } else {
                    emit_cut(
                        out,
                        area.x as i64,
                        area.y as i64,
                        "[gpu]",
                        5,
                        CellStyle::new().fg(theme.muted),
                        clip,
                    );
                }
            },
            Kind::Scroll(state) => {
                draw_scrollbar(out, state.offset.1, state.extent.1, self.frame.height, area, theme);
            },
            Kind::Tabs { selection, tabs } => {
                let selected: usize = selected_index(tabs, *selection);
                draw_tab_bar(out, tabs, &self.children, selected, area, clip, shift, theme);
            },
            Kind::NavBar { hidden } => {
                if !*hidden && self.frame.height > 1 {
                    draw_rule(out, place, origin.1 as i64 + 1, theme);
                }
            },
            _ => {},
        }
        assert(paints_view(out@) =~= before + self@.chrome(*ctx, clip, shift));
    }

    /// Whether drawing passes the node by.
    fn is_hidden(&self, area: CellRect) -> (r: bool)
        ensures
            r == ((area.width == 0 || area.height == 0) && self@.kind !is Container && self@.kind
                !is Lazy),
    {
        if !area.is_empty() {
            return false;
        }
        match &self.kind {
            Kind::Container(_) => false,
            Kind::Lazy(_) => false,
            _ => true,
        }
    }

    /// Which of the node's children are drawn.
    fn drawn(&self) -> (r: Drawn)
        ensures
            r == self@.drawn_children(),
    {
        match &self.kind {
            Kind::Tabs { selection, tabs } => Drawn::Tab {
                labels: tabs.len(),
                selected: selected_index(tabs, *selection),
            },
            _ => Drawn::All,
        }
    }

    /// The shift of the node's children.
    fn shift_inner(&self, shift: (i32, i32)) -> (r: (i32, i32))
        ensures
            r == self@.inner_shift(shift),
    {
        match &self.kind {
            Kind::Scroll(state) => {
                let offset = state.offset_to_draw(self.frame);
                (
                    coordinate_difference(shift.0, offset.0),
                    coordinate_difference(shift.1, offset.1),
                )
            },
            _ => shift,
        }
    }

    fn clip_inner(&self, clip: CellRect, area: CellRect) -> (r: CellRect)
        ensures
            r == (if self@.kind is Scroll { area } else { clip }),
    {
        match &self.kind {
            Kind::Scroll(_) => area,
            _ => clip,
        }
    }

    /// Appends what the subtree draws, shifted by `shift` columns and rows and cut at
    /// `clip`. Scrolling shifts content; everything else hands both on unchanged.
    pub fn paint_shifted(&self, out: &mut Vec<Paint>, ctx: &DrawCtx, clip: CellRect, shift: (i32, i32))
        requires
            clip.wf(),
        ensures
            paints_view(final(out)@) == paints_view(old(out)@) + self@.painted(*ctx, clip, shift),
        decreases *self,
    {
        let ghost before = paints_view(out@);
        let origin = (
            coordinate_sum(self.frame.x as i32, shift.0),
            coordinate_sum(self.frame.y as i32, shift.1),
        );
        let area = visible(origin.0, origin.1, self.frame.width, self.frame.height, clip);
        if self.is_hidden(area) {
            assert(paints_view(out@) =~= before + Seq::<PaintView>::empty());
            return;
        }
        self.paint_chrome(out, ctx, clip, shift, origin, area);
        match &self.kind {
            Kind::Lazy(state) => paint_nodes(&state.children, Drawn::All, out, ctx, clip, shift),
            Kind::Dynamic(slot) => slot.paint_shifted(out, ctx, clip, shift),
            _ => paint_nodes(
                &self.children,
                self.drawn(),
                out,
                ctx,
                self.clip_inner(clip, area),
                self.shift_inner(shift),
            ),
        }
        assert(paints_view(out@) =~= before + self@.painted(*ctx, clip, shift));
    }
}

// ---- What drawing leaves behind ---------------------------------------------------

/// A subtree after a frame showed it, the shifts that the frame applied, and the
/// positions that it reports.
pub struct Settled {
    pub node: NodeView,
    pub ops: Seq<ScrollOp>,
    pub reports: Seq<(u32, ScrollMetrics)>,
}

/// A list of subtrees after a frame showed them.
pub struct AllSettled {
    pub nodes: Seq<NodeView>,
    pub ops: Seq<ScrollOp>,
    pub reports: Seq<(u32, ScrollMetrics)>,
}

impl NodeView {
    /// The node itself after a frame showed it: a viewport grants the program's request,
    /// notes its shift, and reports its position where it has changed.
    pub open spec fn own_settled(self, clip: CellRect, shift: (i32, i32)) -> Settled {
        match self.kind {
            KindView::Scroll(state) => {
                let area = self.visible_area(clip, shift);
                let after = state.presented(self.frame, area);
                let metrics = after.metrics(self.frame);
                let noted = crate::scroll::ScrollState { reported: Some(metrics), ..after };
                Settled {
                    node: NodeView { kind: KindView::Scroll(noted), ..self },
                    ops: state.shift_in(self.frame, area),
                    reports: if self.source is Some && after.reported != Some(metrics) {
                        seq![(self.source->0, metrics)]
                    } else {
                        seq![]
                    },
                }
            },
            _ => Settled { node: self, ops: seq![], reports: seq![] },
        }
    }

    /// This subtree after a frame showed it.
    pub open spec fn settled(self, clip: CellRect, shift: (i32, i32)) -> Settled
        decreases self,
    {
        if self.hidden(clip, shift) {
            Settled { node: self, ops: seq![], reports: seq![] }
        } else {
            let own = self.own_settled(clip, shift);
            match self.kind {
                KindView::Lazy { layout, children } => {
                    let inner = all_settled(children, Drawn::All, clip, shift);
                    Settled {
                        node: NodeView {
                            kind: KindView::Lazy { layout, children: inner.nodes },
                            ..self
                        },
                        ops: inner.ops,
                        reports: inner.reports,
                    }
                },
                KindView::Dynamic(slot) => {
                    let inner = slot.settled(clip, shift);
                    Settled {
                        node: NodeView { kind: KindView::Dynamic(Box::new(inner.node)), ..self },
                        ops: inner.ops,
                        reports: inner.reports,
                    }
                },
                _ => {
                    let inner = all_settled(
                        self.children,
                        self.drawn_children(),
                        self.inner_clip(clip, shift),
                        self.inner_shift(shift),
                    );
                    Settled {
                        node: NodeView { children: inner.nodes, ..own.node },
                        ops: own.ops + inner.ops,
                        reports: own.reports + inner.reports,
                    }
                },
            }
        }
    }
}

/// A list of subtrees after a frame showed them.
pub open spec fn all_settled(
    nodes: Seq<NodeView>,
    drawn: Drawn,
    clip: CellRect,
    shift: (i32, i32),
) -> AllSettled
    decreases nodes,
{
    if nodes.len() == 0 {
        AllSettled { nodes, ops: seq![], reports: seq![] }
    } else {
        let front = all_settled(nodes.drop_last(), drawn, clip, shift);
        if drawn.keeps(nodes.len() - 1) {
            let last = nodes.last().settled(clip, shift);
            AllSettled {
                nodes: front.nodes.push(last.node),
                ops: front.ops + last.ops,
                reports: front.reports + last.reports,
            }
        } else {
            AllSettled { nodes: front.nodes.push(nodes.last()), ops: front.ops, reports: front.reports }
        }
    }
}

fn settle_nodes(
    nodes: &mut Vec<Node>,
    drawn: Drawn,
    clip: CellRect,
    shift: (i32, i32),
    ops: &mut Vec<ScrollOp>,
    reports: &mut Vec<(u32, ScrollMetrics)>,
)
    requires
        clip.wf(),
    ensures
        ({
            let all = all_settled(nodes_view(old(nodes)@), drawn, clip, shift);
            &&& nodes_view(final(nodes)@) == all.nodes
            &&& final(ops)@ == old(ops)@ + all.ops
            &&& final(reports)@ == old(reports)@ + all.reports
        }),
    decreases old(nodes)@,
{
    let ghost before = nodes@;
    let ghost values = nodes_view(nodes@);
    let mut i: usize = 0;
    assert(values.take(0) =~= Seq::<NodeView>::empty());
    assert(ops@ =~= old(ops)@ + Seq::<ScrollOp>::empty());
    assert(reports@ =~= old(reports)@ + Seq::<(u32, ScrollMetrics)>::empty());
    while i < nodes.len()
        invariant
            i <= nodes@.len(),
            clip.wf(),
            before == old(nodes)@,
            nodes@.len() == before.len(),
            values == nodes_view(before),
            forall|j: int| i <= j < before.len() ==> nodes@[j] == before[j],
            ({
                let part = all_settled(values.take(i as int), drawn, clip, shift);
                &&& part.nodes.len() == i
                &&& forall|j: int| 0 <= j < i ==> (#[trigger] nodes@[j])@ == part.nodes[j]
                &&& ops@ == old(ops)@ + part.ops
                &&& reports@ == old(reports)@ + part.reports
            }),
        decreases before.len() - i,
    {
        let ghost part = all_settled(values.take(i as int), drawn, clip, shift);
        proof {
            assert(decreases_to!(before => before[i as int]));
            assert(values.take(i + 1).drop_last() =~= values.take(i as int));
            assert(values.take(i + 1).last() == before[i as int]@);
        }
        if drawn.keep(i) {
            nodes[i].settle_shifted(clip, shift, ops, reports);
        }
        proof {
            let next = all_settled(values.take(i + 1), drawn, clip, shift);
            assert(ops@ =~= old(ops)@ + next.ops);
            assert(reports@ =~= old(reports)@ + next.reports);
        }
        i += 1;
    }
    assert(values.take(i as int) =~= values);
    assert(nodes_view(nodes@) =~= all_settled(values, drawn, clip, shift).nodes);
}

impl Node {
    /// Grants what viewports were asked, notes the shifts that this frame applied, and
    /// collects the positions that changed, each with the source of its viewport.
    pub fn settle_shifted(
        &mut self,
        clip: CellRect,
        shift: (i32, i32),
        ops: &mut Vec<ScrollOp>,
        reports: &mut Vec<(u32, ScrollMetrics)>,
    )
        requires
            clip.wf(),
        ensures
            ({
                let all = old(self)@.settled(clip, shift);
                &&& final(self)@ == all.node
                &&& final(ops)@ == old(ops)@ + all.ops
                &&& final(reports)@ == old(reports)@ + all.reports
            }),
        decreases *old(self),
    {
        let ghost before = self@;
        let origin = (
            coordinate_sum(self.frame.x as i32, shift.0),
            coordinate_sum(self.frame.y as i32, shift.1),
        );
        let frame = self.frame;
        let source = self.source;
        let area = visible(origin.0, origin.1, frame.width, frame.height, clip);
        if self.is_hidden(area) {
            assert(ops@ =~= old(ops)@ + Seq::<ScrollOp>::empty());
            assert(reports@ =~= old(reports)@ + Seq::<(u32, ScrollMetrics)>::empty());
            return;
        }
        let drawn = self.drawn();
        let inner_clip = self.clip_inner(clip, area);
        let inner_shift = self.shift_inner(shift);
        match &mut self.kind {
            Kind::Lazy(state) => {
                settle_nodes(&mut state.children, Drawn::All, clip, shift, ops, reports);
            },
            Kind::Dynamic(slot) => {
                slot.settle_shifted(clip, shift, ops, reports);
            },
            Kind::Scroll(state) => {
                state.present(frame, area, ops);
                let report = state.report(frame);
                if let (Some(key), Some(metrics)) = (source, report) {
                    reports.push((key, metrics));
                }
                assert(ops@ =~= old(ops)@ + before.own_settled(clip, shift).ops);
                assert(reports@ =~= old(reports)@ + before.own_settled(clip, shift).reports);
                settle_nodes(&mut self.children, drawn, inner_clip, inner_shift, ops, reports);
            },
            _ => {
                settle_nodes(&mut self.children, drawn, inner_clip, inner_shift, ops, reports);
            },
        }
        assert(ops@ =~= old(ops)@ + before.settled(clip, shift).ops);
        assert(reports@ =~= old(reports)@ + before.settled(clip, shift).reports);
    }

    /// Draws the node into a buffer and returns where the terminal cursor belongs.
    ///
    /// `ops` and `reports` get the shifts that the frame applied and the positions that
    /// changed. Gradients and GPU surfaces are left to the host, which finds them in
    /// [`Node::paint_shifted`].
    pub fn render(
        &mut self,
        buf: &mut Buffer,
        ctx: &DrawCtx,
        ops: &mut Vec<ScrollOp>,
        reports: &mut Vec<(u32, ScrollMetrics)>,
    ) -> (r: Option<(u16, u16)>)
        requires
            whole(*old(buf)),
        ensures
            whole(*final(buf)),
            buffer_area(*final(buf)) == buffer_area(*old(buf)),
            (buffer_cells(*final(buf)), r) == applied_all(
                old(self)@.painted(*ctx, buffer_area(*old(buf)), (0, 0)),
                buffer_cells(*old(buf)),
                buffer_area(*old(buf)),
                None,
            ),
            ({
                let all = old(self)@.settled(buffer_area(*old(buf)), (0, 0));
                &&& final(self)@ == all.node
                &&& final(ops)@ == old(ops)@ + all.ops
                &&& final(reports)@ == old(reports)@ + all.reports
            }),
            buffer_cells(*final(buf)).len() == buffer_cells(*old(buf)).len(),
            forall|i: int|
                0 <= i < buffer_cells(*old(buf)).len() && all_miss(
                    old(self)@.painted(*ctx, buffer_area(*old(buf)), (0, 0)),
                    buffer_area(*old(buf)),
                    i,
                ) ==> #[trigger] agree(buffer_cells(*final(buf)), buffer_cells(*old(buf)), i),
    {
        let area = area_of(buf);
        let mut list: Vec<Paint> = Vec::new();
        self.paint_shifted(&mut list, ctx, area, (0, 0));
        assert(paints_view(list@) =~= self@.painted(*ctx, area, (0, 0)));
        self.settle_shifted(area, (0, 0), ops, reports);
        paint_all(buf, &list)
    }
}

/// Drawing a list of entries behind another one draws both.
pub proof fn law_lists_compose(
    first: Seq<PaintView>,
    second: Seq<PaintView>,
    cells: Seq<CellView>,
    area: CellRect,
    cursor: Option<(u16, u16)>,
)
    ensures
        ({
            let (middle, at) = applied_all(first, cells, area, cursor);
            applied_all(first + second, cells, area, cursor) == applied_all(second, middle, area, at)
        }),
    decreases second.len(),
{
    if second.len() == 0 {
        assert(first + second =~= first);
    } else {
        law_lists_compose(first, second.drop_last(), cells, area, cursor);
        assert((first + second).drop_last() =~= first + second.drop_last());
        assert((first + second).last() == second.last());
    }
}

/// A tree that is shown again as it was left applies no shift, reports nothing and
/// stays as it is.
pub proof fn law_rest_settles_nothing(node: NodeView, clip: CellRect, shift: (i32, i32))
    ensures
        ({
            let after = node.settled(clip, shift).node;
            after.settled(clip, shift) == (Settled { node: after, ops: seq![], reports: seq![] })
        }),
    decreases node,
{
    let after = node.settled(clip, shift).node;
    if !node.hidden(clip, shift) {
        match node.kind {
            KindView::Lazy { children, .. } => {
                lemma_rest_settles_nothing(children, Drawn::All, clip, shift);
            },
            KindView::Dynamic(slot) => {
                law_rest_settles_nothing(*slot, clip, shift);
            },
            _ => {
                lemma_rest_settles_nothing(
                    node.children,
                    node.drawn_children(),
                    node.inner_clip(clip, shift),
                    node.inner_shift(shift),
                );
                assert(after.drawn_children() == node.drawn_children());
                assert(after.inner_clip(clip, shift) == node.inner_clip(clip, shift));
                assert(after.inner_shift(shift) == node.inner_shift(shift));
                assert(after.own_settled(clip, shift).ops == Seq::<ScrollOp>::empty());
                assert(after.own_settled(clip, shift).reports == Seq::<(u32, ScrollMetrics)>::empty());
                assert(after.settled(clip, shift).ops =~= Seq::<ScrollOp>::empty());
                assert(after.settled(clip, shift).reports =~= Seq::<(u32, ScrollMetrics)>::empty());
            },
        }
    }
}

proof fn lemma_rest_settles_nothing(
    nodes: Seq<NodeView>,
    drawn: Drawn,
    clip: CellRect,
    shift: (i32, i32),
)
    ensures
        ({
            let after = all_settled(nodes, drawn, clip, shift).nodes;
            &&& after.len() == nodes.len()
            &&& all_settled(after, drawn, clip, shift) == (AllSettled {
                nodes: after,
                ops: seq![],
                reports: seq![],
            })
        }),
    decreases nodes,
{
    let after = all_settled(nodes, drawn, clip, shift).nodes;
    if nodes.len() > 0 {
        assert(decreases_to!(nodes => nodes.last()));
        assert(decreases_to!(nodes => nodes.drop_last()));
        law_rest_settles_nothing(nodes.last(), clip, shift);
        lemma_rest_settles_nothing(nodes.drop_last(), drawn, clip, shift);
        let front = all_settled(nodes.drop_last(), drawn, clip, shift).nodes;
        assert(after.drop_last() =~= front);
        assert(after.drop_last().push(after.last()) =~= after);
        let again = all_settled(after, drawn, clip, shift);
        assert(again.ops =~= Seq::<ScrollOp>::empty());
        assert(again.reports =~= Seq::<(u32, ScrollMetrics)>::empty());
    }
}

/// Two secrets of the same length look the same on screen.
pub proof fn law_secret_never_shows(
    node: NodeView,
    state: SecureView,
    secret: Seq<char>,
    ctx: DrawCtx,
    clip: CellRect,
    shift: (i32, i32),
)
    requires
        node.kind == KindView::Secure(state),
        secret.len() == state.value.len(),
    ensures
        node.painted(ctx, clip, shift) == (NodeView {
            kind: KindView::Secure(SecureView { value: secret, ..state }),
            ..node
        }).painted(ctx, clip, shift),
{
    let other = NodeView {
        kind: KindView::Secure(SecureView { value: secret, ..state }),
        ..node
    };
    assert(other.hidden(clip, shift) == node.hidden(clip, shift));
    assert(other.chrome(ctx, clip, shift) == node.chrome(ctx, clip, shift));
}

} // verus!
