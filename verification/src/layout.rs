//! Measuring and placing nodes.
//!
//! A node decides how it is measured and where its children go; containers leave both to
//! a layout of the host. Measuring and placing go one level at a time: the node says
//! which children it has to know the size of ([`Ask`]), the host measures them, and the
//! node takes the sizes and answers.

use vstd::prelude::*;

use crate::controls::{bordered, has_border, stepper_digits, value_columns, ProgressStyle};
use crate::geometry::{
    cols_between, cols_for, columns_between, rows_for, saturate, snapped, spec_cols, spec_rows, tick_difference, tick_larger,
    tick_max, tick_sum, to_cells, PointRect, PointSize, ProposalSize, LINE_HEIGHT, TICKS_PER_COL,
    TICKS_PER_POINT,
};
use crate::input::{selected_index, selected_tab};
use crate::node::{nodes_view, Kind, KindView, Node, NodeView};
use crate::render::shorter;
use crate::scroll::{ScrollAxis, ScrollState};
use crate::text::{chars_of, display_width, measure_text, paragraph_size, tick_product, width_of};

verus! {

/// The children that have to be measured: those from `from` on and before `to`.
#[derive(Clone, Copy, Debug, PartialEq, Eq, Structural)]
pub struct Ask {
    /// The first child.
    pub from: usize,
    /// The child behind the last one.
    pub to: usize,
    /// What is proposed to them.
    pub proposal: ProposalSize,
}

/// How a node measures.
#[derive(Clone, Copy, Debug, PartialEq, Eq, Structural)]
pub enum Measured {
    /// It has a size of its own.
    Size(PointSize),
    /// It measures as its layout says.
    ByLayout,
    /// It measures as what it contains; a node that contains nothing has no size.
    AsContent,
}

/// What is proposed to a label: one line, as wide as it likes.
pub open spec fn line_proposal() -> ProposalSize {
    ProposalSize { width: None, height: Some(LINE_HEIGHT) }
}

fn propose_line() -> (r: ProposalSize)
    ensures
        r == line_proposal(),
{
    ProposalSize { width: None, height: Some(LINE_HEIGHT) }
}

/// What a viewport proposes to its content: the directions that scroll are open.
pub open spec fn content_proposal(axis: ScrollAxis, width: Option<i64>, height: Option<i64>) -> ProposalSize {
    ProposalSize {
        width: if axis.moves_columns() { None } else { width },
        height: if axis.moves_rows() { None } else { height },
    }
}

fn propose_content(axis: ScrollAxis, width: Option<i64>, height: Option<i64>) -> (r: ProposalSize)
    ensures
        r == content_proposal(axis, width, height),
{
    ProposalSize {
        width: if axis.horizontal() { None } else { width },
        height: if axis.vertical() { None } else { height },
    }
}

/// Nobody.
pub open spec fn nobody(proposal: ProposalSize) -> Ask {
    Ask { from: 0, to: 0, proposal }
}

/// The first child, where there is one.
pub open spec fn first_of(count: nat, proposal: ProposalSize) -> Ask {
    Ask { from: 0, to: if count > 0 { 1 } else { 0 }, proposal }
}

fn ask_first(count: usize, proposal: ProposalSize) -> (r: Ask)
    ensures
        r == first_of(count as nat, proposal),
{
    Ask { from: 0, to: if count > 0 { 1 } else { 0 }, proposal }
}

/// A number of points in ticks.
pub open spec fn points(n: int) -> i64 {
    (n * TICKS_PER_POINT) as i64
}

/// A number of columns in ticks.
pub open spec fn columns(n: int) -> i64 {
    saturate(n * TICKS_PER_COL)
}

/// The widths of the first `n` sizes put together.
pub open spec fn widths(sizes: Seq<PointSize>, n: nat) -> i64
    decreases n,
{
    if n == 0 {
        0
    } else {
        saturate(widths(sizes, (n - 1) as nat) + sizes[n - 1].width)
    }
}

fn sum_widths(sizes: &Vec<PointSize>) -> (r: i64)
    ensures
        r == widths(sizes@, sizes@.len()),
{
    let mut total: i64 = 0;
    let mut i: usize = 0;
    while i < sizes.len()
        invariant
            i <= sizes@.len(),
            total == widths(sizes@, i as nat),
        decreases sizes@.len() - i,
    {
        total = tick_sum(total, sizes[i].width);
        i += 1;
    }
    total
}

/// The larger width and the larger height of the first `n` sizes.
pub open spec fn largest(sizes: Seq<PointSize>, n: nat) -> PointSize
    decreases n,
{
    if n == 0 {
        PointSize { width: 0, height: 0 }
    } else {
        let before = largest(sizes, (n - 1) as nat);
        PointSize {
            width: tick_larger(before.width, sizes[n - 1].width),
            height: tick_larger(before.height, sizes[n - 1].height),
        }
    }
}

fn find_largest(sizes: &Vec<PointSize>) -> (r: PointSize)
    ensures
        r == largest(sizes@, sizes@.len()),
{
    let mut found = PointSize { width: 0, height: 0 };
    let mut i: usize = 0;
    while i < sizes.len()
        invariant
            i <= sizes@.len(),
            found == largest(sizes@, i as nat),
        decreases sizes@.len() - i,
    {
        found = PointSize {
            width: tick_max(found.width, sizes[i].width),
            height: tick_max(found.height, sizes[i].height),
        };
        i += 1;
    }
    found
}

/// The size of the only child that was asked, or nothing at all.
pub open spec fn only(sizes: Seq<PointSize>) -> PointSize {
    if sizes.len() > 0 {
        sizes[0]
    } else {
        PointSize { width: 0, height: 0 }
    }
}

fn only_size(sizes: &Vec<PointSize>) -> (r: PointSize)
    ensures
        r == only(sizes@),
{
    if sizes.len() > 0 {
        sizes[0]
    } else {
        PointSize { width: 0, height: 0 }
    }
}

/// The height of a navigation bar: a title row and a rule, or nothing while hidden.
pub open spec fn bar_height(hidden: bool) -> i64 {
    if hidden {
        0
    } else {
        (2 * LINE_HEIGHT) as i64
    }
}

fn bar_of(hidden: bool) -> (r: i64)
    ensures
        r == bar_height(hidden),
{
    if hidden {
        0
    } else {
        2 * LINE_HEIGHT
    }
}

impl NodeView {
    /// Which children have to be measured before this node can be.
    pub open spec fn measuring(self, proposal: ProposalSize) -> Ask {
        let count = self.children.len();
        match self.kind {
            KindView::Button { .. } | KindView::Toggle { .. } => first_of(count, proposal),
            KindView::Slider { .. } | KindView::Progress { .. } => Ask {
                from: 0,
                to: count as usize,
                proposal: line_proposal(),
            },
            KindView::Stepper { .. } => first_of(count, line_proposal()),
            KindView::Scroll(state) => first_of(
                count,
                content_proposal(state.axis, proposal.width, proposal.height),
            ),
            KindView::Tabs { tabs, .. } => Ask {
                from: shorter(tabs.len(), count) as usize,
                to: count as usize,
                proposal,
            },
            KindView::NavBar { .. } => Ask {
                from: shorter(1, count) as usize,
                to: shorter(2, count) as usize,
                proposal,
            },
            _ => nobody(proposal),
        }
    }

    /// How this node measures, given the sizes of the children that were asked.
    pub open spec fn measured(self, proposal: ProposalSize, sizes: Seq<PointSize>) -> Measured {
        match self.kind {
            KindView::Empty => Measured::Size(PointSize { width: 0, height: 0 }),
            KindView::Text { content, line_limit, .. } => Measured::Size(
                paragraph_size(content, line_limit),
            ),
            KindView::Button { style, .. } => Measured::Size(
                if has_border(style) {
                    PointSize {
                        width: saturate(only(sizes).width + points(4)),
                        height: tick_larger(only(sizes).height, LINE_HEIGHT),
                    }
                } else {
                    only(sizes)
                },
            ),
            KindView::Toggle { .. } => Measured::Size(
                PointSize {
                    width: saturate(only(sizes).width + points(4)),
                    height: tick_larger(only(sizes).height, LINE_HEIGHT),
                },
            ),
            KindView::Field(state) => Measured::Size(
                PointSize {
                    width: saturate(
                        saturate(columns(display_width(state.label) as int) + points(2)) + tick_larger(
                            tick_larger(
                                columns(display_width(state.value) as int),
                                columns(display_width(state.prompt) as int),
                            ),
                            points(8),
                        ),
                    ),
                    height: LINE_HEIGHT,
                },
            ),
            KindView::Secure(state) => Measured::Size(
                PointSize {
                    width: saturate(
                        saturate(columns(display_width(state.label) as int) + points(2)) + tick_larger(
                            columns(state.value.len() as int),
                            points(8),
                        ),
                    ),
                    height: LINE_HEIGHT,
                },
            ),
            KindView::Slider { .. } => Measured::Size(
                PointSize {
                    width: saturate(widths(sizes, sizes.len()) + points(11)),
                    height: LINE_HEIGHT,
                },
            ),
            KindView::Stepper { low, high, .. } => Measured::Size(
                PointSize {
                    width: saturate(only(sizes).width + points(value_columns(low, high) + 10)),
                    height: LINE_HEIGHT,
                },
            ),
            KindView::Progress { .. } => Measured::Size(
                PointSize {
                    width: saturate(widths(sizes, sizes.len()) + points(12)),
                    height: LINE_HEIGHT,
                },
            ),
            KindView::Scroll(state) => {
                let open = content_proposal(state.axis, proposal.width, proposal.height);
                Measured::Size(
                    PointSize {
                        width: crate::geometry::proposed_or(open.width, only(sizes).width),
                        height: crate::geometry::proposed_or(open.height, only(sizes).height),
                    },
                )
            },
            KindView::Tabs { .. } => {
                let content = largest(sizes, sizes.len());
                Measured::Size(
                    PointSize {
                        width: crate::geometry::proposed_or(proposal.width, content.width),
                        height: crate::geometry::proposed_or(
                            proposal.height,
                            saturate(content.height + LINE_HEIGHT),
                        ),
                    },
                )
            },
            KindView::NavBar { hidden } => Measured::Size(
                PointSize {
                    width: crate::geometry::proposed_or(proposal.width, only(sizes).width),
                    height: crate::geometry::proposed_or(
                        proposal.height,
                        saturate(only(sizes).height + bar_height(hidden)),
                    ),
                },
            ),
            KindView::Divider { vertical } => Measured::Size(
                PointSize { width: if vertical { points(1) } else { 0 }, height: LINE_HEIGHT },
            ),
            KindView::Fill(_) | KindView::Gradient(_) | KindView::Gpu { .. } => Measured::Size(
                PointSize {
                    width: crate::geometry::proposed_or(proposal.width, 0),
                    height: crate::geometry::proposed_or(proposal.height, 0),
                },
            ),
            KindView::Container(_) | KindView::Lazy { .. } => Measured::ByLayout,
            KindView::Dynamic(_) | KindView::Background(_) => Measured::AsContent,
        }
    }
}

impl Node {
    /// Which children have to be measured before this node can be.
    pub fn ask_to_measure(&self, proposal: ProposalSize) -> (r: Ask)
        ensures
            r == self@.measuring(proposal),
            r.from <= r.to <= self.children@.len(),
    {
        let count: usize = self.children.len();
        match &self.kind {
            Kind::Button { .. } | Kind::Toggle { .. } => ask_first(count, proposal),
            Kind::Slider { .. } | Kind::Progress { .. } => Ask {
                from: 0,
                to: count,
                proposal: propose_line(),
            },
            Kind::Stepper { .. } => ask_first(count, propose_line()),
            Kind::Scroll(state) => ask_first(
                count,
                propose_content(state.axis, proposal.width, proposal.height),
            ),
            Kind::Tabs { tabs, .. } => Ask {
                from: if tabs.len() < count { tabs.len() } else { count },
                to: count,
                proposal,
            },
            Kind::NavBar { .. } => Ask {
                from: if count > 1 { 1 } else { count },
                to: if count > 2 { 2 } else { count },
                proposal,
            },
            _ => Ask { from: 0, to: 0, proposal },
        }
    }

    /// Measures the node, given the sizes of the children that it asked for.
    pub fn measure(&self, proposal: ProposalSize, sizes: &Vec<PointSize>) -> (r: Measured)
        requires
            sizes@.len() == self@.measuring(proposal).to - self@.measuring(proposal).from,
        ensures
            r == self@.measured(proposal, sizes@),
    {
        Measured::Size(
            match &self.kind {
                Kind::Empty => PointSize { width: 0, height: 0 },
                Kind::Text { content, line_limit, .. } => measure_text(content, *line_limit),
                Kind::Button { style, .. } => {
                    let label = only_size(sizes);
                    if bordered(*style) {
                        PointSize {
                            width: tick_sum(label.width, 4 * TICKS_PER_POINT),
                            height: tick_max(label.height, LINE_HEIGHT),
                        }
                    } else {
                        label
                    }
                },
                Kind::Toggle { .. } => {
                    let label = only_size(sizes);
                    PointSize {
                        width: tick_sum(label.width, 4 * TICKS_PER_POINT),
                        height: tick_max(label.height, LINE_HEIGHT),
                    }
                },
                Kind::Field(state) => {
                    let label: i64 = tick_product(width_of(state.label.as_str()), TICKS_PER_COL);
                    let value: i64 = tick_product(width_of(state.value.as_str()), TICKS_PER_COL);
                    let prompt: i64 = tick_product(width_of(state.prompt.as_str()), TICKS_PER_COL);
                    let content: i64 = tick_max(tick_max(value, prompt), 8 * TICKS_PER_POINT);
                    PointSize {
                        width: tick_sum(tick_sum(label, 2 * TICKS_PER_POINT), content),
                        height: LINE_HEIGHT,
                    }
                },
                Kind::Secure(state) => {
                    let label: i64 = tick_product(width_of(state.label.as_str()), TICKS_PER_COL);
                    let count: usize = chars_of(state.value.as_str()).len();
                    let content: i64 = tick_max(tick_product(count, TICKS_PER_COL), 8 * TICKS_PER_POINT);
                    PointSize {
                        width: tick_sum(tick_sum(label, 2 * TICKS_PER_POINT), content),
                        height: LINE_HEIGHT,
                    }
                },
                Kind::Slider { .. } => PointSize {
                    width: tick_sum(sum_widths(sizes), 11 * TICKS_PER_POINT),
                    height: LINE_HEIGHT,
                },
                Kind::Stepper { low, high, .. } => {
                    let kept: i64 = stepper_digits(*low, *high) as i64;
                    PointSize {
                        width: tick_sum(only_size(sizes).width, (kept + 10) * TICKS_PER_POINT),
                        height: LINE_HEIGHT,
                    }
                },
                Kind::Progress { .. } => PointSize {
                    width: tick_sum(sum_widths(sizes), 12 * TICKS_PER_POINT),
                    height: LINE_HEIGHT,
                },
                Kind::Scroll(state) => {
                    let open = propose_content(state.axis, proposal.width, proposal.height);
                    let natural = only_size(sizes);
                    PointSize {
                        width: open.width_or(natural.width),
                        height: open.height_or(natural.height),
                    }
                },
                Kind::Tabs { .. } => {
                    let content = find_largest(sizes);
                    PointSize {
                        width: proposal.width_or(content.width),
                        height: proposal.height_or(tick_sum(content.height, LINE_HEIGHT)),
                    }
                },
                Kind::NavBar { hidden } => {
                    let content = only_size(sizes);
                    PointSize {
                        width: proposal.width_or(content.width),
                        height: proposal.height_or(tick_sum(content.height, bar_of(*hidden))),
                    }
                },
                Kind::Divider { vertical } => PointSize {
                    width: if *vertical { TICKS_PER_POINT } else { 0 },
                    height: LINE_HEIGHT,
                },
                Kind::Fill(_) | Kind::Gradient(_) | Kind::Gpu { .. } => PointSize {
                    width: proposal.width_or(0),
                    height: proposal.height_or(0),
                },
                Kind::Container(_) | Kind::Lazy(_) => {
                    return Measured::ByLayout;
                },
                Kind::Dynamic(_) | Kind::Background(_) => {
                    return Measured::AsContent;
                },
            },
        )
    }
}

// ---- Placing ----------------------------------------------------------------------

/// A rectangle one line high.
pub open spec fn line_at(x: i64, y: i64, width: i64) -> PointRect {
    PointRect { x, y, width, height: LINE_HEIGHT }
}

/// A rectangle without its first `inset` ticks on the left.
pub open spec fn inset_left(frame: PointRect, inset: i64) -> PointRect {
    PointRect {
        x: saturate(frame.x + inset),
        y: frame.y,
        width: tick_larger(saturate(frame.width - inset), 0),
        height: tick_larger(frame.height, 0),
    }
}

fn cut_left(frame: PointRect, inset: i64) -> (r: PointRect)
    ensures
        r == inset_left(frame, inset),
{
    PointRect {
        x: tick_sum(frame.x, inset),
        y: frame.y,
        width: tick_max(tick_difference(frame.width, inset), 0),
        height: tick_max(frame.height, 0),
    }
}

/// Where item `i` of a row starts: the items before it and a gap behind each.
pub open spec fn flow_x(x: i64, sizes: Seq<PointSize>, gap: i64, i: nat) -> i64
    decreases i,
{
    if i == 0 {
        x
    } else {
        saturate(flow_x(x, sizes, gap, (i - 1) as nat) + saturate(sizes[i - 1].width + gap))
    }
}

/// The first `n` items of a row.
pub open spec fn flow(x: i64, y: i64, sizes: Seq<PointSize>, gap: i64, n: nat) -> Seq<PointRect> {
    Seq::new(n, |i: int| line_at(flow_x(x, sizes, gap, i as nat), y, sizes[i].width))
}

/// Places the first `n` items of a row; returns where the next one would start.
fn place_row(out: &mut Vec<PointRect>, x: i64, y: i64, sizes: &Vec<PointSize>, gap: i64, n: usize) -> (r: i64)
    requires
        n <= sizes@.len(),
    ensures
        final(out)@ == old(out)@ + flow(x, y, sizes@, gap, n as nat),
        r == flow_x(x, sizes@, gap, n as nat),
{
    let mut at: i64 = x;
    let mut i: usize = 0;
    assert(out@ =~= old(out)@ + flow(x, y, sizes@, gap, 0));
    while i < n
        invariant
            i <= n <= sizes@.len(),
            at == flow_x(x, sizes@, gap, i as nat),
            out@ == old(out)@ + flow(x, y, sizes@, gap, i as nat),
        decreases n - i,
    {
        out.push(PointRect { x: at, y, width: sizes[i].width, height: LINE_HEIGHT });
        at = tick_sum(at, tick_sum(sizes[i].width, gap));
        i += 1;
        assert(out@ =~= old(out)@ + flow(x, y, sizes@, gap, i as nat));
    }
    at
}

/// The columns between the leading labels of a control and the trailing one.
pub open spec fn gap_columns(frame: PointRect, sizes: Seq<PointSize>) -> (u16, u16) {
    let x = leading_end(frame, sizes);
    let from = spec_cols(x);
    let to = spec_cols(trailing_x(frame, sizes));
    (from, if to > from { to } else { from })
}

/// Where the leading labels of a control end.
pub open spec fn leading_end(frame: PointRect, sizes: Seq<PointSize>) -> i64 {
    flow_x(frame.x, sizes, points(1), (if sizes.len() > 0 { sizes.len() - 1 } else { 0 }) as nat)
}

/// Where the trailing label of a control starts: it hugs the right edge, behind the
/// leading ones.
pub open spec fn trailing_x(frame: PointRect, sizes: Seq<PointSize>) -> i64 {
    let width = if sizes.len() > 0 { sizes.last().width } else { 0 };
    tick_larger(saturate(saturate(frame.x + frame.width) - width), leading_end(frame, sizes))
}

/// The labels of a control: leading ones from the left edge, one trailing label at the
/// right edge.
pub open spec fn labels_around(frame: PointRect, sizes: Seq<PointSize>) -> Seq<PointRect> {
    if sizes.len() == 0 {
        seq![]
    } else {
        flow(frame.x, frame.y, sizes, points(1), (sizes.len() - 1) as nat).push(
            line_at(trailing_x(frame, sizes), frame.y, sizes.last().width),
        )
    }
}

fn place_around(out: &mut Vec<PointRect>, frame: PointRect, sizes: &Vec<PointSize>) -> (r: (u16, u16))
    ensures
        final(out)@ == old(out)@ + labels_around(frame, sizes@),
        r == gap_columns(frame, sizes@),
{
    let n: usize = sizes.len();
    let leading: usize = if n > 0 { n - 1 } else { 0 };
    let x: i64 = place_row(out, frame.x, frame.y, sizes, TICKS_PER_POINT, leading);
    let width: i64 = if n > 0 { sizes[n - 1].width } else { 0 };
    let at: i64 = tick_max(tick_difference(tick_sum(frame.x, frame.width), width), x);
    if n > 0 {
        out.push(PointRect { x: at, y: frame.y, width, height: LINE_HEIGHT });
    }
    assert(out@ =~= old(out)@ + labels_around(frame, sizes@));
    let from: u16 = cols_for(x);
    let to: u16 = cols_for(at);
    (from, if to > from { to } else { from })
}

/// The size of a viewport's content: at least the viewport, and as large as it likes in
/// the directions that scroll.
pub open spec fn content_size(axis: ScrollAxis, frame: PointRect, natural: PointSize) -> PointSize {
    PointSize {
        width: if axis.moves_columns() {
            tick_larger(natural.width, frame.width)
        } else {
            frame.width
        },
        height: if axis.moves_rows() {
            tick_larger(natural.height, frame.height)
        } else {
            frame.height
        },
    }
}

fn size_content(axis: ScrollAxis, frame: PointRect, natural: PointSize) -> (r: PointSize)
    ensures
        r == content_size(axis, frame, natural),
{
    PointSize {
        width: if axis.horizontal() { tick_max(natural.width, frame.width) } else { frame.width },
        height: if axis.vertical() { tick_max(natural.height, frame.height) } else { frame.height },
    }
}

/// The rectangle below the first `bar` ticks.
pub open spec fn below(frame: PointRect, bar: i64) -> PointRect {
    PointRect {
        x: frame.x,
        y: saturate(frame.y + bar),
        width: frame.width,
        height: tick_larger(saturate(frame.height - bar), 0),
    }
}

fn cut_top(frame: PointRect, bar: i64) -> (r: PointRect)
    ensures
        r == below(frame, bar),
{
    PointRect {
        x: frame.x,
        y: tick_sum(frame.y, bar),
        width: frame.width,
        height: tick_max(tick_difference(frame.height, bar), 0),
    }
}

/// The frames of a tab bar's children: labels in a row, then the contents, of which only
/// the selected one has any room.
pub open spec fn tab_frames(
    frame: PointRect,
    sizes: Seq<PointSize>,
    labels: nat,
    selected: int,
    count: nat,
) -> Seq<PointRect> {
    Seq::new(
        count,
        |i: int|
            if i < labels {
                line_at(flow_x(frame.x, sizes, points(2), i as nat), frame.y, sizes[i].width)
            } else if i - labels == selected {
                below(frame, LINE_HEIGHT)
            } else {
                PointRect {
                    x: frame.x,
                    y: saturate(frame.y + LINE_HEIGHT),
                    width: 0,
                    height: 0,
                }
            },
    )
}

impl NodeView {
    /// The frame with the node's visual offset applied.
    pub open spec fn moved(self, frame: PointRect) -> PointRect {
        PointRect {
            x: saturate(frame.x + self.offset.0),
            y: saturate(frame.y + self.offset.1),
            ..frame
        }
    }

    /// Which children have to be measured before this node can place them.
    pub open spec fn placing(self, frame: PointRect) -> Ask {
        let count = self.children.len();
        match self.kind {
            KindView::Slider { .. } | KindView::Progress { .. } => Ask {
                from: 0,
                to: count as usize,
                proposal: line_proposal(),
            },
            KindView::Stepper { .. } => first_of(count, line_proposal()),
            KindView::Scroll(state) => first_of(
                count,
                content_proposal(state.axis, Some(frame.width), Some(frame.height)),
            ),
            KindView::Tabs { tabs, .. } => Ask {
                from: 0,
                to: shorter(tabs.len(), count) as usize,
                proposal: line_proposal(),
            },
            _ => nobody(line_proposal()),
        }
    }

    /// The frames of what the node contains, one for each from the first one on.
    /// `frame` has the node's offset applied, `sizes` are those of the children that
    /// were asked, and `placed` is what a layout says.
    pub open spec fn inner_frames(
        self,
        frame: PointRect,
        sizes: Seq<PointSize>,
        placed: Seq<PointRect>,
    ) -> Seq<PointRect> {
        let count = self.children.len();
        match self.kind {
            KindView::Container(_) => placed.take(shorter(placed.len(), count) as int),
            KindView::Lazy { children, .. } => placed.take(
                shorter(placed.len(), children.len()) as int,
            ),
            KindView::Dynamic(_) => seq![frame],
            KindView::Background(_) => Seq::new(count, |i: int| frame),
            KindView::Button { style, .. } => if count > 0 {
                seq![inset_left(frame, if has_border(style) { points(2) } else { 0 })]
            } else {
                seq![]
            },
            KindView::Toggle { .. } => if count > 0 {
                seq![inset_left(frame, points(4))]
            } else {
                seq![]
            },
            KindView::Slider { .. } => labels_around(frame, sizes),
            KindView::Progress { style, .. } => if style == ProgressStyle::Linear {
                labels_around(frame, sizes)
            } else {
                flow(saturate(frame.x + points(2)), frame.y, sizes, points(1), sizes.len())
            },
            KindView::Stepper { .. } => if count > 0 {
                seq![line_at(frame.x, frame.y, sizes[0].width)]
            } else {
                seq![]
            },
            KindView::Scroll(state) => if count > 0 {
                let size = content_size(state.axis, frame, sizes[0]);
                seq![PointRect { x: frame.x, y: frame.y, width: size.width, height: size.height }]
            } else {
                seq![]
            },
            KindView::Tabs { selection, tabs } => tab_frames(
                frame,
                sizes,
                tabs.len(),
                selected_tab(tabs, selection),
                count,
            ),
            KindView::NavBar { hidden } => seq![
                PointRect { x: frame.x, y: frame.y, width: frame.width, height: bar_height(hidden) },
                below(frame, bar_height(hidden)),
            ].take(shorter(2, count) as int),
            _ => seq![],
        }
    }

    /// The node after it was placed in `frame`: its cells, and what its control
    /// derives from the sizes of its labels or its content.
    pub open spec fn framed(self, frame: PointRect, sizes: Seq<PointSize>) -> NodeView {
        let moved = self.moved(frame);
        NodeView {
            frame: snapped(moved),
            kind: match self.kind {
                KindView::Slider { value, .. } => KindView::Slider {
                    value,
                    track: gap_columns(moved, sizes),
                },
                KindView::Progress { value, style, .. } => KindView::Progress {
                    value,
                    style,
                    bar: if style == ProgressStyle::Linear {
                        gap_columns(moved, sizes)
                    } else {
                        (0, 0)
                    },
                },
                KindView::Scroll(state) => if self.children.len() > 0 {
                    let size = content_size(state.axis, moved, sizes[0]);
                    KindView::Scroll(
                        ScrollState {
                            extent: (
                                columns_between(moved.x, size.width),
                                spec_rows(size.height),
                            ),
                            ..state
                        },
                    )
                } else {
                    self.kind
                },
                other => other,
            },
            ..self
        }
    }
}

fn place_tabs(
    out: &mut Vec<PointRect>,
    frame: PointRect,
    sizes: &Vec<PointSize>,
    labels: usize,
    selected: usize,
    count: usize,
)
    requires
        sizes@.len() == shorter(labels as nat, count as nat),
        old(out)@.len() == 0,
    ensures
        final(out)@ == tab_frames(frame, sizes@, labels as nat, selected as int, count as nat),
{
    let ghost all = tab_frames(frame, sizes@, labels as nat, selected as int, count as nat);
    place_row(out, frame.x, frame.y, sizes, 2 * TICKS_PER_POINT, sizes.len());
    let content = cut_top(frame, LINE_HEIGHT);
    let mut i: usize = sizes.len();
    assert(out@ =~= all.take(i as int));
    while i < count
        invariant
            sizes@.len() == shorter(labels as nat, count as nat),
            sizes@.len() <= i <= count,
            i < count ==> labels <= i,
            content == below(frame, LINE_HEIGHT),
            all == tab_frames(frame, sizes@, labels as nat, selected as int, count as nat),
            out@ == all.take(i as int),
        decreases count - i,
    {
        if i - labels == selected {
            out.push(content);
        } else {
            out.push(PointRect { x: frame.x, y: content.y, width: 0, height: 0 });
        }
        i += 1;
        assert(out@ =~= all.take(i as int));
    }
    assert(all.take(i as int) =~= all);
}

fn repeat_frame(out: &mut Vec<PointRect>, frame: PointRect, count: usize)
    requires
        old(out)@.len() == 0,
    ensures
        final(out)@ == Seq::new(count as nat, |i: int| frame),
{
    while out.len() < count
        invariant
            out@.len() <= count,
            out@ == Seq::new(out@.len(), |i: int| frame),
        decreases count - out@.len(),
    {
        out.push(frame);
        assert(out@ =~= Seq::new(out@.len(), |i: int| frame));
    }
}

fn copy_frames(out: &mut Vec<PointRect>, placed: &Vec<PointRect>, count: usize)
    requires
        old(out)@.len() == 0,
    ensures
        final(out)@ == placed@.take(shorter(placed@.len(), count as nat) as int),
{
    let mut i: usize = 0;
    while i < placed.len() && i < count
        invariant
            i <= placed@.len(),
            i <= count,
            out@ == placed@.take(i as int),
        decreases placed@.len() - i,
    {
        out.push(placed[i]);
        i += 1;
        assert(out@ =~= placed@.take(i as int));
    }
}

impl Node {
    /// Which children have to be measured before this node can place them.
    pub fn ask_to_place(&self, frame: PointRect) -> (r: Ask)
        ensures
            r == self@.placing(frame),
            r.from <= r.to <= self.children@.len(),
    {
        let count: usize = self.children.len();
        match &self.kind {
            Kind::Slider { .. } | Kind::Progress { .. } => Ask {
                from: 0,
                to: count,
                proposal: propose_line(),
            },
            Kind::Stepper { .. } => ask_first(count, propose_line()),
            Kind::Scroll(state) => ask_first(
                count,
                propose_content(state.axis, Some(frame.width), Some(frame.height)),
            ),
            Kind::Tabs { tabs, .. } => Ask {
                from: 0,
                to: if tabs.len() < count { tabs.len() } else { count },
                proposal: propose_line(),
            },
            _ => Ask { from: 0, to: 0, proposal: propose_line() },
        }
    }

    /// The frame with the node's visual offset applied: what the host's layout places
    /// the children of a container in.
    pub fn shifted(&self, frame: PointRect) -> (r: PointRect)
        ensures
            r == self@.moved(frame),
    {
        PointRect {
            x: tick_sum(frame.x, self.offset.0),
            y: tick_sum(frame.y, self.offset.1),
            width: frame.width,
            height: frame.height,
        }
    }

    /// Assigns a frame to the node, snaps it to cells, and returns the frames of what
    /// the node contains, from the first one on. `sizes` are the sizes of the children
    /// that the node asked for; `placed` is where the host's layout puts the children of
    /// a container.
    pub fn set_frame(
        &mut self,
        frame: PointRect,
        sizes: &Vec<PointSize>,
        placed: &Vec<PointRect>,
    ) -> (r: Vec<PointRect>)
        requires
            sizes@.len() == old(self)@.placing(frame).to,
        ensures
            final(self)@ == old(self)@.framed(frame, sizes@),
            r@ == old(self)@.inner_frames(old(self)@.moved(frame), sizes@, placed@),
    {
        let moved = self.shifted(frame);
        self.frame = to_cells(moved);
        let count: usize = self.children.len();
        let mut out: Vec<PointRect> = Vec::new();
        match &mut self.kind {
            Kind::Container(_) => {
                copy_frames(&mut out, placed, count);
            },
            Kind::Lazy(state) => {
                copy_frames(&mut out, placed, state.children.len());
                assert(nodes_view(state.children@).len() == state.children@.len());
            },
            Kind::Dynamic(_) => {
                out.push(moved);
            },
            Kind::Background(_) => {
                repeat_frame(&mut out, moved, count);
            },
            Kind::Button { style, .. } => {
                let inset: i64 = if bordered(*style) { 2 * TICKS_PER_POINT } else { 0 };
                if count > 0 {
                    out.push(cut_left(moved, inset));
                }
            },
            Kind::Toggle { .. } => {
                if count > 0 {
                    out.push(cut_left(moved, 4 * TICKS_PER_POINT));
                }
            },
            Kind::Slider { track, .. } => {
                *track = place_around(&mut out, moved, sizes);
            },
            Kind::Progress { style, bar, .. } => {
                if *style == ProgressStyle::Linear {
                    *bar = place_around(&mut out, moved, sizes);
                } else {
                    let x: i64 = tick_sum(moved.x, 2 * TICKS_PER_POINT);
                    place_row(&mut out, x, moved.y, sizes, TICKS_PER_POINT, sizes.len());
                    *bar = (0, 0);
                }
            },
            Kind::Stepper { .. } => {
                if count > 0 {
                    out.push(
                        PointRect { x: moved.x, y: moved.y, width: sizes[0].width, height: LINE_HEIGHT },
                    );
                }
            },
            Kind::Scroll(state) => {
                if count > 0 {
                    let size = size_content(state.axis, moved, sizes[0]);
                    out.push(
                        PointRect { x: moved.x, y: moved.y, width: size.width, height: size.height },
                    );
                    state.extent = (cols_between(moved.x, size.width), rows_for(size.height));
                }
            },
            Kind::Tabs { selection, tabs } => {
                let selected: usize = selected_index(tabs, *selection);
                place_tabs(&mut out, moved, sizes, tabs.len(), selected, count);
            },
            Kind::NavBar { hidden } => {
                let bar: i64 = bar_of(*hidden);
                if count > 0 {
                    out.push(PointRect { x: moved.x, y: moved.y, width: moved.width, height: bar });
                }
                if count > 1 {
                    out.push(cut_top(moved, bar));
                }
            },
            _ => {},
        }
        assert(out@ =~= old(self)@.inner_frames(moved, sizes@, placed@));
        out
    }
}

/// A visual offset moves a node without affecting how it is measured or how much room
/// it takes.
pub proof fn law_offset_is_only_visual(
    node: NodeView,
    offset: (i64, i64),
    proposal: ProposalSize,
    sizes: Seq<PointSize>,
    frame: PointRect,
)
    ensures
        ({
            let other = NodeView { offset, ..node };
            &&& other.measuring(proposal) == node.measuring(proposal)
            &&& other.measured(proposal, sizes) == node.measured(proposal, sizes)
            &&& other.placing(frame) == node.placing(frame)
            &&& other.moved(frame).width == node.moved(frame).width
            &&& other.moved(frame).height == node.moved(frame).height
        }),
{
}

/// Of the contents of a tab bar only the selected one gets any room.
pub proof fn law_only_the_selected_tab_has_room(
    node: NodeView,
    frame: PointRect,
    sizes: Seq<PointSize>,
    placed: Seq<PointRect>,
    i: int,
)
    requires
        node.kind is Tabs,
        node.kind->tabs.len() <= i < node.children.len(),
        i - node.kind->tabs.len() != selected_tab(node.kind->tabs, node.kind->selection),
    ensures
        ({
            let rect = node.inner_frames(frame, sizes, placed)[i];
            rect.width == 0 && rect.height == 0
        }),
{
}

/// The content of a viewport is never smaller than the viewport.
pub proof fn law_content_covers_the_viewport(axis: ScrollAxis, frame: PointRect, natural: PointSize)
    ensures
        content_size(axis, frame, natural).width >= frame.width,
        content_size(axis, frame, natural).height >= frame.height,
{
}

/// In cells too the content of a viewport is never smaller than the viewport, and it is as
/// large as the viewport in a direction that does not scroll, wherever the viewport lies; only
/// the end of the grid cuts the viewport and not its content. The offset stays as it is, and the
/// content is placed where the viewport is.
pub proof fn law_extent_covers_the_viewport(
    node: NodeView,
    frame: PointRect,
    sizes: Seq<PointSize>,
    placed: Seq<PointRect>,
)
    requires
        node.kind is Scroll,
        node.children.len() > 0,
    ensures
        ({
            let after = node.framed(frame, sizes);
            let moved = node.moved(frame);
            let content = node.inner_frames(moved, sizes, placed)[0];
            &&& node.kind matches KindView::Scroll(was)
            &&& after.kind matches KindView::Scroll(is)
            &&& after.frame.width <= is.extent.0
            &&& after.frame.height <= is.extent.1
            &&& !was.axis.moves_columns() && after.frame.x + is.extent.0 <= u16::MAX
                ==> after.frame.width == is.extent.0
            &&& !was.axis.moves_rows() && after.frame.y + is.extent.1 <= u16::MAX
                ==> after.frame.height == is.extent.1
            &&& is.offset == was.offset
            &&& content.x == moved.x && content.y == moved.y
            &&& is.extent == (columns_between(content.x, content.width), spec_rows(content.height))
        }),
{
    if let KindView::Scroll(state) = node.kind {
        let moved = node.moved(frame);
        law_content_covers_the_viewport(state.axis, moved, sizes[0]);
    }
}

/// Placing a node twice in the same frame changes nothing: it asks for the same sizes, keeps its
/// cells, and hands out the same frames.
pub proof fn law_placing_again_changes_nothing(
    node: NodeView,
    frame: PointRect,
    sizes: Seq<PointSize>,
    placed: Seq<PointRect>,
)
    ensures
        ({
            let once = node.framed(frame, sizes);
            &&& once.framed(frame, sizes) == once
            &&& once.placing(frame) == node.placing(frame)
            &&& once.moved(frame) == node.moved(frame)
            &&& once.inner_frames(once.moved(frame), sizes, placed) == node.inner_frames(
                node.moved(frame),
                sizes,
                placed,
            )
        }),
{
}

} // verus!
