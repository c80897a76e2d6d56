//! Layout: what a node asks for is what it needs, and what it is given it hands on.

use vstd::prelude::*;

use crate::controls::{value_columns, ButtonStyle, ProgressStyle};
use crate::geometry::{
    spec_cols, PointRect, PointSize, ProposalSize, LINE_HEIGHT, TICKS_PER_COL, TICKS_PER_POINT,
    TICKS_PER_ROW,
};
use crate::input::selected_tab;
use crate::layout::{flow_x, largest, widths, Ask, Measured};
use crate::node::{KindView, NodeView};
use crate::scroll::ScrollAxis;
use crate::text::display_width;

verus! {

/// A length that is far from the ends of what can be counted.
pub open spec fn modest(v: int) -> bool {
    -0x1000_0000_0000 <= v <= 0x1000_0000_0000
}

/// A size that is not negative and far from the ends of what can be counted.
pub open spec fn modest_size(size: PointSize) -> bool {
    &&& 0 <= size.width && modest(size.width as int)
    &&& 0 <= size.height && modest(size.height as int)
}

/// The frame at `(x, y)` that is as large as a node measures.
pub open spec fn natural_frame(x: i64, y: i64, size: PointSize) -> PointRect {
    PointRect { x, y, width: size.width, height: size.height }
}

/// Whether a rectangle has room for a size.
pub open spec fn has_room_for(rect: PointRect, size: PointSize) -> bool {
    rect.width >= size.width && rect.height >= size.height
}

/// One point is one column, and eight points are one row and one line.
pub proof fn law_points_and_cells()
    ensures
        TICKS_PER_POINT == 65536,
        TICKS_PER_COL == 65536,
        TICKS_PER_ROW == 8 * 65536,
        LINE_HEIGHT == 8 * 65536,
{
}

// ---- Controls and their labels ----------------------------------------------------

/// A toggle that gets the size it measures has room for its mark of three columns, a blank, and
/// the whole of its label.
pub proof fn law_toggle_has_room_for_mark_and_label(
    node: NodeView,
    proposal: ProposalSize,
    label: PointSize,
    x: i64,
    y: i64,
    placed: Seq<PointRect>,
)
    requires
        node.kind is Toggle,
        node.children.len() > 0,
        modest_size(label),
        modest(x as int),
        modest(y as int),
    ensures
        node.measuring(proposal) == (Ask { from: 0, to: 1, proposal }),
        ({
            let size = node.measured(proposal, seq![label])->Size_0;
            let frame = natural_frame(x, y, size);
            let inner = node.inner_frames(frame, seq![], placed);
            &&& node.measured(proposal, seq![label]) is Size
            &&& size.height >= 8 * 65536
            &&& size.width == label.width + 4 * 65536
            &&& inner.len() == 1
            &&& has_room_for(inner[0], label)
            &&& inner[0].x == x + 4 * 65536 && inner[0].y == y
            &&& inner[0].x + inner[0].width == x + size.width
        }),
{
}

/// A button that gets the size it measures has room for its label, and, where it has brackets,
/// for a bracket and a blank on either side of it. Without brackets it is as large as its label.
pub proof fn law_button_has_room_for_brackets_and_label(
    node: NodeView,
    style: ButtonStyle,
    action: u32,
    proposal: ProposalSize,
    label: PointSize,
    x: i64,
    y: i64,
    placed: Seq<PointRect>,
)
    requires
        node.kind == (KindView::Button { action, style }),
        node.children.len() > 0,
        modest_size(label),
        modest(x as int),
        modest(y as int),
    ensures
        node.measuring(proposal) == (Ask { from: 0, to: 1, proposal }),
        ({
            let plain = style == ButtonStyle::Plain || style == ButtonStyle::Borderless || style
                == ButtonStyle::Link;
            let size = node.measured(proposal, seq![label])->Size_0;
            let frame = natural_frame(x, y, size);
            let inner = node.inner_frames(frame, seq![], placed);
            &&& node.measured(proposal, seq![label]) is Size
            &&& inner.len() == 1
            &&& has_room_for(inner[0], label)
            &&& inner[0].y == y
            &&& plain ==> size == label && inner[0] == frame
            &&& !plain ==> {
                &&& size.width == label.width + 4 * 65536
                &&& size.height >= 8 * 65536
                &&& inner[0].x == x + 2 * 65536
                &&& inner[0].x + label.width + 2 * 65536 == x + size.width
            }
        }),
{
}

/// A stepper that gets the width it measures has room for its label, two blanks, and both buttons
/// around the longer end of its range.
pub proof fn law_stepper_has_room_for_label_and_group(
    node: NodeView,
    low: i32,
    high: i32,
    value: i32,
    step: i32,
    formatter: Option<Seq<char>>,
    proposal: ProposalSize,
    label: PointSize,
    x: i64,
    y: i64,
    placed: Seq<PointRect>,
)
    requires
        node.kind == (KindView::Stepper { value, step, low, high, formatter }),
        node.children.len() > 0,
        modest_size(label),
        modest(x as int),
        1 <= value_columns(low, high) <= 11,
    ensures
        ({
            let size = node.measured(proposal, seq![label])->Size_0;
            let frame = natural_frame(x, y, size);
            let inner = node.inner_frames(frame, seq![label], placed);
            let line = ProposalSize { width: None, height: Some((8 * 65536) as i64) };
            &&& node.measured(proposal, seq![label]) is Size
            &&& node.measuring(proposal) == (Ask { from: 0, to: 1, proposal: line })
            &&& node.placing(frame) == (Ask { from: 0, to: 1, proposal: line })
            &&& size.height == 8 * 65536
            &&& inner.len() == 1
            &&& inner[0] == (PointRect { x, y, width: label.width, height: (8 * 65536) as i64 })
            &&& x + label.width + 2 * 65536 + (value_columns(low, high) + 8) * 65536 == x
                + size.width
        }),
{
}

/// A slider that gets the width it measures shows its three labels in their width, the first two
/// from the left edge with a column between them, the last one up to the right edge, and has a
/// track of at least nine columns between them.
pub proof fn law_slider_has_room_for_labels_and_track(
    node: NodeView,
    proposal: ProposalSize,
    sizes: Seq<PointSize>,
    x: i64,
    y: i64,
    placed: Seq<PointRect>,
)
    requires
        node.kind is Slider,
        node.children.len() == 3,
        sizes.len() == 3,
        modest_size(sizes[0]),
        modest_size(sizes[1]),
        modest_size(sizes[2]),
        modest(x as int),
        node.offset == (0i64, 0i64),
    ensures
        ({
            let size = node.measured(proposal, sizes)->Size_0;
            let frame = natural_frame(x, y, size);
            let inner = node.inner_frames(frame, sizes, placed);
            let line = ProposalSize { width: None, height: Some((8 * 65536) as i64) };
            &&& node.measured(proposal, sizes) is Size
            &&& node.measuring(proposal) == (Ask { from: 0, to: 3, proposal: line })
            &&& node.placing(frame) == (Ask { from: 0, to: 3, proposal: line })
            &&& size.height == 8 * 65536
            &&& size.width == sizes[0].width + sizes[1].width + sizes[2].width + 11 * 65536
            &&& inner.len() == 3
            &&& forall|i: int| 0 <= i < 3 ==> (#[trigger] inner[i]).width == sizes[i].width
            &&& forall|i: int|
                0 <= i < 3 ==> (#[trigger] inner[i]).y == y && inner[i].height == 8 * 65536
            &&& inner[0].x == x
            &&& inner[1].x == inner[0].x + inner[0].width + 65536
            &&& inner[2].x + inner[2].width == x + size.width
            &&& inner[1].x + inner[1].width + 10 * 65536 == inner[2].x
            &&& node.framed(frame, sizes).kind matches KindView::Slider { value, track }
            &&& value == node.kind->Slider_value
            &&& track.0 == spec_cols((inner[1].x + inner[1].width + 65536) as i64)
            &&& track.1 == spec_cols(inner[2].x)
        }),
{
    reveal_with_fuel(widths, 4);
    reveal_with_fuel(flow_x, 4);
    let size = node.measured(proposal, sizes)->Size_0;
    let frame = natural_frame(x, y, size);
    let inner = node.inner_frames(frame, sizes, placed);
    assert(inner[0].width == sizes[0].width);
    assert(inner[1].width == sizes[1].width);
    assert(inner[2].width == sizes[2].width);
    assert(inner.len() == 3);
}

/// A progress indicator that gets the width it measures shows both labels in their width. A bar
/// lies between them, in at least ten columns; a ring or a spinner stands before them, with a
/// column free behind it.
pub proof fn law_progress_has_room_for_labels_and_bar(
    node: NodeView,
    style: ProgressStyle,
    value: u32,
    bar: (u16, u16),
    proposal: ProposalSize,
    sizes: Seq<PointSize>,
    x: i64,
    y: i64,
    placed: Seq<PointRect>,
)
    requires
        node.kind == (KindView::Progress { value, style, bar }),
        node.children.len() == 2,
        sizes.len() == 2,
        modest_size(sizes[0]),
        modest_size(sizes[1]),
        modest(x as int),
        node.offset == (0i64, 0i64),
    ensures
        ({
            let size = node.measured(proposal, sizes)->Size_0;
            let frame = natural_frame(x, y, size);
            let inner = node.inner_frames(frame, sizes, placed);
            let line = ProposalSize { width: None, height: Some((8 * 65536) as i64) };
            &&& node.measured(proposal, sizes) is Size
            &&& node.measuring(proposal) == (Ask { from: 0, to: 2, proposal: line })
            &&& node.placing(frame) == (Ask { from: 0, to: 2, proposal: line })
            &&& size.height == 8 * 65536
            &&& size.width == sizes[0].width + sizes[1].width + 12 * 65536
            &&& inner.len() == 2
            &&& inner[0].width == sizes[0].width && inner[1].width == sizes[1].width
            &&& inner[0].height == 8 * 65536 && inner[1].height == 8 * 65536
            &&& inner[0].y == y && inner[1].y == y
            &&& inner[1].x + inner[1].width <= x + size.width
            &&& node.framed(frame, sizes).kind matches KindView::Progress {
                value: kept,
                style: same,
                bar: filled,
            }
            &&& kept == value && same == style
            &&& style == ProgressStyle::Linear ==> {
                &&& inner[0].x == x
                &&& inner[1].x + inner[1].width == x + size.width
                &&& inner[0].x + inner[0].width + 12 * 65536 == inner[1].x
                &&& filled.0 == spec_cols((inner[0].x + inner[0].width + 65536) as i64)
                &&& filled.1 == spec_cols(inner[1].x)
            }
            &&& style != ProgressStyle::Linear ==> {
                &&& inner[0].x == x + 2 * 65536
                &&& inner[1].x == inner[0].x + inner[0].width + 65536
                &&& filled == (0u16, 0u16)
            }
        }),
{
    reveal_with_fuel(widths, 3);
    reveal_with_fuel(flow_x, 3);
    let size = node.measured(proposal, sizes)->Size_0;
    let frame = natural_frame(x, y, size);
    let inner = node.inner_frames(frame, sizes, placed);
    assert(inner[0].width == sizes[0].width);
    assert(inner[1].width == sizes[1].width);
    assert(inner.len() == 2);
}

/// A field is wide enough for its label, a colon and a blank, and behind them for its value, for
/// its prompt, and for eight columns; it is no wider than the widest of these needs. A masked field
/// needs one column for each character of its secret.
pub proof fn law_field_has_room_for_label_and_text(node: NodeView, proposal: ProposalSize)
    ensures
        node.kind matches KindView::Field(state) ==> {
            let label = display_width(state.label);
            let size = node.measured(proposal, seq![])->Size_0;
            let fits = |n: int| size.width >= (label + 2 + n) * 65536;
            &&& node.measured(proposal, seq![]) is Size
            &&& size.height == 8 * 65536
            &&& label + display_width(state.value) + display_width(state.prompt) <= 0x1_0000_0000 ==> {
                &&& fits(8) && fits(display_width(state.value) as int) && fits(
                    display_width(state.prompt) as int,
                )
                &&& {
                    ||| size.width == (label + 2 + 8) * 65536
                    ||| size.width == (label + 2 + display_width(state.value)) * 65536
                    ||| size.width == (label + 2 + display_width(state.prompt)) * 65536
                }
            }
        },
        node.kind matches KindView::Secure(state) ==> {
            let label = display_width(state.label);
            let size = node.measured(proposal, seq![])->Size_0;
            let fits = |n: int| size.width >= (label + 2 + n) * 65536;
            &&& node.measured(proposal, seq![]) is Size
            &&& size.height == 8 * 65536
            &&& label + state.value.len() <= 0x1_0000_0000 ==> {
                &&& fits(8) && fits(state.value.len() as int)
                &&& {
                    ||| size.width == (label + 2 + 8) * 65536
                    ||| size.width == (label + 2 + state.value.len()) * 65536
                }
            }
        },
{
}

// ---- Containers -------------------------------------------------------------------

proof fn lemma_largest(sizes: Seq<PointSize>, n: nat, i: int)
    requires
        0 <= i < n <= sizes.len(),
    ensures
        largest(sizes, n).width >= sizes[i].width,
        largest(sizes, n).height >= sizes[i].height,
    decreases n,
{
    if i < n - 1 {
        lemma_largest(sizes, (n - 1) as nat, i);
    }
}

proof fn lemma_largest_is_modest(sizes: Seq<PointSize>, n: nat)
    requires
        n <= sizes.len(),
        forall|i: int| 0 <= i < sizes.len() ==> modest_size(#[trigger] sizes[i]),
    ensures
        modest_size(largest(sizes, n)),
    decreases n,
{
    if n > 0 {
        lemma_largest_is_modest(sizes, (n - 1) as nat);
        assert(modest_size(sizes[n - 1]));
    }
}

/// A tab bar that gets the size it measures, with nothing proposed, shows its labels in a row at
/// the top, two columns apart and each in its width, and below them the selected content, with room
/// for every one of the contents. Where something is proposed it takes that.
pub proof fn law_tabs_have_room_for_every_content(
    node: NodeView,
    contents: Seq<PointSize>,
    labels: Seq<PointSize>,
    x: i64,
    y: i64,
    placed: Seq<PointRect>,
    i: int,
    proposal: ProposalSize,
)
    requires
        node.kind is Tabs,
        ({
            let n = node.kind->tabs.len();
            &&& n > 0
            &&& node.children.len() == 2 * n
            &&& labels.len() == n
            &&& contents.len() == n
            &&& 0 <= i < n
        }),
        node.children.len() <= usize::MAX,
        forall|k: int| 0 <= k < contents.len() ==> modest_size(#[trigger] contents[k]),
        modest(x as int),
        modest(y as int),
    ensures
        ({
            let n = node.kind->tabs.len();
            let open = ProposalSize { width: None, height: None };
            let size = node.measured(open, contents)->Size_0;
            let frame = natural_frame(x, y, size);
            let inner = node.inner_frames(frame, labels, placed);
            let chosen = selected_tab(node.kind->tabs, node.kind->selection);
            let asked = node.measured(proposal, contents)->Size_0;
            &&& node.measured(open, contents) is Size
            &&& node.measured(proposal, contents) is Size
            &&& node.measuring(proposal) == (Ask {
                from: n as usize,
                to: (2 * n) as usize,
                proposal,
            })
            &&& node.placing(frame) == (Ask {
                from: 0,
                to: n as usize,
                proposal: ProposalSize { width: None, height: Some((8 * 65536) as i64) },
            })
            &&& size.width >= contents[i].width
            &&& size.height >= contents[i].height + 8 * 65536
            &&& proposal.width is Some ==> asked.width == proposal.width->0
            &&& proposal.height is Some ==> asked.height == proposal.height->0
            &&& proposal.width is None ==> asked.width == size.width
            &&& proposal.height is None ==> asked.height == size.height
            &&& inner.len() == 2 * n
            &&& inner[i].y == y && inner[i].height == 8 * 65536 && inner[i].width == labels[i].width
            &&& inner[0].x == x
            &&& modest(inner[i].x as int) && modest_size(labels[i]) && i + 1 < n ==> inner[i + 1].x
                == inner[i].x + inner[i].width + 2 * 65536
            &&& 0 <= chosen < n ==> {
                &&& inner[n + chosen].x == x && inner[n + chosen].y == y + 8 * 65536
                &&& has_room_for(inner[n + chosen], contents[i])
                &&& inner[n + chosen].y + inner[n + chosen].height == y + size.height
            }
        }),
{
    lemma_largest(contents, contents.len(), i);
    lemma_largest_is_modest(contents, contents.len());
    reveal_with_fuel(flow_x, 2);
}

/// A navigation view that gets the size it measures has a bar of two lines at the top, which holds
/// its title, and room for the whole of its content below; a hidden bar takes no room.
pub proof fn law_navigation_has_room_for_bar_and_content(
    node: NodeView,
    hidden: bool,
    content: PointSize,
    x: i64,
    y: i64,
    placed: Seq<PointRect>,
    proposal: ProposalSize,
)
    requires
        node.kind == (KindView::NavBar { hidden }),
        node.children.len() == 2,
        modest_size(content),
        modest(x as int),
        modest(y as int),
    ensures
        ({
            let open = ProposalSize { width: None, height: None };
            let bar = if hidden {
                0int
            } else {
                16 * 65536int
            };
            let size = node.measured(open, seq![content])->Size_0;
            let asked = node.measured(proposal, seq![content])->Size_0;
            let frame = natural_frame(x, y, size);
            let inner = node.inner_frames(frame, seq![], placed);
            &&& node.measured(open, seq![content]) is Size
            &&& node.measured(proposal, seq![content]) is Size
            &&& node.measuring(proposal) == (Ask { from: 1, to: 2, proposal })
            &&& size.width == content.width
            &&& size.height == content.height + bar
            &&& proposal.width is Some ==> asked.width == proposal.width->0
            &&& proposal.height is Some ==> asked.height == proposal.height->0
            &&& proposal.width is None ==> asked.width == size.width
            &&& proposal.height is None ==> asked.height == size.height
            &&& inner.len() == 2
            &&& inner[0].x == x && inner[0].y == y && inner[0].width == size.width && inner[0].height
                == bar
            &&& inner[1].x == x && inner[1].y == y + bar
            &&& inner[1].width == content.width && inner[1].height == content.height
        }),
{
}

/// A viewport leaves its content free to grow in the directions that it scrolls, and hands on what
/// was proposed in the others. It takes what was proposed in a direction that does not scroll, and
/// the size of its content in the others.
pub proof fn law_viewport_proposes_what_it_does_not_scroll(
    node: NodeView,
    proposal: ProposalSize,
    frame: PointRect,
    content: PointSize,
)
    requires
        node.kind is Scroll,
        node.children.len() > 0,
    ensures
        node.kind matches KindView::Scroll(state) && {
            let sideways = state.axis == ScrollAxis::Horizontal || state.axis == ScrollAxis::All;
            let upright = state.axis == ScrollAxis::Vertical || state.axis == ScrollAxis::All;
            let ask = node.measuring(proposal);
            let place = node.placing(frame);
            let size = node.measured(proposal, seq![content])->Size_0;
            &&& node.measured(proposal, seq![content]) is Size
            &&& ask.from == 0 && ask.to == 1 && place.from == 0 && place.to == 1
            &&& sideways ==> ask.proposal.width is None && place.proposal.width is None
            &&& upright ==> ask.proposal.height is None && place.proposal.height is None
            &&& !sideways ==> ask.proposal.width == proposal.width && place.proposal.width == Some(
                frame.width,
            )
            &&& !upright ==> ask.proposal.height == proposal.height && place.proposal.height == Some(
                frame.height,
            )
            &&& sideways || proposal.width is None ==> size.width == content.width
            &&& upright || proposal.height is None ==> size.height == content.height
            &&& !sideways && proposal.width is Some ==> size.width == proposal.width->0
            &&& !upright && proposal.height is Some ==> size.height == proposal.height->0
        },
{
}

/// The content of a viewport gets the room that it likes in the directions that scroll, and at
/// least that of the viewport.
pub proof fn law_content_gets_the_room_it_likes(
    node: NodeView,
    frame: PointRect,
    content: PointSize,
    placed: Seq<PointRect>,
)
    requires
        node.kind is Scroll,
        node.children.len() > 0,
    ensures
        node.kind matches KindView::Scroll(state) && {
            let sideways = state.axis == ScrollAxis::Horizontal || state.axis == ScrollAxis::All;
            let upright = state.axis == ScrollAxis::Vertical || state.axis == ScrollAxis::All;
            let inner = node.inner_frames(frame, seq![content], placed);
            &&& inner.len() == 1
            &&& inner[0].x == frame.x && inner[0].y == frame.y
            &&& inner[0].width >= frame.width && inner[0].height >= frame.height
            &&& sideways ==> inner[0].width >= content.width
            &&& upright ==> inner[0].height >= content.height
            &&& inner[0].width == frame.width || (sideways && inner[0].width == content.width)
            &&& inner[0].height == frame.height || (upright && inner[0].height == content.height)
        },
{
}

/// Rules are one line high and as wide as they are given, or one column wide; colors, gradients
/// and surfaces take what they are given and ask for nothing; an empty node is empty. Containers
/// are measured by their layout, and what only wraps a content as that.
pub proof fn law_plain_kinds_measure_as_they_should(node: NodeView, proposal: ProposalSize)
    ensures
        ({
            let size = node.measured(proposal, seq![])->Size_0;
            let ask = node.measuring(proposal);
            &&& node.kind is Empty ==> node.measured(proposal, seq![]) == Measured::Size(
                PointSize { width: 0, height: 0 },
            )
            &&& node.kind is Divider ==> {
                &&& node.measured(proposal, seq![]) is Size
                &&& size.height == 8 * 65536
                &&& size.width == if node.kind->vertical {
                    65536int
                } else {
                    0
                }
            }
            &&& node.kind is Fill || node.kind is Gradient || node.kind is Gpu ==> {
                &&& node.measured(proposal, seq![]) is Size
                &&& proposal.width is Some ==> size.width == proposal.width->0
                &&& proposal.height is Some ==> size.height == proposal.height->0
                &&& proposal.width is None ==> size.width == 0
                &&& proposal.height is None ==> size.height == 0
            }
            &&& node.kind is Container || node.kind is Lazy ==> node.measured(proposal, seq![])
                == Measured::ByLayout
            &&& node.kind is Dynamic || node.kind is Background ==> node.measured(proposal, seq![])
                == Measured::AsContent
            &&& node.kind is Empty || node.kind is Text || node.kind is Divider || node.kind is Fill
                || node.kind is Gradient || node.kind is Gpu || node.kind is Field || node.kind
                is Secure || node.kind is Container || node.kind is Lazy || node.kind is Dynamic
                || node.kind is Background ==> ask.from == 0 && ask.to == 0
        }),
{
}

/// A container's children get the frames that its layout says, in order; a slot and a background
/// hand their own frame on.
pub proof fn law_containers_hand_frames_on(
    node: NodeView,
    frame: PointRect,
    sizes: Seq<PointSize>,
    placed: Seq<PointRect>,
    i: int,
)
    requires
        0 <= i,
    ensures
        ({
            let inner = node.inner_frames(frame, sizes, placed);
            &&& node.kind is Container ==> {
                &&& inner.len() <= node.children.len() && inner.len() <= placed.len()
                &&& inner.len() == node.children.len() || inner.len() == placed.len()
                &&& i < inner.len() ==> inner[i] == placed[i]
            }
            &&& node.kind is Lazy ==> {
                let children = node.kind->Lazy_children;
                &&& inner.len() <= children.len() && inner.len() <= placed.len()
                &&& inner.len() == children.len() || inner.len() == placed.len()
                &&& i < inner.len() ==> inner[i] == placed[i]
            }
            &&& node.kind is Dynamic ==> inner == seq![frame]
            &&& node.kind is Background ==> inner.len() == node.children.len() && (i < inner.len()
                ==> inner[i] == frame)
        }),
{
}

/// A node covers the cells of its frame, moved by its offset: the columns from its left edge to its
/// right edge, each to the nearest one; the row that its top edge lies in, and as many rows as its
/// height rounds to, at least one. Placing it changes nothing else of it but what a control derives
/// from its labels.
pub proof fn law_node_covers_its_frame(node: NodeView, frame: PointRect, sizes: Seq<PointSize>)
    requires
        modest(frame.x + node.offset.0),
        modest(frame.y + node.offset.1),
    ensures
        ({
            let after = node.framed(frame, sizes);
            let left = frame.x + node.offset.0;
            let right = left + frame.width;
            let top = frame.y + node.offset.1;
            let cells = after.frame;
            &&& after == (NodeView { frame: after.frame, kind: after.kind, ..node })
            &&& node.kind !is Slider && node.kind !is Progress && node.kind !is Scroll ==> after.kind
                == node.kind
            &&& 0 <= left && 0 <= frame.width && right <= 60000 * 65536 ==> {
                &&& 2 * (cells.x * 65536 - left) <= 65536
                &&& 2 * (left - cells.x * 65536) < 65536
                &&& 2 * ((cells.x + cells.width) * 65536 - right) <= 65536
                &&& 2 * (right - (cells.x + cells.width) * 65536) < 65536
            }
            &&& 0 <= top && 0 < frame.height && top + frame.height <= 30000 * 8 * 65536 ==> {
                &&& cells.y * 8 * 65536 <= top < (cells.y + 1) * 8 * 65536
                &&& cells.height >= 1
                &&& 2 * (frame.height - cells.height * 8 * 65536) < 8 * 65536
                &&& cells.height > 1 ==> 2 * (cells.height * 8 * 65536 - frame.height) <= 8 * 65536
            }
            &&& frame.height <= 0 ==> cells.height == 0
        }),
{
}

/// However little room there is, the last label of a slider or of a progress bar begins behind the
/// others and a blank, and the columns between them never run backward.
pub proof fn law_labels_do_not_overlap(
    node: NodeView,
    frame: PointRect,
    first: PointSize,
    second: PointSize,
    placed: Seq<PointRect>,
)
    requires
        node.kind is Slider || (node.kind matches KindView::Progress { style, .. } && style
            == ProgressStyle::Linear),
        modest(frame.x as int),
        modest(frame.width as int),
        modest_size(first),
        modest_size(second),
    ensures
        ({
            let frames = node.inner_frames(frame, seq![first, second], placed);
            &&& frames.len() == 2
            &&& frames[0].x == frame.x
            &&& frames[0].width == first.width
            &&& frames[1].x >= frames[0].x + first.width + 65536
            &&& frames[1].x + second.width == frame.x + frame.width || frames[1].x == frames[0].x
                + first.width + 65536
            &&& frames[1].width == second.width
        }),
        node.framed(frame, seq![first, second]).kind matches KindView::Slider { track, .. }
            ==> track.0 <= track.1,
        node.framed(frame, seq![first, second]).kind matches KindView::Progress { bar, .. }
            ==> bar.0 <= bar.1,
{
    let sizes = seq![first, second];
    assert(flow_x(frame.x, sizes, 65536, 0) == frame.x);
    assert(flow_x(frame.x, sizes, 65536, 1) == frame.x + first.width + 65536);
}

} // verus!
