//! Scroll positions: what a viewport reports, and the shifts a frame applied.

use vstd::prelude::*;

use crate::geometry::{CellRect, TICKS_PER_COL, TICKS_PER_ROW};

verus! {

/// A shift that a scroll view applied between the frame presented last and the one that
/// is being drawn.
#[derive(Clone, Copy, Debug, PartialEq, Eq)]
pub struct ScrollOp {
    /// The viewport on screen whose content shifted.
    pub region: CellRect,
    /// The change of the offset in columns and rows; down and to the right is positive.
    pub delta: (i32, i32),
}

/// The position of a scroll view at one moment.
#[derive(Clone, Copy, Debug, PartialEq, Eq)]
pub struct ScrollMetrics {
    /// Current offset in columns and rows.
    pub offset: (i32, i32),
    /// Largest offset that can be reached.
    pub max: (i32, i32),
}

impl ScrollMetrics {
    /// Whether the view can move no further on either axis.
    pub open spec fn rests_at_end(self) -> bool {
        self.offset.0 >= self.max.0 && self.offset.1 >= self.max.1
    }

    /// Whether the view rests at its end on both axes.
    pub fn at_end(&self) -> (r: bool)
        ensures
            r == self.rests_at_end(),
            r == (self.offset.0 >= self.max.0 && self.offset.1 >= self.max.1),
    {
        self.offset.0 >= self.max.0 && self.offset.1 >= self.max.1
    }
}

/// The action that a host runs when the offset or the extent of a scroll view changes.
pub struct OnScroll<F>(pub F);

impl<F: FnMut(ScrollMetrics)> OnScroll<F> {
    /// Wraps an action.
    pub fn new(action: F) -> (r: OnScroll<F>)
        ensures
            r.0 == action,
    {
        OnScroll(action)
    }
}

/// Which directions scroll.
#[derive(Clone, Copy, Debug, PartialEq, Eq, Structural)]
pub enum ScrollAxis {
    Horizontal,
    Vertical,
    All,
}

impl ScrollAxis {
    /// Whether content moves up and down.
    pub open spec fn moves_rows(self) -> bool {
        self != ScrollAxis::Horizontal
    }

    /// Whether content moves left and right.
    pub open spec fn moves_columns(self) -> bool {
        self != ScrollAxis::Vertical
    }

    /// Whether content moves up and down.
    pub fn vertical(&self) -> (r: bool)
        ensures
            r == self.moves_rows(),
    {
        match self {
            ScrollAxis::Horizontal => false,
            _ => true,
        }
    }

    /// Whether content moves left and right.
    pub fn horizontal(&self) -> (r: bool)
        ensures
            r == self.moves_columns(),
    {
        match self {
            ScrollAxis::Vertical => false,
            _ => true,
        }
    }
}

/// The state of a scroll viewport.
///
/// The content keeps its frame in content coordinates; the offset is applied as a shift
/// while drawing and as a translation while hit-testing.
#[derive(Clone, Copy, Debug, PartialEq, Eq)]
pub struct ScrollState {
    /// Which directions scroll.
    pub axis: ScrollAxis,
    /// Current offset in columns and rows.
    pub offset: (i32, i32),
    /// Extent of the content in columns and rows.
    pub extent: (u16, u16),
    /// Where the program asked to scroll to.
    pub requested: Option<(i32, i32)>,
    /// The region and the offset of the frame drawn last.
    pub drawn: Option<(CellRect, (i32, i32))>,
    /// The position reported last.
    pub reported: Option<ScrollMetrics>,
}

/// `v` held between zero and `max`, or zero where `max` is negative.
pub open spec fn held(v: int, max: int) -> i32 {
    if v <= 0 || max <= 0 {
        0
    } else if v >= max {
        max as i32
    } else {
        v as i32
    }
}

fn hold(v: i64, max: i64) -> (r: i32)
    requires
        max <= 65535,
    ensures
        r == held(v as int, max as int),
{
    if v <= 0 || max <= 0 {
        0
    } else if v >= max {
        max as i32
    } else {
        v as i32
    }
}

impl ScrollState {
    /// A viewport at rest at its origin.
    pub open spec fn resting(axis: ScrollAxis) -> ScrollState {
        ScrollState {
            axis,
            offset: (0, 0),
            extent: (0, 0),
            requested: None,
            drawn: None,
            reported: None,
        }
    }

    /// A viewport at rest at its origin.
    pub fn new(axis: ScrollAxis) -> (r: ScrollState)
        ensures
            r == ScrollState::resting(axis),
    {
        ScrollState {
            axis,
            offset: (0, 0),
            extent: (0, 0),
            requested: None,
            drawn: None,
            reported: None,
        }
    }

    /// A target held inside the content that `viewport` leaves to scroll.
    pub open spec fn clamped(self, viewport: CellRect, target: (int, int)) -> (i32, i32) {
        (
            held(target.0, self.extent.0 - viewport.width),
            held(target.1, self.extent.1 - viewport.height),
        )
    }

    /// The largest offset that can be reached.
    pub open spec fn reach(self, viewport: CellRect) -> (i32, i32) {
        self.clamped(viewport, (0x7fff_ffff, 0x7fff_ffff))
    }

    /// Whether the offset lies inside the content.
    pub open spec fn within(self, viewport: CellRect) -> bool {
        &&& 0 <= self.offset.0 <= self.reach(viewport).0
        &&& 0 <= self.offset.1 <= self.reach(viewport).1
    }

    /// This state after a move to `target`.
    pub open spec fn moved_to(self, viewport: CellRect, target: (int, int)) -> ScrollState {
        ScrollState { offset: self.clamped(viewport, target), ..self }
    }

    /// This state after a move by `(dx, dy)`.
    pub open spec fn moved_by(self, viewport: CellRect, dx: int, dy: int) -> ScrollState {
        self.moved_to(viewport, (self.offset.0 + dx, self.offset.1 + dy))
    }

    /// The offset that content is drawn with: where the program asked to be, if it did.
    pub open spec fn drawn_offset(self, viewport: CellRect) -> (i32, i32) {
        match self.requested {
            Some(target) => self.clamped(viewport, (target.0 as int, target.1 as int)),
            None => self.offset,
        }
    }

    /// Holds a scroll target inside the content.
    pub fn clamp_offset(&self, viewport: CellRect, x: i64, y: i64) -> (r: (i32, i32))
        ensures
            r == self.clamped(viewport, (x as int, y as int)),
    {
        (
            hold(x, self.extent.0 as i64 - viewport.width as i64),
            hold(y, self.extent.1 as i64 - viewport.height as i64),
        )
    }

    /// Scrolls to an offset; `true` where the offset changed.
    pub fn scroll_to(&mut self, viewport: CellRect, x: i64, y: i64) -> (r: bool)
        ensures
            *final(self) == old(self).moved_to(viewport, (x as int, y as int)),
            r == (final(self).offset != old(self).offset),
            final(self).within(viewport),
    {
        let next = self.clamp_offset(viewport, x, y);
        let moved = next.0 != self.offset.0 || next.1 != self.offset.1;
        self.offset = next;
        moved
    }

    /// Scrolls by a number of columns and rows; `true` where the offset changed.
    pub fn scroll_by(&mut self, viewport: CellRect, dx: i32, dy: i32) -> (r: bool)
        ensures
            *final(self) == old(self).moved_by(viewport, dx as int, dy as int),
            r == (final(self).offset != old(self).offset),
            final(self).within(viewport),
    {
        self.scroll_to(
            viewport,
            self.offset.0 as i64 + dx as i64,
            self.offset.1 as i64 + dy as i64,
        )
    }

    /// The offset that the next frame draws the content with.
    pub fn offset_to_draw(&self, viewport: CellRect) -> (r: (i32, i32))
        ensures
            r == self.drawn_offset(viewport),
    {
        match self.requested {
            Some(target) => self.clamp_offset(viewport, target.0 as i64, target.1 as i64),
            None => self.offset,
        }
    }

    /// This state after a frame showed it in `region`: the request is granted, and the
    /// region and the offset are remembered.
    pub open spec fn presented(self, viewport: CellRect, region: CellRect) -> ScrollState {
        let offset = self.drawn_offset(viewport);
        ScrollState { offset, requested: None, drawn: Some((region, offset)), ..self }
    }

    /// The shift that a frame in `region` applies to what the frame before showed there.
    pub open spec fn shift_in(self, viewport: CellRect, region: CellRect) -> Seq<ScrollOp> {
        let offset = self.drawn_offset(viewport);
        match self.drawn {
            Some((before, at)) => if before == region && at != offset {
                seq![
                    ScrollOp {
                        region,
                        delta: (
                            crate::geometry::coordinate(offset.0 - at.0),
                            crate::geometry::coordinate(offset.1 - at.1),
                        ),
                    },
                ]
            } else {
                seq![]
            },
            None => seq![],
        }
    }

    /// Records that a frame shows the viewport in `region`: grants the program's request
    /// and notes the shift against the frame before.
    pub fn present(&mut self, viewport: CellRect, region: CellRect, ops: &mut Vec<ScrollOp>)
        ensures
            *final(self) == old(self).presented(viewport, region),
            final(ops)@ == old(ops)@ + old(self).shift_in(viewport, region),
    {
        let offset = self.offset_to_draw(viewport);
        if let Some((before, at)) = self.drawn {
            let same = before.x == region.x && before.y == region.y && before.width == region.width
                && before.height == region.height;
            if same && (at.0 != offset.0 || at.1 != offset.1) {
                ops.push(
                    ScrollOp {
                        region,
                        delta: (
                            crate::geometry::coordinate_difference(offset.0, at.0),
                            crate::geometry::coordinate_difference(offset.1, at.1),
                        ),
                    },
                );
            }
        }
        assert(ops@ =~= old(ops)@ + old(self).shift_in(viewport, region));
        self.offset = offset;
        self.requested = None;
        self.drawn = Some((region, offset));
    }

    /// The position of the viewport.
    pub open spec fn metrics(self, viewport: CellRect) -> ScrollMetrics {
        ScrollMetrics { offset: self.offset, max: self.reach(viewport) }
    }

    /// The viewport once it reported its position, and what it reported.
    pub open spec fn telling(self, viewport: CellRect) -> (ScrollState, Option<ScrollMetrics>) {
        let now = self.metrics(viewport);
        (
            ScrollState { reported: Some(now), ..self },
            if self.reported == Some(now) {
                None
            } else {
                Some(now)
            },
        )
    }

    /// Reports the position, where it is not the one that was reported last.
    pub fn report(&mut self, viewport: CellRect) -> (r: Option<ScrollMetrics>)
        ensures
            (*final(self), r) == old(self).telling(viewport),
            r == (if old(self).reported == Some(old(self).metrics(viewport)) {
                None
            } else {
                Some(old(self).metrics(viewport))
            }),
            *final(self) == (ScrollState {
                reported: Some(old(self).metrics(viewport)),
                ..*old(self)
            }),
    {
        let max = self.clamp_offset(viewport, 0x7fff_ffff, 0x7fff_ffff);
        let now = ScrollMetrics { offset: self.offset, max };
        let known = match self.reported {
            Some(last) => last.offset.0 == now.offset.0 && last.offset.1 == now.offset.1
                && last.max.0 == now.max.0 && last.max.1 == now.max.1,
            None => false,
        };
        self.reported = Some(now);
        if known {
            None
        } else {
            Some(now)
        }
    }
}

/// Scrolling to an offset that lies inside the content lands exactly there, and scrolling
/// back by the same amount returns to the start.
pub proof fn law_scroll_returns(state: ScrollState, viewport: CellRect, dx: int, dy: int)
    requires
        state.within(viewport),
        0 <= state.offset.0 + dx <= state.reach(viewport).0,
        0 <= state.offset.1 + dy <= state.reach(viewport).1,
    ensures
        state.moved_by(viewport, dx, dy).offset.0 == state.offset.0 + dx,
        state.moved_by(viewport, dx, dy).offset.1 == state.offset.1 + dy,
        state.moved_by(viewport, dx, dy).moved_by(viewport, -dx, -dy) == state,
{
}

/// Scrolling as far as it goes rests at the end, and only an offset at the far edge of
/// both axes counts as the end.
pub proof fn law_end_is_the_far_edge(state: ScrollState, viewport: CellRect)
    ensures
        ({
            let far = state.moved_to(viewport, (0x7fff_ffff, 0x7fff_ffff));
            far.offset == far.metrics(viewport).max
        }),
        state.within(viewport) && state.metrics(viewport).offset.0 >= state.metrics(viewport).max.0
            && state.metrics(viewport).offset.1 >= state.metrics(viewport).max.1
            ==> state.offset == state.reach(viewport),
{
}

/// A distance in ticks as a number of whole cells, rounded to the nearest one and halves
/// away from zero.
pub open spec fn whole_cells(ticks: int, unit: int) -> i32 {
    crate::geometry::coordinate(
        if ticks >= 0 {
            (2 * ticks + unit) / (2 * unit)
        } else {
            -((-2 * ticks + unit) / (2 * unit))
        },
    )
}

fn cells_of(ticks: i64, unit: i64) -> (r: i32)
    requires
        unit == TICKS_PER_COL || unit == TICKS_PER_ROW,
    ensures
        r == whole_cells(ticks as int, unit as int),
{
    let doubled: i128 = 2 * ticks as i128;
    let cells: i128 = if ticks >= 0 {
        (doubled + unit as i128) / (2 * unit as i128)
    } else {
        -((-doubled + unit as i128) / (2 * unit as i128))
    };
    if cells > i32::MAX as i128 {
        i32::MAX
    } else if cells < i32::MIN as i128 {
        i32::MIN
    } else {
        cells as i32
    }
}

/// The offset in cells that a program asks for by a point of the content.
pub fn scroll_target(x: i64, y: i64) -> (r: (i32, i32))
    ensures
        r == (
            whole_cells(x as int, TICKS_PER_COL as int),
            whole_cells(y as int, TICKS_PER_ROW as int),
        ),
{
    (cells_of(x, TICKS_PER_COL), cells_of(y, TICKS_PER_ROW))
}

/// A frame that shows what the frame before showed in the same region applies no shift.
pub proof fn law_rest_applies_no_shift(state: ScrollState, viewport: CellRect, region: CellRect)
    ensures
        state.presented(viewport, region).shift_in(viewport, region) == Seq::<ScrollOp>::empty(),
{
}

} // verus!
