//! The extents of the canvas that holds a row or a stack of displays.

use crate::monitor::{Monitor, MonitorView};
use crate::placement::Placement;
use crate::rect::{offset_at, Rect};
use crate::report::views;
use vstd::prelude::*;

verus! {

/// The extent of a display along one axis: its width where `wide`, else its
/// height.
pub open spec fn extent(m: MonitorView, wide: bool) -> int {
    if wide {
        m.width
    } else {
        m.height
    }
}

/// The sum of the displays' extents along one axis.
pub open spec fn total(monitors: Seq<MonitorView>, wide: bool) -> int
    decreases monitors.len(),
{
    if monitors.len() == 0 {
        0
    } else {
        total(monitors.drop_last(), wide) + extent(monitors.last(), wide)
    }
}

/// The largest of the displays' extents along one axis, and zero where
/// there is no display.
pub open spec fn largest(monitors: Seq<MonitorView>, wide: bool) -> int
    decreases monitors.len(),
{
    if monitors.len() == 0 {
        0
    } else {
        let rest = largest(monitors.drop_last(), wide);
        let last = extent(monitors.last(), wide);
        if rest >= last {
            rest
        } else {
            last
        }
    }
}

/// Whether every display has a positive width and a positive height.
pub open spec fn all_positive(monitors: Seq<MonitorView>) -> bool {
    forall|i: int|
        0 <= i < monitors.len() ==> 0 < (#[trigger] monitors[i]).width && 0 < monitors[i].height
}

/// Width and height of the canvas. Displays that are stacked make a canvas
/// as wide as the widest and as high as all together; displays in a row, or
/// clones, make one as wide as all together and as high as the highest.
pub open spec fn canvas_of(monitors: Seq<MonitorView>, placement: Placement) -> (int, int) {
    if placement.is_stacked() {
        (largest(monitors, true), total(monitors, false))
    } else {
        (total(monitors, true), largest(monitors, false))
    }
}

/// Whether an `i32` holds both extents of the canvas.
pub open spec fn fits(monitors: Seq<MonitorView>, placement: Placement) -> bool {
    canvas_of(monitors, placement).0 <= i32::MAX && canvas_of(monitors, placement).1 <= i32::MAX
}

/// The side at which the display of number `i` is put: the first one goes
/// opposite to the others.
pub open spec fn side_of(placement: Placement, i: int) -> Placement {
    if i == 0 {
        placement.inverted()
    } else {
        placement
    }
}

/// The top-left corner of the display of number `i` in the canvas.
pub open spec fn offset_of(monitors: Seq<MonitorView>, placement: Placement, i: int) -> (int, int) {
    let c = canvas_of(monitors, placement);
    offset_at(c.0, c.1, monitors[i].width, monitors[i].height, side_of(placement, i))
}

/// The sum of positive extents is at least the sum of any first part of
/// them, and at least each of them.
pub proof fn lemma_total_bounds(monitors: Seq<MonitorView>, wide: bool, k: int)
    requires
        all_positive(monitors),
        0 <= k <= monitors.len(),
    ensures
        0 <= total(monitors.take(k), wide) <= total(monitors, wide),
        k < monitors.len() ==> total(monitors.take(k), wide) + extent(monitors[k], wide) <= total(
            monitors,
            wide,
        ),
    decreases monitors.len() - k,
{
    if k == monitors.len() {
        assert(monitors.take(k) =~= monitors);
        lemma_total_nonnegative(monitors, wide);
    } else {
        lemma_total_bounds(monitors, wide, k + 1);
        assert(monitors.take(k + 1).drop_last() =~= monitors.take(k));
        assert(monitors.take(k + 1).last() == monitors[k]);
        assert(all_positive(monitors.take(k))) by {
            assert forall|i: int| 0 <= i < k implies 0 < (#[trigger] monitors.take(k)[i]).width && 0
                < monitors.take(k)[i].height by {
                assert(monitors.take(k)[i] == monitors[i]);
            }
        }
        lemma_total_nonnegative(monitors.take(k), wide);
    }
}

pub proof fn lemma_total_nonnegative(monitors: Seq<MonitorView>, wide: bool)
    requires
        all_positive(monitors),
    ensures
        0 <= total(monitors, wide),
    decreases monitors.len(),
{
    if monitors.len() > 0 {
        let rest = monitors.drop_last();
        assert(all_positive(rest)) by {
            assert forall|i: int| 0 <= i < rest.len() implies 0 < (#[trigger] rest[i]).width && 0
                < rest[i].height by {
                assert(rest[i] == monitors[i]);
            }
        }
        lemma_total_nonnegative(rest, wide);
        assert(0 < monitors[monitors.len() - 1].width);
    }
}

/// The sum of positive extents is at least each of them.
pub proof fn lemma_total_holds_each(monitors: Seq<MonitorView>, wide: bool, i: int)
    requires
        all_positive(monitors),
        0 <= i < monitors.len(),
    ensures
        0 < extent(monitors[i], wide) <= total(monitors, wide),
{
    lemma_total_bounds(monitors, wide, i);
}

/// The largest extent is at least each extent, and where the displays are
/// positive and there is any, it is the extent of one of them.
pub proof fn lemma_largest_is_maximum(monitors: Seq<MonitorView>, wide: bool)
    ensures
        0 <= largest(monitors, wide),
        forall|i: int|
            0 <= i < monitors.len() ==> extent(#[trigger] monitors[i], wide) <= largest(
                monitors,
                wide,
            ),
        monitors.len() > 0 && all_positive(monitors) ==> exists|i: int|
            0 <= i < monitors.len() && extent(#[trigger] monitors[i], wide) == largest(
                monitors,
                wide,
            ),
    decreases monitors.len(),
{
    if monitors.len() > 0 {
        let rest = monitors.drop_last();
        let n = monitors.len() - 1;
        lemma_largest_is_maximum(rest, wide);
        assert forall|i: int| 0 <= i < monitors.len() implies extent(
            #[trigger] monitors[i],
            wide,
        ) <= largest(monitors, wide) by {
            if i < n {
                assert(rest[i] == monitors[i]);
            }
        }
        if all_positive(monitors) {
            assert(0 < monitors[n].width && 0 < monitors[n].height);
            if largest(rest, wide) >= extent(monitors[n], wide) {
                assert(rest.len() > 0);
                assert(all_positive(rest)) by {
                    assert forall|i: int| 0 <= i < rest.len() implies 0 < (
                    #[trigger] rest[i]).width && 0 < rest[i].height by {
                        assert(rest[i] == monitors[i]);
                    }
                }
                let j = choose|j: int|
                    0 <= j < rest.len() && extent(#[trigger] rest[j], wide) == largest(rest, wide);
                assert(rest[j] == monitors[j]);
                assert(extent(monitors[j], wide) == largest(monitors, wide));
            } else {
                assert(extent(monitors[n], wide) == largest(monitors, wide));
            }
        }
    }
}

/// The extent of `m` along one axis.
pub fn extent_of(m: &Monitor, wide: bool) -> (e: i32)
    ensures
        e == extent(m@, wide),
        0 < e,
{
    if wide {
        m.width()
    } else {
        m.height()
    }
}

/// Learns from each display that its extents are positive.
pub(crate) fn positive_extents(monitors: &Vec<Monitor>)
    ensures
        all_positive(views(monitors@)),
{
    let mut i: usize = 0;
    while i < monitors.len()
        invariant
            i <= monitors.len(),
            forall|j: int|
                0 <= j < i ==> 0 < (#[trigger] views(monitors@)[j]).width && 0 < views(
                    monitors@,
                )[j].height,
        decreases monitors.len() - i,
    {
        let w: i32 = monitors[i].width();
        let h: i32 = monitors[i].height();
        i += 1;
    }
}

/// The sum of the displays' extents along one axis, where an `i32` holds it.
pub fn sum_extent(monitors: &Vec<Monitor>, wide: bool) -> (r: Option<i32>)
    ensures
        match r {
            Some(v) => v == total(views(monitors@), wide),
            None => total(views(monitors@), wide) > i32::MAX,
        },
{
    positive_extents(monitors);
    let ghost all = views(monitors@);
    let mut sum: i32 = 0;
    let mut i: usize = 0;
    while i < monitors.len()
        invariant
            all == views(monitors@),
            all_positive(all),
            i <= monitors.len(),
            sum == total(all.take(i as int), wide),
            0 <= sum,
        decreases monitors.len() - i,
    {
        let e: i32 = extent_of(&monitors[i], wide);
        proof {
            lemma_total_bounds(all, wide, i as int);
            assert(all.take(i + 1).drop_last() =~= all.take(i as int));
            assert(all.take(i + 1).last() == monitors@[i as int]@);
        }
        if e > i32::MAX - sum {
            return None;
        }
        sum = sum + e;
        i += 1;
    }
    assert(all.take(i as int) =~= all);
    Some(sum)
}

/// The largest of the displays' extents along one axis.
pub fn max_extent(monitors: &Vec<Monitor>, wide: bool) -> (r: i32)
    ensures
        r == largest(views(monitors@), wide),
        0 <= r,
{
    let ghost all = views(monitors@);
    let mut best: i32 = 0;
    let mut i: usize = 0;
    while i < monitors.len()
        invariant
            all == views(monitors@),
            i <= monitors.len(),
            best == largest(all.take(i as int), wide),
            0 <= best,
        decreases monitors.len() - i,
    {
        let e: i32 = extent_of(&monitors[i], wide);
        proof {
            assert(all.take(i + 1).drop_last() =~= all.take(i as int));
            assert(all.take(i + 1).last() == monitors@[i as int]@);
        }
        if e > best {
            best = e;
        }
        i += 1;
    }
    assert(all.take(i as int) =~= all);
    best
}

/// The canvas that holds the displays, where an `i32` holds its extents.
pub fn canvas(monitors: &Vec<Monitor>, placement: Placement) -> (r: Option<Rect>)
    ensures
        all_positive(views(monitors@)),
        r is Some <==> fits(views(monitors@), placement),
        r is Some ==> (r->0.spec_width(), r->0.spec_height()) == canvas_of(
            views(monitors@),
            placement,
        ),
{
    positive_extents(monitors);
    let stacked: bool = placement == Placement::Top || placement == Placement::Bottom;
    let across: i32 = max_extent(monitors, stacked);
    match sum_extent(monitors, !stacked) {
        None => None,
        Some(along) => {
            proof {
                lemma_total_nonnegative(views(monitors@), !stacked);
            }
            if stacked {
                Rect::new(across, along)
            } else {
                Rect::new(along, across)
            }
        },
    }
}

} // verus!
