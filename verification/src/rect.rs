//! The canvas and the offsets of displays in it.

use crate::monitor::Monitor;
use crate::number::{decimal, push_decimal};
use crate::placement::Placement;
use vstd::prelude::*;
use vstd::string::*;

verus! {

/// Half of `d`, rounded toward zero.
pub open spec fn half(d: int) -> int {
    if d >= 0 {
        d / 2
    } else {
        -((-d) / 2)
    }
}

/// The top-left corner of a display of `width` by `height` that is put at
/// the side `at` of a canvas of `canvas_width` by `canvas_height`.
pub open spec fn offset_at(
    canvas_width: int,
    canvas_height: int,
    width: int,
    height: int,
    at: Placement,
) -> (int, int) {
    match at {
        Placement::Top => (half(canvas_width - width), 0),
        Placement::Bottom => (half(canvas_width - width), canvas_height - height),
        Placement::Left => (0, half(canvas_height - height)),
        Placement::Right => (canvas_width - width, half(canvas_height - height)),
        Placement::Clone => (0, 0),
    }
}

/// A position as the configuration command takes it: both coordinates in
/// decimal with an `x` between them.
pub open spec fn pair_text(a: int, b: int) -> Seq<char> {
    decimal(a) + seq!['x'] + decimal(b)
}

/// A rectangle of pixels. Neither extent is negative.
#[derive(Clone, Copy, Debug, PartialEq, Eq)]
pub struct Rect {
    width: i32,
    height: i32,
}

/// Half of `d`, rounded toward zero.
pub fn halve(d: i32) -> (h: i32)
    ensures
        h == half(d as int),
{
    if d >= 0 {
        d / 2
    } else {
        // -d may be one more than an `i32` holds
        let below: i32 = -(d + 1);
        let halved: i32 = below / 2 + (if below % 2 == 1 {
            1i32
        } else {
            0i32
        });
        -halved
    }
}

/// `a`, an `x`, and `b`.
pub fn pair_string(a: i32, b: i32) -> (s: String)
    ensures
        s@ == pair_text(a as int, b as int),
{
    let mut s = String::new();
    push_decimal(&mut s, a);
    proof {
        reveal_strlit("x");
    }
    s.append("x");
    push_decimal(&mut s, b);
    assert(s@ =~= pair_text(a as int, b as int));
    s
}

impl Rect {
    #[verifier::type_invariant]
    pub closed spec fn wf(self) -> bool {
        0 <= self.width && 0 <= self.height
    }

    pub closed spec fn spec_width(self) -> int {
        self.width as int
    }

    pub closed spec fn spec_height(self) -> int {
        self.height as int
    }

    /// The rectangle of the given extents, where neither is negative.
    pub fn new(width: i32, height: i32) -> (r: Option<Rect>)
        ensures
            r is Some <==> 0 <= width && 0 <= height,
            r is Some ==> r->0.spec_width() == width && r->0.spec_height() == height,
    {
        if width >= 0 && height >= 0 {
            Some(Rect { width, height })
        } else {
            None
        }
    }

    pub fn width(&self) -> (w: i32)
        ensures
            w == self.spec_width(),
            0 <= w,
    {
        proof {
            use_type_invariant(self);
        }
        self.width
    }

    pub fn height(&self) -> (h: i32)
        ensures
            h == self.spec_height(),
            0 <= h,
    {
        proof {
            use_type_invariant(self);
        }
        self.height
    }

    /// The top-left corner of `monitor` where it is put at the side `at` of
    /// this rectangle.
    pub fn offset(&self, monitor: &Monitor, at: &Placement) -> (r: (i32, i32))
        ensures
            (r.0 as int, r.1 as int) == offset_at(
                self.spec_width(),
                self.spec_height(),
                monitor@.width,
                monitor@.height,
                *at,
            ),
    {
        proof {
            use_type_invariant(self);
        }
        let w: i32 = monitor.width();
        let h: i32 = monitor.height();
        match at {
            Placement::Top => (halve(self.width - w), 0),
            Placement::Bottom => (halve(self.width - w), self.height - h),
            Placement::Left => (0, halve(self.height - h)),
            Placement::Right => (self.width - w, halve(self.height - h)),
            Placement::Clone => (0, 0),
        }
    }

    /// The position of `monitor` at the side `at` of this rectangle, as the
    /// configuration command takes it.
    pub fn place(&self, monitor: &Monitor, at: &Placement) -> (s: String)
        ensures
            s@ == ({
                let o = offset_at(
                    self.spec_width(),
                    self.spec_height(),
                    monitor@.width,
                    monitor@.height,
                    *at,
                );
                pair_text(o.0, o.1)
            }),
    {
        let o = self.offset(monitor, at);
        pair_string(o.0, o.1)
    }
}

} // verus!
