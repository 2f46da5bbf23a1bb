//! The inventory of displays, and the arguments that configure it.

use crate::canvas::{
    all_positive, canvas, canvas_of, fits, lemma_largest_is_maximum, lemma_total_holds_each,
    offset_of,
};
use crate::lines::{lines_of, split_lines};
use crate::monitor::{Monitor, MonitorView, ParseError};
use crate::placement::Placement;
use crate::rect::{pair_text, Rect};
use crate::report::{parse_lines, report_monitors, texts, views};
use vstd::prelude::*;
use vstd::string::*;

verus! {

/// What an `Xrandr` stands for.
pub struct XrandrView {
    pub monitors: Seq<MonitorView>,
    pub placement: Placement,
    pub new_primary: int,
}

/// The connected displays in the order of the report, how they are placed,
/// and which of them is to be the primary one.
#[derive(Debug)]
pub struct Xrandr {
    monitors: Vec<Monitor>,
    placement: Placement,
    new_primary: usize,
}

/// Why a report gives no inventory.
#[derive(Clone, Copy, Debug, PartialEq, Eq)]
pub enum InventoryError {
    /// A resolution in the report has a field that is no extent.
    Unreadable(ParseError),
    /// The canvas would be larger than an `i32` can say.
    TooLarge,
}

impl XrandrView {
    /// Every display is positive, and the canvas is not too large.
    pub open spec fn valid(self) -> bool {
        &&& all_positive(self.monitors)
        &&& fits(self.monitors, self.placement)
        &&& 0 <= self.new_primary
    }

    /// Whether the display of number `i` is made the primary one: the one
    /// that was asked for, and a single display in any case.
    pub open spec fn is_primary(self, i: int) -> bool {
        self.new_primary == i || self.monitors.len() == 1
    }

    /// How the display of number `i` is positioned: a clone behind the first
    /// display is tied to the first, every other display gets its offset.
    pub open spec fn position_args(self, i: int) -> Seq<Seq<char>> {
        if i > 0 && self.placement == Placement::Clone {
            seq!["--same-as"@, self.monitors[0].name]
        } else {
            let o = offset_of(self.monitors, self.placement, i);
            seq!["--pos"@, pair_text(o.0, o.1)]
        }
    }

    /// The arguments for the display of number `i`.
    pub open spec fn monitor_args(self, i: int) -> Seq<Seq<char>> {
        let m = self.monitors[i];
        seq!["--output"@, m.name, "--mode"@, pair_text(m.width, m.height)] + self.position_args(i)
            + (if self.is_primary(i) {
            seq!["--primary"@]
        } else {
            Seq::empty()
        })
    }

    /// The arguments for the first `n` displays.
    pub open spec fn args_upto(self, n: int) -> Seq<Seq<char>>
        decreases n,
    {
        if n <= 0 {
            Seq::empty()
        } else {
            self.args_upto(n - 1) + self.monitor_args(n - 1)
        }
    }

    /// The arguments of the command that configures all displays.
    pub open spec fn setup_args(self) -> Seq<Seq<char>> {
        self.args_upto(self.monitors.len() as int)
    }

    /// Whether both inventories hold the same displays in the same order,
    /// placed in the same way.
    pub open spec fn same_layout(self, other: XrandrView) -> bool {
        self.monitors == other.monitors && self.placement == other.placement
    }
}

impl View for Xrandr {
    type V = XrandrView;

    closed spec fn view(&self) -> XrandrView {
        XrandrView {
            monitors: views(self.monitors@),
            placement: self.placement,
            new_primary: self.new_primary as int,
        }
    }
}

/// Whether `r` is `expected`, the inventory taken by its view.
pub open spec fn inventory_matches(
    r: Result<Xrandr, InventoryError>,
    expected: Result<XrandrView, InventoryError>,
) -> bool {
    match expected {
        Err(e) => r == Err::<Xrandr, InventoryError>(e),
        Ok(v) => r is Ok && r->Ok_0@ == v,
    }
}

/// The inventory that these displays make, if the canvas is not too large.
pub open spec fn inventory_of(
    monitors: Seq<MonitorView>,
    placement: Placement,
    new_primary: int,
) -> Result<XrandrView, InventoryError> {
    if fits(monitors, placement) {
        Ok(XrandrView { monitors, placement, new_primary })
    } else {
        Err(InventoryError::TooLarge)
    }
}

/// The inventory that a report describes.
pub open spec fn inventory_in(report: Seq<char>, placement: Placement, new_primary: int) -> Result<
    XrandrView,
    InventoryError,
> {
    match report_monitors(lines_of(report)) {
        Err(e) => Err(InventoryError::Unreadable(e)),
        Ok(monitors) => inventory_of(monitors, placement, new_primary),
    }
}

/// In a valid inventory whose displays are not clones, every display lies
/// within the canvas, in width and in height.
pub proof fn lemma_offsets_within_canvas(v: XrandrView, i: int)
    requires
        v.valid(),
        v.placement != Placement::Clone,
        0 <= i < v.monitors.len(),
    ensures
        ({
            let o = offset_of(v.monitors, v.placement, i);
            let c = canvas_of(v.monitors, v.placement);
            &&& 0 <= o.0
            &&& o.0 + v.monitors[i].width <= c.0
            &&& 0 <= o.1
            &&& o.1 + v.monitors[i].height <= c.1
        }),
{
    lemma_largest_is_maximum(v.monitors, true);
    lemma_largest_is_maximum(v.monitors, false);
    lemma_total_holds_each(v.monitors, true, i);
    lemma_total_holds_each(v.monitors, false, i);
}

impl Xrandr {
    #[verifier::type_invariant]
    pub closed spec fn wf(self) -> bool {
        self@.valid()
    }

    /// The inventory of these displays, unless the canvas is too large.
    pub fn from_monitors(monitors: Vec<Monitor>, placement: Placement, new_primary: usize) -> (r:
        Result<Xrandr, InventoryError>)
        ensures
            inventory_matches(r, inventory_of(views(monitors@), placement, new_primary as int)),
            r is Ok ==> r->Ok_0@.valid(),
    {
        match canvas(&monitors, placement) {
            None => Err(InventoryError::TooLarge),
            Some(_) => Ok(Xrandr { monitors, placement, new_primary }),
        }
    }

    /// Reads the inventory from a report. A resolution with a field that is
    /// no extent gives an error, and so does a canvas that is too large.
    pub fn new(report: &str, placement: Placement, new_primary: usize) -> (r: Result<
        Xrandr,
        InventoryError,
    >)
        ensures
            inventory_matches(r, inventory_in(report@, placement, new_primary as int)),
            r is Ok ==> r->Ok_0@.valid(),
    {
        let lines = split_lines(report);
        match parse_lines(&lines) {
            Err(e) => Err(InventoryError::Unreadable(e)),
            Ok(monitors) => Xrandr::from_monitors(monitors, placement, new_primary),
        }
    }

    pub fn monitors(&self) -> (m: &Vec<Monitor>)
        ensures
            views(m@) == self@.monitors,
    {
        &self.monitors
    }

    pub fn placement(&self) -> (p: Placement)
        ensures
            p == self@.placement,
    {
        self.placement
    }

    pub fn new_primary(&self) -> (i: usize)
        ensures
            i == self@.new_primary,
    {
        self.new_primary
    }

    /// The canvas that holds all displays.
    pub fn get_rect(&self) -> (r: Rect)
        ensures
            (r.spec_width(), r.spec_height()) == canvas_of(self@.monitors, self@.placement),
            self@.valid(),
    {
        proof {
            use_type_invariant(self);
        }
        canvas(&self.monitors, self.placement).unwrap()
    }

    /// The top-left corner of the display of number `i` in the canvas. Unless
    /// the displays are clones, the display lies within the canvas.
    pub fn offset(&self, i: usize) -> (o: (i32, i32))
        requires
            i < self@.monitors.len(),
        ensures
            (o.0 as int, o.1 as int) == offset_of(self@.monitors, self@.placement, i as int),
            self@.placement != Placement::Clone ==> {
                let c = canvas_of(self@.monitors, self@.placement);
                &&& 0 <= o.0
                &&& o.0 + self@.monitors[i as int].width <= c.0
                &&& 0 <= o.1
                &&& o.1 + self@.monitors[i as int].height <= c.1
            },
    {
        let rect = self.get_rect();
        let side = if i == 0 {
            self.placement.invert()
        } else {
            self.placement
        };
        proof {
            if self@.placement != Placement::Clone {
                lemma_offsets_within_canvas(self@, i as int);
            }
        }
        rect.offset(&self.monitors[i], &side)
    }

    /// Whether both inventories hold the same displays in the same order,
    /// placed in the same way.
    pub fn same_layout(&self, other: &Xrandr) -> (b: bool)
        ensures
            b == self@.same_layout(other@),
    {
        if self.placement != other.placement || self.monitors.len() != other.monitors.len() {
            assert(self@.monitors.len() != other@.monitors.len() || self.placement
                != other.placement);
            return false;
        }
        let mut i: usize = 0;
        while i < self.monitors.len()
            invariant
                self.monitors.len() == other.monitors.len(),
                i <= self.monitors.len(),
                forall|j: int| 0 <= j < i ==> self.monitors@[j]@ == other.monitors@[j]@,
            decreases self.monitors.len() - i,
        {
            if !self.monitors[i].same_as(&other.monitors[i]) {
                assert(self@.monitors[i as int] != other@.monitors[i as int]);
                return false;
            }
            i += 1;
        }
        assert(self@.monitors =~= other@.monitors);
        true
    }

    /// The arguments of the command that configures the displays: for each
    /// one its output, its mode, its position or the display that it clones,
    /// and whether it is the primary one.
    pub fn setup_args(&self) -> (args: Vec<String>)
        ensures
            texts(args@) == self@.setup_args(),
    {
        let rect = self.get_rect();
        let mut args: Vec<String> = Vec::new();
        let mut i: usize = 0;
        assert(texts(args@) =~= self@.args_upto(0));
        while i < self.monitors.len()
            invariant
                i <= self.monitors.len(),
                self@.monitors.len() == self.monitors.len(),
                (rect.spec_width(), rect.spec_height()) == canvas_of(
                    self@.monitors,
                    self@.placement,
                ),
                texts(args@) == self@.args_upto(i as int),
            decreases self.monitors.len() - i,
        {
            let ghost before = texts(args@);
            let monitor = &self.monitors[i];
            assert(monitor@ == self@.monitors[i as int]);
            args.push(String::from_str("--output"));
            args.push(String::from_str(monitor.name()));
            args.push(String::from_str("--mode"));
            args.push(monitor.resolution());
            if i == 0 {
                args.push(String::from_str("--pos"));
                args.push(rect.place(monitor, &self.placement.invert()));
            } else if self.placement == Placement::Clone {
                args.push(String::from_str("--same-as"));
                args.push(String::from_str(self.monitors[0].name()));
            } else {
                args.push(String::from_str("--pos"));
                args.push(rect.place(monitor, &self.placement));
            }
            if self.new_primary == i || self.monitors.len() == 1 {
                args.push(String::from_str("--primary"));
            }
            assert(texts(args@) =~= before + self@.monitor_args(i as int));
            i += 1;
        }
        args
    }
}

} // verus!
