//! What a hotplug watcher does after each poll.

use crate::monitor::{Monitor, MonitorView};
use crate::report::{texts, views};
use crate::xrandr::{Xrandr, XrandrView};
use vstd::prelude::*;
use vstd::string::*;

verus! {

/// The commands that bring the displays in line with a new inventory.
pub struct Reconfiguration {
    /// The arguments of the command that configures the displays.
    pub apply: Vec<String>,
    /// The arguments of one command for each display that is gone, to be
    /// run once the configuring command has succeeded.
    pub power_off: Vec<Vec<String>>,
}

/// What a `Reconfiguration` stands for.
pub struct ReconfigurationView {
    pub apply: Seq<Seq<char>>,
    pub power_off: Seq<Seq<Seq<char>>>,
}

impl View for Reconfiguration {
    type V = ReconfigurationView;

    open spec fn view(&self) -> ReconfigurationView {
        ReconfigurationView {
            apply: texts(self.apply@),
            power_off: Seq::new(self.power_off@.len(), |i: int| texts(self.power_off@[i]@)),
        }
    }
}

/// The displays of `before` that are not among those of `now`, in the order
/// of `before`. A display is among them if one there has its name and its
/// resolution.
pub open spec fn gone(before: Seq<MonitorView>, now: Seq<MonitorView>) -> Seq<MonitorView> {
    before.filter(absent_from(now))
}

/// The test for a display that is not among those of `now`.
pub open spec fn absent_from(now: Seq<MonitorView>) -> spec_fn(MonitorView) -> bool {
    |m: MonitorView| !now.contains(m)
}

/// The arguments of the command that switches a display off.
pub open spec fn power_off_args(m: MonitorView) -> Seq<Seq<char>> {
    seq!["--output"@, m.name, "--off"@]
}

/// What is to be done when `applied` is in force and a poll finds `polled`:
/// nothing where the layout is the same; else the displays are configured
/// anew, and then each display that is gone is switched off.
pub open spec fn reaction(applied: XrandrView, polled: XrandrView) -> Option<ReconfigurationView> {
    if applied.same_layout(polled) {
        None
    } else {
        let off = gone(applied.monitors, polled.monitors);
        Some(
            ReconfigurationView {
                apply: polled.setup_args(),
                power_off: Seq::new(off.len(), |i: int| power_off_args(off[i])),
            },
        )
    }
}

/// A poll that finds the inventory that is in force asks for no command.
pub proof fn lemma_unchanged_poll_is_idle(applied: XrandrView)
    ensures
        reaction(applied, applied) is None,
{
}

/// A poll that finds another layout asks for a power-off command for
/// exactly the displays that were there and are there no more.
pub proof fn lemma_gone_displays_are_switched_off(
    applied: XrandrView,
    polled: XrandrView,
    m: MonitorView,
)
    requires
        !applied.same_layout(polled),
    ensures
        reaction(applied, polled) is Some,
        reaction(applied, polled)->0.apply == polled.setup_args(),
        gone(applied.monitors, polled.monitors).contains(m) <==> applied.monitors.contains(m)
            && !polled.monitors.contains(m),
        gone(applied.monitors, polled.monitors).contains(m) ==> reaction(
            applied,
            polled,
        )->0.power_off.contains(power_off_args(m)),
{
    let absent = absent_from(polled.monitors);
    let off = gone(applied.monitors, polled.monitors);
    if off.contains(m) {
        let i = choose|i: int| 0 <= i < off.len() && off[i] == m;
        let commands = reaction(applied, polled)->0.power_off;
        assert(commands[i] == power_off_args(m));
        applied.monitors.lemma_filter_pred(absent, i);
        applied.monitors.lemma_filter_contains_rev(absent, m);
    }
    if applied.monitors.contains(m) && !polled.monitors.contains(m) {
        let i = choose|i: int| 0 <= i < applied.monitors.len() && applied.monitors[i] == m;
        applied.monitors.lemma_filter_contains(absent, i);
    }
}

/// Whether `m` is among `monitors`.
pub fn is_among(m: &Monitor, monitors: &Vec<Monitor>) -> (b: bool)
    ensures
        b == views(monitors@).contains(m@),
{
    let mut i: usize = 0;
    while i < monitors.len()
        invariant
            i <= monitors.len(),
            forall|j: int| 0 <= j < i ==> views(monitors@)[j] != m@,
        decreases monitors.len() - i,
    {
        if monitors[i].same_as(m) {
            assert(views(monitors@)[i as int] == m@);
            return true;
        }
        i += 1;
    }
    false
}

/// The power-off commands for the displays of `before` that are not among
/// those of `now`.
pub fn power_off_commands(before: &Vec<Monitor>, now: &Vec<Monitor>) -> (commands: Vec<
    Vec<String>,
>)
    ensures
        commands@.len() == gone(views(before@), views(now@)).len(),
        forall|i: int|
            0 <= i < commands@.len() ==> texts(#[trigger] commands@[i]@) == power_off_args(
                gone(views(before@), views(now@))[i],
            ),
{
    let ghost old_views = views(before@);
    let ghost absent = absent_from(views(now@));
    let mut commands: Vec<Vec<String>> = Vec::new();
    let mut i: usize = 0;
    proof {
        reveal(Seq::filter);
        assert(old_views.take(0).filter(absent) =~= Seq::<MonitorView>::empty());
    }
    while i < before.len()
        invariant
            old_views == views(before@),
            absent == absent_from(views(now@)),
            i <= before.len(),
            commands@.len() == old_views.take(i as int).filter(absent).len(),
            forall|j: int|
                0 <= j < commands@.len() ==> texts(#[trigger] commands@[j]@) == power_off_args(
                    old_views.take(i as int).filter(absent)[j],
                ),
        decreases before.len() - i,
    {
        let m = &before[i];
        proof {
            reveal(Seq::filter);
            assert(old_views.take(i + 1).drop_last() =~= old_views.take(i as int));
            assert(old_views.take(i + 1).last() == m@);
        }
        if !is_among(m, now) {
            let mut command: Vec<String> = Vec::new();
            command.push(String::from_str("--output"));
            command.push(String::from_str(m.name()));
            command.push(String::from_str("--off"));
            assert(texts(command@) =~= power_off_args(m@));
            commands.push(command);
        }
        i += 1;
    }
    assert(old_views.take(i as int) =~= old_views);
    commands
}

/// The watcher's state: the inventory that was applied last.
pub struct Watcher {
    applied: Xrandr,
}

impl View for Watcher {
    type V = XrandrView;

    closed spec fn view(&self) -> XrandrView {
        self.applied@
    }
}

impl Watcher {
    /// A watcher that takes `first` as the inventory in force.
    pub fn new(first: Xrandr) -> (w: Watcher)
        ensures
            w@ == first@,
    {
        Watcher { applied: first }
    }

    /// The inventory in force.
    pub fn applied(&self) -> (x: &Xrandr)
        ensures
            x@ == self@,
    {
        &self.applied
    }

    /// What is to be done after a poll that found `polled`: nothing where
    /// its layout is the one in force; else the command that configures the
    /// displays, and the commands that switch off the displays that are gone.
    pub fn poll(&self, polled: &Xrandr) -> (r: Option<Reconfiguration>)
        ensures
            match reaction(self@, polled@) {
                None => r is None,
                Some(v) => r is Some && r->0@ == v,
            },
    {
        if self.applied.same_layout(polled) {
            None
        } else {
            let apply = polled.setup_args();
            let power_off = power_off_commands(self.applied.monitors(), polled.monitors());
            let r = Reconfiguration { apply, power_off };
            assert(r@.power_off =~= reaction(self@, polled@)->0.power_off);
            Some(r)
        }
    }

    /// Takes `polled` as the inventory in force, once its commands have run.
    pub fn commit(&mut self, polled: Xrandr)
        ensures
            final(self)@ == polled@,
    {
        self.applied = polled;
    }
}

} // verus!
