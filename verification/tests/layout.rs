use enact::monitor::Monitor;
use enact::placement::{InvalidPlacement, Placement};
use enact::rect::Rect;
use enact::watch::Watcher;
use enact::xrandr::Xrandr;

fn monitor(name: &str, width: i32, height: i32) -> Monitor {
    Monitor::new(name, width, height).unwrap()
}

fn pair() -> Vec<Monitor> {
    vec![monitor("eDP1", 1920, 1080), monitor("HDMI1", 1280, 1024)]
}

fn inventory(monitors: Vec<Monitor>, placement: Placement, primary: usize) -> Xrandr {
    Xrandr::from_monitors(monitors, placement, primary).unwrap()
}

fn extents(rect: Rect) -> (i32, i32) {
    (rect.width(), rect.height())
}

#[test]
fn invert_swaps_the_sides() {
    assert_eq!(Placement::Top.invert(), Placement::Bottom);
    assert_eq!(Placement::Bottom.invert(), Placement::Top);
    assert_eq!(Placement::Left.invert(), Placement::Right);
    assert_eq!(Placement::Right.invert(), Placement::Left);
    assert_eq!(Placement::Clone.invert(), Placement::Clone);
}

#[test]
fn invert_twice_is_the_identity() {
    for p in [Placement::Top, Placement::Bottom, Placement::Left, Placement::Right, Placement::Clone]
    {
        assert_eq!(p.invert().invert(), p);
    }
}

#[test]
fn placement_words() {
    assert_eq!(Placement::from_str("top"), Ok(Placement::Top));
    assert_eq!(Placement::from_str("bottom"), Ok(Placement::Bottom));
    assert_eq!(Placement::from_str("left"), Ok(Placement::Left));
    assert_eq!(Placement::from_str("right"), Ok(Placement::Right));
    assert_eq!(Placement::from_str("clone"), Ok(Placement::Clone));
    assert_eq!(Placement::from_str("TOP"), Ok(Placement::Top));
    assert_eq!(Placement::from_str("BoTtOm"), Ok(Placement::Bottom));
    assert_eq!(Placement::from_str("Clone"), Ok(Placement::Clone));
    assert_eq!(Placement::from_str(""), Err(InvalidPlacement));
    assert_eq!(Placement::from_str("above"), Err(InvalidPlacement));
    assert_eq!(Placement::from_str(" top"), Err(InvalidPlacement));
    assert_eq!(Placement::from_str("tops"), Err(InvalidPlacement));
}

#[test]
fn placement_words_letter_for_letter() {
    assert_eq!(Placement::from_lowercase("right"), Ok(Placement::Right));
    assert_eq!(Placement::from_lowercase("Right"), Err(InvalidPlacement));
    assert_eq!(Placement::from_lowercase("TOP"), Err(InvalidPlacement));
}

#[test]
fn monitors_have_positive_extents() {
    assert!(Monitor::new("a", 0, 1).is_none());
    assert!(Monitor::new("a", 1, 0).is_none());
    assert!(Monitor::new("a", -1, 5).is_none());
    let m = monitor("a", 1, i32::MAX);
    assert_eq!((m.name(), m.width(), m.height()), ("a", 1, i32::MAX));
    assert!(m.same_as(&monitor("a", 1, i32::MAX)));
    assert!(!m.same_as(&monitor("a", 2, i32::MAX)));
    assert!(!m.same_as(&monitor("a", 1, 7)));
    assert!(!m.same_as(&monitor("b", 1, i32::MAX)));
}

#[test]
fn resolution_is_width_x_height() {
    assert_eq!(monitor("eDP1", 1920, 1080).resolution(), "1920x1080");
    assert_eq!(monitor("a", 1, 2147483647).resolution(), "1x2147483647");
    assert_eq!(monitor("a", 10, 100).resolution(), "10x100");
}

#[test]
fn rect_extents_are_not_negative() {
    assert!(Rect::new(-1, 0).is_none());
    assert!(Rect::new(0, -1).is_none());
    assert_eq!(extents(Rect::new(0, 0).unwrap()), (0, 0));
    assert_eq!(extents(Rect::new(3, 4).unwrap()), (3, 4));
}

#[test]
fn canvas_of_a_stack() {
    assert_eq!(extents(inventory(pair(), Placement::Top, 0).get_rect()), (1920, 2104));
    assert_eq!(extents(inventory(pair(), Placement::Bottom, 0).get_rect()), (1920, 2104));
}

#[test]
fn canvas_of_a_row() {
    assert_eq!(extents(inventory(pair(), Placement::Left, 0).get_rect()), (3200, 1080));
    assert_eq!(extents(inventory(pair(), Placement::Right, 0).get_rect()), (3200, 1080));
    assert_eq!(extents(inventory(pair(), Placement::Clone, 0).get_rect()), (3200, 1080));
}

#[test]
fn canvas_of_one_and_of_none() {
    let one = vec![monitor("eDP1", 1366, 768)];
    assert_eq!(extents(inventory(one, Placement::Top, 0).get_rect()), (1366, 768));
    assert_eq!(extents(inventory(Vec::new(), Placement::Top, 0).get_rect()), (0, 0));
    assert_eq!(extents(inventory(Vec::new(), Placement::Left, 0).get_rect()), (0, 0));
}

#[test]
fn offsets_on_top() {
    let inv = inventory(pair(), Placement::Top, 0);
    assert_eq!(inv.offset(0), (0, 1024));
    assert_eq!(inv.offset(1), (320, 0));
}

#[test]
fn offsets_on_every_side() {
    let inv = inventory(pair(), Placement::Bottom, 0);
    assert_eq!(inv.offset(0), (0, 0));
    assert_eq!(inv.offset(1), (320, 1080));
    let inv = inventory(pair(), Placement::Left, 0);
    assert_eq!(inv.offset(0), (1280, 0));
    assert_eq!(inv.offset(1), (0, 28));
    let inv = inventory(pair(), Placement::Right, 0);
    assert_eq!(inv.offset(0), (0, 0));
    assert_eq!(inv.offset(1), (1920, 28));
    let inv = inventory(pair(), Placement::Clone, 0);
    assert_eq!(inv.offset(0), (0, 0));
    assert_eq!(inv.offset(1), (0, 0));
}

#[test]
fn offsets_stay_within_the_canvas() {
    let sides = [Placement::Top, Placement::Bottom, Placement::Left, Placement::Right];
    for side in sides {
        let monitors =
            vec![monitor("a", 1921, 1080), monitor("b", 1280, 1023), monitor("c", 800, 601)];
        let inv = inventory(monitors, side, 0);
        let canvas = inv.get_rect();
        for i in 0..3 {
            let (x, y) = inv.offset(i);
            let m = &inv.monitors()[i];
            assert!(0 <= x && x + m.width() <= canvas.width());
            assert!(0 <= y && y + m.height() <= canvas.height());
        }
    }
}

#[test]
fn centring_rounds_toward_zero() {
    let canvas = Rect::new(1920, 2104).unwrap();
    let m = monitor("m", 1281, 1023);
    assert_eq!(canvas.offset(&m, &Placement::Top), (319, 0));
    assert_eq!(canvas.offset(&m, &Placement::Left), (0, 540));
    assert_eq!(canvas.offset(&m, &Placement::Bottom), (319, 1081));
    assert_eq!(canvas.offset(&m, &Placement::Right), (639, 540));
    let small = Rect::new(100, 50).unwrap();
    let big = monitor("big", 201, 75);
    assert_eq!(small.offset(&big, &Placement::Top), (-50, 0));
    assert_eq!(small.offset(&big, &Placement::Bottom), (-50, -25));
    assert_eq!(small.offset(&big, &Placement::Left), (0, -12));
    assert_eq!(small.offset(&big, &Placement::Right), (-101, -12));
    assert_eq!(small.offset(&big, &Placement::Clone), (0, 0));
}

#[test]
fn place_writes_the_offset() {
    let canvas = Rect::new(1920, 2104).unwrap();
    assert_eq!(canvas.place(&monitor("eDP1", 1920, 1080), &Placement::Bottom), "0x1024");
    assert_eq!(canvas.place(&monitor("HDMI1", 1280, 1024), &Placement::Top), "320x0");
    assert_eq!(canvas.place(&monitor("HDMI1", 1280, 1024), &Placement::Clone), "0x0");
    let small = Rect::new(100, 50).unwrap();
    assert_eq!(small.place(&monitor("big", 201, 75), &Placement::Right), "-101x-12");
    let none = Rect::new(0, 0).unwrap();
    let huge = monitor("huge", i32::MAX, i32::MAX);
    assert_eq!(none.place(&huge, &Placement::Right), "-2147483647x-1073741823");
    let all = Rect::new(i32::MAX, i32::MAX).unwrap();
    assert_eq!(all.place(&monitor("dot", 1, 1), &Placement::Bottom), "1073741823x2147483646");
}

#[test]
fn setup_of_a_stack() {
    let inv = inventory(pair(), Placement::Top, 0);
    assert_eq!(
        inv.setup_args(),
        vec![
            "--output", "eDP1", "--mode", "1920x1080", "--pos", "0x1024", "--primary", "--output",
            "HDMI1", "--mode", "1280x1024", "--pos", "320x0",
        ]
    );
}

#[test]
fn setup_with_another_primary() {
    let inv = inventory(pair(), Placement::Right, 1);
    assert_eq!(
        inv.setup_args(),
        vec![
            "--output", "eDP1", "--mode", "1920x1080", "--pos", "0x0", "--output", "HDMI1",
            "--mode", "1280x1024", "--pos", "1920x28", "--primary",
        ]
    );
    let inv = inventory(pair(), Placement::Right, 5);
    assert_eq!(
        inv.setup_args(),
        vec![
            "--output", "eDP1", "--mode", "1920x1080", "--pos", "0x0", "--output", "HDMI1",
            "--mode", "1280x1024", "--pos", "1920x28",
        ]
    );
}

#[test]
fn setup_of_clones() {
    let mut monitors = pair();
    monitors.push(monitor("DP2", 800, 600));
    let inv = inventory(monitors, Placement::Clone, 0);
    assert_eq!(
        inv.setup_args(),
        vec![
            "--output", "eDP1", "--mode", "1920x1080", "--pos", "0x0", "--primary", "--output",
            "HDMI1", "--mode", "1280x1024", "--same-as", "eDP1", "--output", "DP2", "--mode",
            "800x600", "--same-as", "eDP1",
        ]
    );
}

#[test]
fn setup_of_one_and_of_none() {
    let one = vec![monitor("eDP1", 1366, 768)];
    let inv = inventory(one, Placement::Left, 3);
    assert_eq!(
        inv.setup_args(),
        vec!["--output", "eDP1", "--mode", "1366x768", "--pos", "0x0", "--primary"]
    );
    assert_eq!(inventory(Vec::new(), Placement::Left, 0).setup_args(), Vec::<String>::new());
}

#[test]
fn same_layout_looks_at_displays_and_placement() {
    let a = inventory(pair(), Placement::Top, 0);
    assert!(a.same_layout(&inventory(pair(), Placement::Top, 0)));
    assert!(a.same_layout(&inventory(pair(), Placement::Top, 1)));
    assert!(!a.same_layout(&inventory(pair(), Placement::Bottom, 0)));
    let mut swapped = pair();
    swapped.reverse();
    assert!(!a.same_layout(&inventory(swapped, Placement::Top, 0)));
    assert!(!a.same_layout(&inventory(vec![monitor("eDP1", 1920, 1080)], Placement::Top, 0)));
    let other = vec![monitor("eDP1", 1920, 1080), monitor("HDMI1", 1280, 1025)];
    assert!(!a.same_layout(&inventory(other, Placement::Top, 0)));
}

#[test]
fn unchanged_poll_asks_for_nothing() {
    let watcher = Watcher::new(inventory(pair(), Placement::Top, 0));
    assert!(watcher.poll(&inventory(pair(), Placement::Top, 0)).is_none());
    let empty = Watcher::new(inventory(Vec::new(), Placement::Top, 0));
    assert!(empty.poll(&inventory(Vec::new(), Placement::Top, 0)).is_none());
}

#[test]
fn unplugged_display_is_switched_off() {
    let mut watcher = Watcher::new(inventory(pair(), Placement::Top, 0));
    let polled = inventory(vec![monitor("eDP1", 1920, 1080)], Placement::Top, 0);
    let todo = watcher.poll(&polled).unwrap();
    assert_eq!(
        todo.apply,
        vec!["--output", "eDP1", "--mode", "1920x1080", "--pos", "0x0", "--primary"]
    );
    assert_eq!(todo.power_off, vec![vec!["--output", "HDMI1", "--off"]]);
    watcher.commit(polled);
    assert_eq!(watcher.applied().monitors().len(), 1);
    assert!(watcher.poll(&inventory(vec![monitor("eDP1", 1920, 1080)], Placement::Top, 0)).is_none());
}

#[test]
fn plugged_display_switches_nothing_off() {
    let watcher = Watcher::new(inventory(vec![monitor("eDP1", 1920, 1080)], Placement::Right, 0));
    let todo = watcher.poll(&inventory(pair(), Placement::Right, 0)).unwrap();
    assert_eq!(
        todo.apply,
        vec![
            "--output", "eDP1", "--mode", "1920x1080", "--pos", "0x0", "--primary", "--output",
            "HDMI1", "--mode", "1280x1024", "--pos", "1920x28",
        ]
    );
    assert!(todo.power_off.is_empty());
}

#[test]
fn only_the_displays_that_are_gone_are_switched_off() {
    let before = vec![
        monitor("A", 800, 600),
        monitor("B", 1024, 768),
        monitor("C", 1280, 1024),
        monitor("D", 1920, 1080),
    ];
    let now = vec![monitor("A", 800, 600), monitor("C", 1280, 1024), monitor("D", 1280, 720)];
    let watcher = Watcher::new(inventory(before, Placement::Left, 0));
    let todo = watcher.poll(&inventory(now, Placement::Left, 0)).unwrap();
    assert_eq!(
        todo.power_off,
        vec![vec!["--output", "B", "--off"], vec!["--output", "D", "--off"]]
    );
}
