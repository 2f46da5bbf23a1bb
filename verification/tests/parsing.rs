use enact::lines::split_lines;
use enact::monitor::{Monitor, ParseError};
use enact::placement::Placement;
use enact::report::{line_is_header, parse_lines};
use enact::xrandr::{InventoryError, Xrandr};

fn lines(text: &[&str]) -> Vec<String> {
    text.iter().map(|l| l.to_string()).collect()
}

fn described(monitors: &[Monitor]) -> Vec<(String, i32, i32)> {
    monitors.iter().map(|m| (m.name().to_string(), m.width(), m.height())).collect()
}

fn expect(items: &[(&str, i32, i32)]) -> Vec<(String, i32, i32)> {
    items.iter().map(|(n, w, h)| (n.to_string(), *w, *h)).collect()
}

#[test]
fn two_displays_are_read_in_order() {
    let report =
        lines(&["eDP1 connected", "1920x1080 60.00*+", "HDMI1 connected", "1280x1024 60.00*+"]);
    let found = parse_lines(&report).unwrap();
    assert_eq!(described(&found), expect(&[("eDP1", 1920, 1080), ("HDMI1", 1280, 1024)]));
}

#[test]
fn reading_twice_gives_the_same_displays() {
    let report =
        lines(&["eDP1 connected", "1920x1080 60.00*+", "HDMI1 connected", "1280x1024 60.00*+"]);
    let first = parse_lines(&report).unwrap();
    let second = parse_lines(&report).unwrap();
    assert_eq!(first, second);
}

#[test]
fn empty_report_has_no_display() {
    assert_eq!(parse_lines(&Vec::new()).unwrap(), Vec::new());
    assert_eq!(Xrandr::new("", Placement::Left, 0).unwrap().monitors().len(), 0);
}

#[test]
fn header_at_the_end_is_dropped() {
    let found = parse_lines(&lines(&["HDMI1 connected"])).unwrap();
    assert!(found.is_empty());
    let found =
        parse_lines(&lines(&["eDP1 connected", "1920x1080 60.00*+", "HDMI1 connected"])).unwrap();
    assert_eq!(described(&found), expect(&[("eDP1", 1920, 1080)]));
}

#[test]
fn header_before_a_word_is_dropped() {
    let found = parse_lines(&lines(&["HDMI1 connected", "off"])).unwrap();
    assert!(found.is_empty());
    let found = parse_lines(&lines(&["HDMI1 connected", "   "])).unwrap();
    assert!(found.is_empty());
}

#[test]
fn header_before_a_header_is_dropped() {
    let found =
        parse_lines(&lines(&["DP1 connected", "HDMI1 connected", "1280x1024 60.00*+"])).unwrap();
    assert_eq!(described(&found), expect(&[("HDMI1", 1280, 1024)]));
    let found =
        parse_lines(&lines(&["x1 connected", "x2 connected", "1280x1024", "800x600"])).unwrap();
    assert_eq!(described(&found), expect(&[("x2", 1280, 1024)]));
}

#[test]
fn lines_that_follow_no_header_are_not_read() {
    let report = lines(&[
        "Screen 0: minimum 8 x 8, current 1920 x 1080, maximum 32767 x 32767",
        "eDP1 connected primary 1920x1080+0+0 (normal left inverted right x axis y axis)",
        "   1920x1080     60.00*+  59.93",
        "   1680x1050     59.88",
        "HDMI1 disconnected (normal left inverted right x axis y axis)",
        "HDMI2 connected (normal left inverted right x axis y axis)",
        "   1280x1024     60.02 +",
        "   axb     60.02 +",
    ]);
    let found = parse_lines(&report).unwrap();
    assert_eq!(described(&found), expect(&[("eDP1", 1920, 1080), ("HDMI2", 1280, 1024)]));
}

#[test]
fn a_bad_field_ends_the_reading() {
    assert_eq!(
        parse_lines(&lines(&["HDMI1 connected", "1280xabc"])),
        Err(ParseError::BadHeight)
    );
    assert_eq!(parse_lines(&lines(&["HDMI1 connected", "axb"])), Err(ParseError::BadWidth));
    assert_eq!(parse_lines(&lines(&["HDMI1 connected", "x"])), Err(ParseError::BadWidth));
    assert_eq!(parse_lines(&lines(&["HDMI1 connected", "1280x"])), Err(ParseError::BadHeight));
    assert_eq!(parse_lines(&lines(&["HDMI1 connected", "0x1024"])), Err(ParseError::BadWidth));
    assert_eq!(parse_lines(&lines(&["HDMI1 connected", "1280x-5"])), Err(ParseError::BadHeight));
    assert_eq!(
        parse_lines(&lines(&["HDMI1 connected", "1280x2147483648"])),
        Err(ParseError::BadHeight)
    );
    assert_eq!(
        parse_lines(&lines(&[
            "eDP1 connected",
            "1920x1080",
            "HDMI1 connected",
            "12a0x1024",
            "DP1 connected",
            "800x"
        ])),
        Err(ParseError::BadWidth)
    );
}

#[test]
fn from_line_reads_name_and_resolution() {
    let m = Monitor::from_line("  eDP1 connected primary", "\t1920x1080 60.00*+").unwrap().unwrap();
    assert_eq!((m.name(), m.width(), m.height()), ("eDP1", 1920, 1080));
    let m = Monitor::from_line("eDP1", "+1920x0001080x60").unwrap().unwrap();
    assert_eq!((m.name(), m.width(), m.height()), ("eDP1", 1920, 1080));
    let m = Monitor::from_line("eDP1", "2147483647x1").unwrap().unwrap();
    assert_eq!((m.width(), m.height()), (2147483647, 1));
    let m = Monitor::from_line("\u{3000}eDP1\u{a0}connected", "\u{2003}1920x1080").unwrap().unwrap();
    assert_eq!((m.name(), m.width(), m.height()), ("eDP1", 1920, 1080));
}

#[test]
fn from_line_without_tokens_gives_nothing() {
    assert_eq!(Monitor::from_line("", "1920x1080"), Ok(None));
    assert_eq!(Monitor::from_line("   ", "1920x1080"), Ok(None));
    assert_eq!(Monitor::from_line("eDP1", ""), Ok(None));
    assert_eq!(Monitor::from_line("eDP1", "1920"), Ok(None));
    assert_eq!(Monitor::from_line("eDP1", "off"), Ok(None));
    assert_eq!(Monitor::from_line("", "axb"), Ok(None));
}

#[test]
fn from_line_reports_the_bad_field() {
    assert_eq!(Monitor::from_line("eDP1", "19 20x1080"), Ok(None));
    assert_eq!(Monitor::from_line("eDP1", "1920x10 80").map(|m| m.map(|m| m.height())), Ok(Some(10)));
    assert_eq!(Monitor::from_line("eDP1", "-1920x1080"), Err(ParseError::BadWidth));
    assert_eq!(Monitor::from_line("eDP1", "++1920x1080"), Err(ParseError::BadWidth));
    assert_eq!(Monitor::from_line("eDP1", "+x1080"), Err(ParseError::BadWidth));
    assert_eq!(Monitor::from_line("eDP1", "1920xx1080"), Err(ParseError::BadHeight));
    assert_eq!(Monitor::from_line("eDP1", "1920x00"), Err(ParseError::BadHeight));
    assert_eq!(Monitor::from_line("eDP1", "99999999999x1"), Err(ParseError::BadWidth));
    assert_eq!(Monitor::from_line("eDP1", "1x2147483650"), Err(ParseError::BadHeight));
    assert_eq!(Monitor::from_line("eDP1", "axb"), Err(ParseError::BadWidth));
}

#[test]
fn headers_are_told_by_the_word_connected() {
    assert!(line_is_header("eDP1 connected"));
    assert!(line_is_header("eDP1 connected primary 1920x1080+0+0"));
    assert!(line_is_header(" connected"));
    assert!(!line_is_header("HDMI1 disconnected (normal left inverted right x axis y axis)"));
    assert!(!line_is_header("connected"));
    assert!(!line_is_header(" connecte"));
    assert!(!line_is_header(""));
    assert!(!line_is_header("   1920x1080     60.00*+"));
}

#[test]
fn lines_are_cut_at_line_feeds() {
    assert_eq!(split_lines(""), Vec::<String>::new());
    assert_eq!(split_lines("a"), vec!["a"]);
    assert_eq!(split_lines("a\n"), vec!["a"]);
    assert_eq!(split_lines("\n"), vec![""]);
    assert_eq!(split_lines("a\n\nb"), vec!["a", "", "b"]);
    assert_eq!(split_lines("a\r\nb\r\n"), vec!["a", "b"]);
    assert_eq!(split_lines("a\rb\r"), vec!["a\rb\r"]);
    assert_eq!(split_lines("\r\n\r"), vec!["", "\r"]);
}

#[test]
fn inventory_is_read_from_a_report() {
    let report = "Screen 0: minimum 8 x 8\neDP1 connected primary\n   1920x1080 60.00*+\r\nHDMI1 connected\n  1280x1024 60.00*+\n";
    let inventory = Xrandr::new(report, Placement::Right, 1).unwrap();
    assert_eq!(
        described(inventory.monitors()),
        expect(&[("eDP1", 1920, 1080), ("HDMI1", 1280, 1024)])
    );
    assert_eq!(inventory.placement(), Placement::Right);
    assert_eq!(inventory.new_primary(), 1);
}

#[test]
fn inventory_errors() {
    assert_eq!(
        Xrandr::new("eDP1 connected\n1920xabc\n", Placement::Top, 0).err(),
        Some(InventoryError::Unreadable(ParseError::BadHeight))
    );
    assert_eq!(
        Xrandr::new("eDP1 connected\nxabc\n", Placement::Top, 0).err(),
        Some(InventoryError::Unreadable(ParseError::BadWidth))
    );
    let wide = "A connected\n2147483647x10\nB connected\n1x2147483647\n";
    assert_eq!(Xrandr::new(wide, Placement::Left, 0).err(), Some(InventoryError::TooLarge));
    assert_eq!(Xrandr::new(wide, Placement::Clone, 0).err(), Some(InventoryError::TooLarge));
    assert_eq!(Xrandr::new(wide, Placement::Top, 0).err(), Some(InventoryError::TooLarge));
    let narrow = "A connected\n2147483647x10\nB connected\n2147483647x20\n";
    assert!(Xrandr::new(narrow, Placement::Top, 0).is_ok());
    assert_eq!(Xrandr::new(narrow, Placement::Right, 0).err(), Some(InventoryError::TooLarge));
}
