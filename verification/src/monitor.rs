//! One connected display, and how it is read from two lines of a report.

use crate::number::{dimension, parse_dimension};
use crate::rect::{pair_string, pair_text};
use crate::text::{
    chars_of, find_char, first_token, first_token_span, lemma_position_finds, position_of,
};
use vstd::prelude::*;
use vstd::string::*;

verus! {

/// What a `Monitor` stands for.
pub struct MonitorView {
    pub name: Seq<char>,
    pub width: int,
    pub height: int,
}

/// A connected display: the name of its output and its resolution, both
/// extents positive.
#[derive(Debug, PartialEq, Eq)]
pub struct Monitor {
    width: i32,
    height: i32,
    name: String,
}

/// A field of a resolution that is no extent.
#[derive(Clone, Copy, Debug, PartialEq, Eq, Structural)]
pub enum ParseError {
    BadWidth,
    BadHeight,
}

impl View for Monitor {
    type V = MonitorView;

    closed spec fn view(&self) -> MonitorView {
        MonitorView { name: self.name@, width: self.width as int, height: self.height as int }
    }
}

/// The resolution that a token of the form `<width>x<height>` gives. A token
/// without an `x` gives none. What follows a second `x` is not read.
pub open spec fn mode_of(token: Seq<char>) -> Result<Option<(int, int)>, ParseError> {
    let k = position_of(token, 'x', 0);
    if k >= token.len() {
        Ok(None)
    } else {
        let e = position_of(token, 'x', k + 1);
        match dimension(token.subrange(0, k)) {
            None => Err(ParseError::BadWidth),
            Some(w) => match dimension(token.subrange(k + 1, e)) {
                None => Err(ParseError::BadHeight),
                Some(h) => Ok(Some((w, h))),
            },
        }
    }
}

/// The display that a header line and the line after it describe: the
/// header's first token is its name, the next line's first token its
/// resolution. Where either line has no token, or the second has one without
/// an `x`, there is no display.
pub open spec fn monitor_of(line: Seq<char>, next: Seq<char>) -> Result<
    Option<MonitorView>,
    ParseError,
> {
    match first_token(line) {
        None => Ok(None),
        Some(name) => match first_token(next) {
            None => Ok(None),
            Some(token) => match mode_of(token) {
                Err(e) => Err(e),
                Ok(None) => Ok(None),
                Ok(Some((w, h))) => Ok(Some(MonitorView { name, width: w, height: h })),
            },
        },
    }
}

/// Whether `r` is `expected`, each display taken by its view.
pub open spec fn parsed_as(
    r: Result<Option<Monitor>, ParseError>,
    expected: Result<Option<MonitorView>, ParseError>,
) -> bool {
    match expected {
        Err(e) => r == Err::<Option<Monitor>, ParseError>(e),
        Ok(None) => r == Ok::<Option<Monitor>, ParseError>(None),
        Ok(Some(v)) => r is Ok && r->Ok_0 is Some && r->Ok_0->0@ == v,
    }
}

impl Monitor {
    #[verifier::type_invariant]
    pub closed spec fn wf(self) -> bool {
        0 < self.width && 0 < self.height
    }

    /// The display of the given name and resolution, where both extents are
    /// positive.
    pub fn new(name: &str, width: i32, height: i32) -> (r: Option<Monitor>)
        ensures
            r is Some <==> 0 < width && 0 < height,
            r is Some ==> r->0@ == (MonitorView {
                name: name@,
                width: width as int,
                height: height as int,
            }),
    {
        if width > 0 && height > 0 {
            Some(Monitor { width, height, name: String::from_str(name) })
        } else {
            None
        }
    }

    pub fn name(&self) -> (s: &str)
        ensures
            s@ == self@.name,
    {
        self.name.as_str()
    }

    pub fn width(&self) -> (w: i32)
        ensures
            w == self@.width,
            0 < w,
    {
        proof {
            use_type_invariant(self);
        }
        self.width
    }

    pub fn height(&self) -> (h: i32)
        ensures
            h == self@.height,
            0 < h,
    {
        proof {
            use_type_invariant(self);
        }
        self.height
    }

    /// Whether both displays have the same name and resolution.
    pub fn same_as(&self, other: &Monitor) -> (b: bool)
        ensures
            b == (self@ == other@),
    {
        self.width == other.width && self.height == other.height && self.name == other.name
    }

    /// The resolution as the configuration command takes it.
    pub fn resolution(&self) -> (s: String)
        ensures
            s@ == pair_text(self@.width, self@.height),
    {
        pair_string(self.width, self.height)
    }

    /// Reads a display from a header line and the line that follows it.
    pub fn from_line(line: &str, next: &str) -> (r: Result<Option<Monitor>, ParseError>)
        ensures
            parsed_as(r, monitor_of(line@, next@)),
    {
        let head = chars_of(line);
        let (a, b) = match first_token_span(&head) {
            None => {
                return Ok(None);
            },
            Some(span) => span,
        };
        let mode = chars_of(next);
        let (s, e) = match first_token_span(&mode) {
            None => {
                return Ok(None);
            },
            Some(span) => span,
        };
        let ghost token = mode@.subrange(s as int, e as int);
        let k = find_char(&mode, 'x', s);
        proof {
            lemma_position_in_token(mode@, 'x', s as int, e as int, s as int);
        }
        if k >= e {
            return Ok(None);
        }
        let k2 = find_char(&mode, 'x', k + 1);
        let stop: usize = if k2 < e {
            k2
        } else {
            e
        };
        proof {
            lemma_position_in_token(mode@, 'x', s as int, e as int, k + 1);
            assert(token.subrange(0, k - s) =~= mode@.subrange(s as int, k as int));
            assert(token.subrange(k + 1 - s, stop - s) =~= mode@.subrange(k + 1, stop as int));
        }
        let width = match parse_dimension(&mode, s, k) {
            None => {
                return Err(ParseError::BadWidth);
            },
            Some(w) => w,
        };
        let height = match parse_dimension(&mode, k + 1, stop) {
            None => {
                return Err(ParseError::BadHeight);
            },
            Some(h) => h,
        };
        let name = String::from_str(line.substring_char(a, b));
        Ok(Some(Monitor { width, height, name }))
    }
}

/// Searching from `i` inside the part of `s` from `a` up to `b` finds what
/// searching `s` itself finds, cut off at `b`.
pub proof fn lemma_position_in_token(s: Seq<char>, c: char, a: int, b: int, i: int)
    requires
        0 <= a <= i <= b <= s.len(),
    ensures
        position_of(s.subrange(a, b), c, i - a) == (if position_of(s, c, i) < b {
            position_of(s, c, i) - a
        } else {
            b - a
        }),
    decreases b - i,
{
    let t = s.subrange(a, b);
    if i < b {
        assert(t[i - a] == s[i]);
        if s[i] != c {
            lemma_position_in_token(s, c, a, b, i + 1);
        }
    } else {
        lemma_position_finds(s, c, i);
    }
}

} // verus!
