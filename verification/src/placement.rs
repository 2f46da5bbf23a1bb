//! Where the further displays go, seen from the first one.

use crate::text::{chars_of, same_chars};
use vstd::prelude::*;

verus! {

#[derive(Clone, Copy, Debug, PartialEq, Eq, Structural)]
pub enum Placement {
    Top,
    Bottom,
    Left,
    Right,
    Clone,
}

/// A word that names no placement.
#[derive(Clone, Copy, Debug, PartialEq, Eq, Structural)]
pub struct InvalidPlacement;

/// What `str::to_lowercase` makes of a text.
pub uninterp spec fn lowercase(s: Seq<char>) -> Seq<char>;

/// `str::to_lowercase` of std: the result is the lowercase form of the
/// argument, which depends on the argument's characters alone. Nothing more
/// is claimed of it.
#[verifier::external_body]
fn to_lowercase(s: &str) -> (r: String)
    ensures
        r@ == lowercase(s@),
{
    s.to_lowercase()
}

/// The placement that a word in lower case names.
pub open spec fn placement_named(word: Seq<char>) -> Option<Placement> {
    if word == "top"@ {
        Some(Placement::Top)
    } else if word == "bottom"@ {
        Some(Placement::Bottom)
    } else if word == "left"@ {
        Some(Placement::Left)
    } else if word == "right"@ {
        Some(Placement::Right)
    } else if word == "clone"@ {
        Some(Placement::Clone)
    } else {
        None
    }
}

impl Placement {
    /// The opposite side; a clone stays a clone.
    pub open spec fn inverted(self) -> Placement {
        match self {
            Placement::Top => Placement::Bottom,
            Placement::Bottom => Placement::Top,
            Placement::Left => Placement::Right,
            Placement::Right => Placement::Left,
            Placement::Clone => Placement::Clone,
        }
    }

    /// Whether the displays are stacked one above the other.
    pub open spec fn is_stacked(self) -> bool {
        self == Placement::Top || self == Placement::Bottom
    }

    pub fn invert(&self) -> (r: Placement)
        ensures
            r == self.inverted(),
    {
        match self {
            Placement::Top => Placement::Bottom,
            Placement::Bottom => Placement::Top,
            Placement::Right => Placement::Left,
            Placement::Left => Placement::Right,
            Placement::Clone => Placement::Clone,
        }
    }

    /// The placement that `word` names, letter for letter.
    pub fn from_lowercase(word: &str) -> (r: Result<Placement, InvalidPlacement>)
        ensures
            match placement_named(word@) {
                Some(p) => r == Ok::<Placement, InvalidPlacement>(p),
                None => r == Err::<Placement, InvalidPlacement>(InvalidPlacement),
            },
    {
        let w = chars_of(word);
        if same_chars(&w, &chars_of("top")) {
            Ok(Placement::Top)
        } else if same_chars(&w, &chars_of("bottom")) {
            Ok(Placement::Bottom)
        } else if same_chars(&w, &chars_of("left")) {
            Ok(Placement::Left)
        } else if same_chars(&w, &chars_of("right")) {
            Ok(Placement::Right)
        } else if same_chars(&w, &chars_of("clone")) {
            Ok(Placement::Clone)
        } else {
            Err(InvalidPlacement)
        }
    }

    /// The placement that `s` names, whatever the case of its letters.
    pub fn from_str(s: &str) -> (r: Result<Placement, InvalidPlacement>)
        ensures
            match placement_named(lowercase(s@)) {
                Some(p) => r == Ok::<Placement, InvalidPlacement>(p),
                None => r == Err::<Placement, InvalidPlacement>(InvalidPlacement),
            },
    {
        let lower = to_lowercase(s);
        Placement::from_lowercase(lower.as_str())
    }
}

/// Inverting twice gives the placement back, and a clone is its own inverse.
pub proof fn lemma_invert_is_involution(p: Placement)
    ensures
        p.inverted().inverted() == p,
        Placement::Clone.inverted() == Placement::Clone,
{
}

} // verus!
