//! The direction of an `extmap` attribute.

use vstd::prelude::*;

verus! {

/// Which way the media of an extension flows.
#[derive(Debug, Clone, Copy, Default, PartialEq, Eq, Structural)]
pub enum Direction {
    #[default]
    Unspecified,
    SendRecv,
    SendOnly,
    RecvOnly,
    Inactive,
}

/// The token that names `d` in an attribute (the unspecified direction has
/// none; its display form is `Unspecified`).
pub open spec fn direction_text(d: Direction) -> Seq<char> {
    match d {
        Direction::SendRecv => seq!['s', 'e', 'n', 'd', 'r', 'e', 'c', 'v'],
        Direction::SendOnly => seq!['s', 'e', 'n', 'd', 'o', 'n', 'l', 'y'],
        Direction::RecvOnly => seq!['r', 'e', 'c', 'v', 'o', 'n', 'l', 'y'],
        Direction::Inactive => seq!['i', 'n', 'a', 'c', 't', 'i', 'v', 'e'],
        Direction::Unspecified => seq!['U', 'n', 's', 'p', 'e', 'c', 'i', 'f', 'i', 'e', 'd'],
    }
}

/// The direction that a token names; anything else is unspecified.
pub open spec fn direction_of(raw: Seq<char>) -> Direction {
    if raw == direction_text(Direction::SendRecv) {
        Direction::SendRecv
    } else if raw == direction_text(Direction::SendOnly) {
        Direction::SendOnly
    } else if raw == direction_text(Direction::RecvOnly) {
        Direction::RecvOnly
    } else if raw == direction_text(Direction::Inactive) {
        Direction::Inactive
    } else {
        Direction::Unspecified
    }
}

impl Direction {
    /// The direction named by `raw`.
    pub fn new(raw: &str) -> (r: Direction)
        ensures
            r == direction_of(raw@),
    {
        let cs = crate::text::chars_of(raw);
        Direction::from_chars(&cs)
    }

    pub fn from_chars(raw: &Vec<char>) -> (r: Direction)
        ensures
            r == direction_of(raw@),
    {
        let cands = [Direction::SendRecv, Direction::SendOnly, Direction::RecvOnly, Direction::Inactive];
        let mut i: usize = 0;
        while i < 4
            invariant
                0 <= i <= 4,
                cands@ == seq![Direction::SendRecv, Direction::SendOnly, Direction::RecvOnly, Direction::Inactive],
                forall|j: int| 0 <= j < i ==> raw@ != direction_text(#[trigger] cands@[j]),
            decreases 4 - i,
        {
            let t = cands[i].text();
            if crate::text::same_chars(raw, &t) {
                return cands[i];
            }
            i = i + 1;
        }
        assert(raw@ != direction_text(cands@[0]));
        assert(raw@ != direction_text(cands@[1]));
        assert(raw@ != direction_text(cands@[2]));
        assert(raw@ != direction_text(cands@[3]));
        Direction::Unspecified
    }

    /// The characters of this direction's name.
    pub fn text(&self) -> (r: Vec<char>)
        ensures
            r@ == direction_text(*self),
    {
        match self {
            Direction::SendRecv => vec!['s', 'e', 'n', 'd', 'r', 'e', 'c', 'v'],
            Direction::SendOnly => vec!['s', 'e', 'n', 'd', 'o', 'n', 'l', 'y'],
            Direction::RecvOnly => vec!['r', 'e', 'c', 'v', 'o', 'n', 'l', 'y'],
            Direction::Inactive => vec!['i', 'n', 'a', 'c', 't', 'i', 'v', 'e'],
            Direction::Unspecified => vec!['U', 'n', 's', 'p', 'e', 'c', 'i', 'f', 'i', 'e', 'd'],
        }
    }

    /// The name of this direction, as it is written in an attribute.
    pub fn to_string(&self) -> (r: String)
        ensures
            r@ == direction_text(*self),
    {
        crate::text::string_of(&self.text())
    }
}

} // verus!
