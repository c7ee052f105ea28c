//! Version constraints.

use crate::text::{chars_of, parse_u32_at, piece_views, pieces, split_chars, u32_of};
use vstd::prelude::*;

verus! {

/// A bound on versions: `X`, or `X.Y` for a point between two of them. A version `X`
/// stands at `X.0`.
#[derive(Clone, Copy, Debug, PartialEq, Eq, Structural)]
pub struct Bound {
    pub major: u32,
    pub minor: u32,
}

/// A condition on version numbers.
#[derive(Clone, Copy, Debug, PartialEq, Eq, Structural)]
pub enum Constraint {
    /// `>=X`
    AtLeast(Bound),
    /// `<=X`
    AtMost(Bound),
    /// `>X`
    Above(Bound),
    /// `<X`
    Below(Bound),
    /// `^X` and `~X`: from X up to, but not including, the next version
    Compatible(Bound),
    /// `X`
    Exactly(Bound),
}

impl Bound {
    /// Whether a version stands before the bound.
    pub open spec fn is_after(self, version: u32) -> bool {
        version < self.major || (version == self.major && self.minor > 0)
    }

    /// Whether a version stands at the bound.
    pub open spec fn is_at(self, version: u32) -> bool {
        version == self.major && self.minor == 0
    }
}

impl Constraint {
    /// Whether a version meets the constraint.
    pub open spec fn allows(self, version: u32) -> bool {
        match self {
            Constraint::AtLeast(bound) => !bound.is_after(version),
            Constraint::AtMost(bound) => bound.is_after(version) || bound.is_at(version),
            Constraint::Above(bound) => !bound.is_after(version) && !bound.is_at(version),
            Constraint::Below(bound) => bound.is_after(version),
            Constraint::Compatible(base) => !base.is_after(version) && version < base.major + 1,
            Constraint::Exactly(exact) => exact.is_at(version),
        }
    }

    pub fn matches_version(&self, version: u32) -> (r: bool)
        ensures
            r == self.allows(version),
    {
        match *self {
            Constraint::AtLeast(b) => version > b.major || (version == b.major && b.minor == 0),
            Constraint::AtMost(b) => version <= b.major,
            Constraint::Above(b) => version > b.major,
            Constraint::Below(b) => version < b.major || (version == b.major && b.minor > 0),
            Constraint::Compatible(b) => version == b.major && b.minor == 0,
            Constraint::Exactly(b) => version == b.major && b.minor == 0,
        }
    }
}

/// Whether a version meets every one of the constraints.
pub open spec fn all_allow(constraints: Seq<Constraint>, version: u32) -> bool {
    forall|i: int| 0 <= i < constraints.len() ==> (#[trigger] constraints[i]).allows(version)
}

/// Whether a version meets every one of the constraints.
pub fn match_version(constraints: &Vec<Constraint>, version: u32) -> (r: bool)
    ensures
        r == all_allow(constraints@, version),
{
    let mut i: usize = 0;
    while i < constraints.len()
        invariant
            i <= constraints@.len(),
            forall|j: int| 0 <= j < i ==> (#[trigger] constraints@[j]).allows(version),
        decreases constraints@.len() - i,
    {
        if !constraints[i].matches_version(version) {
            proof {
                assert(!constraints@[i as int].allows(version));
            }
            return false;
        }
        i = i + 1;
    }
    true
}

/// The bound that a text writes: one number, or two with a point between them.
pub open spec fn bound_of(text: Seq<char>) -> Option<Bound> {
    let parts = pieces(text, '.');
    if parts.len() == 1 {
        match u32_of(parts[0]) {
            Some(major) => Some(Bound { major, minor: 0 }),
            None => None,
        }
    } else if parts.len() == 2 {
        match (u32_of(parts[0]), u32_of(parts[1])) {
            (Some(major), Some(minor)) => Some(Bound { major, minor }),
            _ => None,
        }
    } else {
        None
    }
}

/// A constraint on the bound that is written at `from`.
pub open spec fn made_of(text: Seq<char>, from: int, make: spec_fn(Bound) -> Constraint) -> Option<Constraint> {
    match bound_of(text.skip(from)) {
        Some(bound) => Some(make(bound)),
        None => None,
    }
}

/// What a text says of versions: a bound, behind `>=`, `<=`, `>`, `<`, `^`, `~` or nothing.
pub open spec fn constraint_of(text: Seq<char>) -> Option<Constraint> {
    if text.len() >= 2 && text[0] == '>' && text[1] == '=' {
        made_of(text, 2, |b: Bound| Constraint::AtLeast(b))
    } else if text.len() >= 2 && text[0] == '<' && text[1] == '=' {
        made_of(text, 2, |b: Bound| Constraint::AtMost(b))
    } else if text.len() >= 1 && text[0] == '>' {
        made_of(text, 1, |b: Bound| Constraint::Above(b))
    } else if text.len() >= 1 && text[0] == '<' {
        made_of(text, 1, |b: Bound| Constraint::Below(b))
    } else if text.len() >= 1 && (text[0] == '^' || text[0] == '~') {
        made_of(text, 1, |b: Bound| Constraint::Compatible(b))
    } else {
        made_of(text, 0, |b: Bound| Constraint::Exactly(b))
    }
}

/// What the texts of a list say of versions; nothing where one of them says nothing.
pub open spec fn all_constraints(texts: Seq<Seq<char>>) -> Option<Seq<Constraint>>
    decreases texts.len(),
{
    if texts.len() == 0 {
        Some(seq![])
    } else {
        match (all_constraints(texts.drop_last()), constraint_of(texts.last())) {
            (Some(constraints), Some(constraint)) => Some(constraints.push(constraint)),
            _ => None,
        }
    }
}

/// What a text says of versions: constraints with commas between them, all of which are
/// to be met.
pub open spec fn constraints_of(text: Seq<char>) -> Option<Seq<Constraint>> {
    all_constraints(pieces(text, ','))
}

/// The bound that is written from `from` on.
fn parse_bound(chars: &Vec<char>, from: usize) -> (r: Option<Bound>)
    requires
        from <= chars.len(),
    ensures
        r == bound_of(chars@.skip(from as int)),
{
    let parts: Vec<Vec<char>> = split_chars(chars, from, '.');
    proof {
        assert(piece_views(parts@).len() == parts@.len());
        assert(forall|i: int|
            0 <= i < parts@.len() ==> piece_views(parts@)[i] == (#[trigger] parts@[i])@);
        assert(forall|i: int|
            0 <= i < parts@.len() ==> (#[trigger] parts@[i])@.skip(0) =~= parts@[i]@);
    }
    if parts.len() == 1 {
        match parse_u32_at(&parts[0], 0) {
            Some(major) => Some(Bound { major, minor: 0 }),
            None => None,
        }
    } else if parts.len() == 2 {
        match (parse_u32_at(&parts[0], 0), parse_u32_at(&parts[1], 0)) {
            (Some(major), Some(minor)) => Some(Bound { major, minor }),
            _ => None,
        }
    } else {
        None
    }
}

/// Reads one constraint.
fn parse_one(chars: &Vec<char>) -> (r: Option<Constraint>)
    ensures
        r == constraint_of(chars@),
{
    if chars.len() >= 2 && chars[0] == '>' && chars[1] == '=' {
        match parse_bound(chars, 2) {
            Some(bound) => Some(Constraint::AtLeast(bound)),
            None => None,
        }
    } else if chars.len() >= 2 && chars[0] == '<' && chars[1] == '=' {
        match parse_bound(chars, 2) {
            Some(bound) => Some(Constraint::AtMost(bound)),
            None => None,
        }
    } else if chars.len() >= 1 && chars[0] == '>' {
        match parse_bound(chars, 1) {
            Some(bound) => Some(Constraint::Above(bound)),
            None => None,
        }
    } else if chars.len() >= 1 && chars[0] == '<' {
        match parse_bound(chars, 1) {
            Some(bound) => Some(Constraint::Below(bound)),
            None => None,
        }
    } else if chars.len() >= 1 && (chars[0] == '^' || chars[0] == '~') {
        match parse_bound(chars, 1) {
            Some(bound) => Some(Constraint::Compatible(bound)),
            None => None,
        }
    } else {
        match parse_bound(chars, 0) {
            Some(bound) => Some(Constraint::Exactly(bound)),
            None => None,
        }
    }
}

/// Nothing is said by a list of which a part says nothing.
proof fn lemma_all_constraints_grow(texts: Seq<Seq<char>>, n: int)
    requires
        0 <= n <= texts.len(),
        all_constraints(texts.take(n)) is None,
    ensures
        all_constraints(texts) is None,
    decreases texts.len() - n,
{
    if n < texts.len() {
        assert(texts.take(n + 1).drop_last() =~= texts.take(n));
        lemma_all_constraints_grow(texts, n + 1);
    } else {
        assert(texts.take(n) =~= texts);
    }
}

/// Reads constraints with commas between them.
pub fn parse_constraints(text: &str) -> (r: Option<Vec<Constraint>>)
    ensures
        match r {
            Some(constraints) => constraints_of(text@) == Some(constraints@),
            None => constraints_of(text@) is None,
        },
{
    let chars: Vec<char> = chars_of(text);
    let parts: Vec<Vec<char>> = split_chars(&chars, 0, ',');
    let ghost texts = piece_views(parts@);
    proof {
        assert(chars@.skip(0) =~= text@);
        assert(texts == pieces(text@, ','));
        assert(texts.take(0) =~= Seq::<Seq<char>>::empty());
    }
    let mut constraints: Vec<Constraint> = Vec::new();
    let mut i: usize = 0;
    while i < parts.len()
        invariant
            i <= parts@.len(),
            texts == piece_views(parts@),
            texts == pieces(text@, ','),
            all_constraints(texts.take(i as int)) == Some(constraints@),
        decreases parts@.len() - i,
    {
        proof {
            assert(texts.take(i + 1).drop_last() =~= texts.take(i as int));
            assert(texts.take(i + 1).last() == parts@[i as int]@);
        }
        match parse_one(&parts[i]) {
            Some(constraint) => {
                constraints.push(constraint);
            },
            None => {
                proof {
                    lemma_all_constraints_grow(texts, i + 1);
                }
                return None;
            },
        }
        i = i + 1;
    }
    proof {
        assert(texts.take(i as int) =~= texts);
    }
    Some(constraints)
}

} // verus!
