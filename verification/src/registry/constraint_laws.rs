//! What version constraints mean, and how they are written.

use super::constraint::{
    all_allow, all_constraints, bound_of, constraint_of, constraints_of, Bound, Constraint,
};
use crate::text::{decimal_of, pieces, u32_of};
use crate::text_laws::{decimal_reads_back, decimal_stands_for_its_number, texts_are_cut_at_separators};
use vstd::prelude::*;

verus! {

/// A constraint compares points on a line: version `v` stands at `v`, and a bound `X.Y` at `Y`
/// parts of 2^32 behind `X`. `>=` is met by every version from the bound on, without an upper
/// limit, `>` by those behind it, `<=` by those up to it, `<` by those before it, `^` and `~`
/// by those from it up to the next whole number, which does not belong to them, and a bare
/// bound by the version that stands there.
pub proof fn constraints_compare_points(bound: Bound, version: u32)
    ensures
        ({
            let at = version * 0x1_0000_0000;
            let point = bound.major * 0x1_0000_0000 + bound.minor;
            let next = bound.major * 0x1_0000_0000 + 0x1_0000_0000;
            &&& Constraint::AtLeast(bound).allows(version) == (at >= point)
            &&& Constraint::Above(bound).allows(version) == (at > point)
            &&& Constraint::AtMost(bound).allows(version) == (at <= point)
            &&& Constraint::Below(bound).allows(version) == (at < point)
            &&& Constraint::Compatible(bound).allows(version) == (point <= at && at < next)
            &&& Constraint::Exactly(bound).allows(version) == (at == point)
        }),
{
}

/// A whole bound is met by exactly the versions that compare with it as they should.
pub proof fn whole_bounds_compare_versions(x: u32, version: u32)
    ensures
        ({
            let bound = Bound { major: x, minor: 0 };
            &&& Constraint::AtLeast(bound).allows(version) <==> version >= x
            &&& Constraint::Above(bound).allows(version) <==> version > x
            &&& Constraint::AtMost(bound).allows(version) <==> version <= x
            &&& Constraint::Below(bound).allows(version) <==> version < x
            &&& Constraint::Compatible(bound).allows(version) <==> version == x
            &&& Constraint::Exactly(bound).allows(version) <==> version == x
        }),
{
}

/// Every version meets exactly one of `>=` and `<`, and exactly one of `>` and `<=`, of the
/// same bound; a higher version meets `>=` and `>` where a lower one does, and a lower one
/// `<=` and `<` where a higher one does.
pub proof fn constraints_divide_versions(bound: Bound, lower: u32, higher: u32)
    requires
        lower <= higher,
    ensures
        Constraint::AtLeast(bound).allows(lower) != Constraint::Below(bound).allows(lower),
        Constraint::Above(bound).allows(lower) != Constraint::AtMost(bound).allows(lower),
        Constraint::AtLeast(bound).allows(lower) ==> Constraint::AtLeast(bound).allows(higher),
        Constraint::Above(bound).allows(lower) ==> Constraint::Above(bound).allows(higher),
        Constraint::AtMost(bound).allows(higher) ==> Constraint::AtMost(bound).allows(lower),
        Constraint::Below(bound).allows(higher) ==> Constraint::Below(bound).allows(lower),
{
}

/// Several constraints are met together by exactly the versions that meet each of them.
pub proof fn constraints_are_met_together(a: Seq<Constraint>, b: Seq<Constraint>, version: u32)
    ensures
        all_allow(a + b, version) == (all_allow(a, version) && all_allow(b, version)),
        all_allow(seq![], version),
        forall|one: Constraint| #[trigger]
            all_allow(seq![one], version) == one.allows(version),
{
    assert(forall|i: int| 0 <= i < a.len() ==> #[trigger] a[i] == (a + b)[i]);
    assert(forall|i: int| 0 <= i < b.len() ==> #[trigger] b[i] == (a + b)[a.len() + i]);
    assert forall|one: Constraint| #[trigger] all_allow(seq![one], version) == one.allows(version) by {
        assert(seq![one][0] == one);
    }
}

/// A bound is written as one number, or as two with a point between them, and in no other
/// way.
pub proof fn bounds_are_one_or_two_numbers(a: Seq<char>, b: Seq<char>)
    requires
        !a.contains('.'),
    ensures
        bound_of(a) == match u32_of(a) {
            Some(major) => Some(Bound { major, minor: 0 }),
            None => None,
        },
        !b.contains('.') ==> bound_of(a.push('.') + b) == match (u32_of(a), u32_of(b)) {
            (Some(major), Some(minor)) => Some(Bound { major, minor }),
            _ => None,
        },
        b.contains('.') ==> bound_of(a.push('.') + b) is None,
{
    texts_are_cut_at_separators(a, b, '.');
    texts_are_cut_at_separators(b, b, '.');
    if b.contains('.') {
        let k = choose|k: int| 0 <= k < b.len() && b[k] == '.';
        let (left, right) = (b.take(k), b.skip(k + 1));
        assert(left.push('.') + right =~= b);
        texts_are_cut_at_separators(left, right, '.');
        texts_are_cut_at_separators(right, right, '.');
    } else {
        let parts = pieces(a, '.') + pieces(b, '.');
        assert(parts[0] == a && parts[1] == b);
    }
}

/// What the sign before a bound means.
pub proof fn signs_make_constraints(body: Seq<char>)
    ensures
        constraint_of(seq!['>', '='] + body) == match bound_of(body) {
            Some(b) => Some(Constraint::AtLeast(b)),
            None => None,
        },
        constraint_of(seq!['<', '='] + body) == match bound_of(body) {
            Some(b) => Some(Constraint::AtMost(b)),
            None => None,
        },
        body.len() == 0 || body[0] != '=' ==> constraint_of(seq!['>'] + body) == match bound_of(
            body,
        ) {
            Some(b) => Some(Constraint::Above(b)),
            None => None,
        },
        body.len() == 0 || body[0] != '=' ==> constraint_of(seq!['<'] + body) == match bound_of(
            body,
        ) {
            Some(b) => Some(Constraint::Below(b)),
            None => None,
        },
        constraint_of(seq!['^'] + body) == match bound_of(body) {
            Some(b) => Some(Constraint::Compatible(b)),
            None => None,
        },
        constraint_of(seq!['~'] + body) == match bound_of(body) {
            Some(b) => Some(Constraint::Compatible(b)),
            None => None,
        },
        body.len() == 0 || (body[0] != '>' && body[0] != '<' && body[0] != '^' && body[0] != '~')
            ==> constraint_of(body) == match bound_of(body) {
            Some(b) => Some(Constraint::Exactly(b)),
            None => None,
        },
{
    assert((seq!['>', '='] + body).skip(2) =~= body);
    assert((seq!['<', '='] + body).skip(2) =~= body);
    assert((seq!['>'] + body).skip(1) =~= body);
    assert((seq!['<'] + body).skip(1) =~= body);
    assert((seq!['^'] + body).skip(1) =~= body);
    assert((seq!['~'] + body).skip(1) =~= body);
    assert(body.skip(0) =~= body);
}

/// Constraints are written with commas between them; without one there is one constraint.
/// Where one of them says nothing, all of them do.
pub proof fn commas_join_constraints(a: Seq<char>, b: Seq<char>)
    ensures
        !a.contains(',') ==> constraints_of(a) == match constraint_of(a) {
            Some(c) => Some(seq![c]),
            None => None,
        },
        constraints_of(a.push(',') + b) == match (constraints_of(a), constraints_of(b)) {
            (Some(first), Some(second)) => Some(first + second),
            _ => None,
        },
{
    texts_are_cut_at_separators(a, b, ',');
    lemma_joined_constraints(pieces(a, ','), pieces(b, ','));
    if !a.contains(',') {
        let one = seq![a];
        assert(one.drop_last() =~= Seq::<Seq<char>>::empty());
        assert(all_constraints(one.drop_last()) == Some(Seq::<Constraint>::empty()));
        assert(constraint_of(a) matches Some(c) ==> Seq::<Constraint>::empty().push(c) =~= seq![c]);
    }
}

proof fn lemma_joined_constraints(a: Seq<Seq<char>>, b: Seq<Seq<char>>)
    ensures
        all_constraints(a + b) == match (all_constraints(a), all_constraints(b)) {
            (Some(first), Some(second)) => Some(first + second),
            _ => None,
        },
    decreases b.len(),
{
    if b.len() == 0 {
        assert(a + b =~= a);
        assert(all_constraints(a) matches Some(first) ==> first + Seq::<Constraint>::empty()
            =~= first);
    } else {
        lemma_joined_constraints(a, b.drop_last());
        assert((a + b).drop_last() =~= a + b.drop_last());
        assert((a + b).last() == b.last());
        match (all_constraints(a), all_constraints(b.drop_last()), constraint_of(b.last())) {
            (Some(first), Some(second), Some(last)) => {
                assert(first + second.push(last) =~= (first + second).push(last));
            },
            _ => {},
        }
    }
}

/// A number behind a sign is a constraint on whole versions, for every number that a version
/// can be.
pub proof fn numbers_make_constraints(x: u32)
    ensures
        ({
            let n = decimal_of(x as nat);
            let b = Bound { major: x, minor: 0 };
            &&& constraints_of(seq!['>', '='] + n) == Some(seq![Constraint::AtLeast(b)])
            &&& constraints_of(seq!['<', '='] + n) == Some(seq![Constraint::AtMost(b)])
            &&& constraints_of(seq!['>'] + n) == Some(seq![Constraint::Above(b)])
            &&& constraints_of(seq!['<'] + n) == Some(seq![Constraint::Below(b)])
            &&& constraints_of(seq!['^'] + n) == Some(seq![Constraint::Compatible(b)])
            &&& constraints_of(seq!['~'] + n) == Some(seq![Constraint::Compatible(b)])
            &&& constraints_of(n) == Some(seq![Constraint::Exactly(b)])
        }),
{
    let n = decimal_of(x as nat);
    let bound = Bound { major: x, minor: 0 };
    lemma_number(x);
    lemma_signed(seq!['>', '='], n, bound, Constraint::AtLeast(bound));
    lemma_signed(seq!['<', '='], n, bound, Constraint::AtMost(bound));
    lemma_signed(seq!['>'], n, bound, Constraint::Above(bound));
    lemma_signed(seq!['<'], n, bound, Constraint::Below(bound));
    lemma_signed(seq!['^'], n, bound, Constraint::Compatible(bound));
    lemma_signed(seq!['~'], n, bound, Constraint::Compatible(bound));
    lemma_signed(seq![], n, bound, Constraint::Exactly(bound));
    assert(Seq::<char>::empty() + n =~= n);
}

/// A number in decimal notation writes a whole bound.
proof fn lemma_number(x: u32)
    ensures
        ({
            let n = decimal_of(x as nat);
            &&& bound_of(n) == Some(Bound { major: x, minor: 0 })
            &&& !n.contains(',')
            &&& n.len() > 0
            &&& '0' <= n[0] <= '9'
        }),
{
    let n = decimal_of(x as nat);
    decimal_reads_back(x as nat);
    decimal_stands_for_its_number(x as nat);
    assert(!n.contains('.'));
    bounds_are_one_or_two_numbers(n, n);
}

proof fn lemma_signed(sign: Seq<char>, n: Seq<char>, bound: Bound, constraint: Constraint)
    requires
        bound_of(n) == Some(bound),
        !n.contains(','),
        n.len() > 0,
        '0' <= n[0] <= '9',
        ({
            ||| sign == seq!['>', '='] && constraint == Constraint::AtLeast(bound)
            ||| sign == seq!['<', '='] && constraint == Constraint::AtMost(bound)
            ||| sign == seq!['>'] && constraint == Constraint::Above(bound)
            ||| sign == seq!['<'] && constraint == Constraint::Below(bound)
            ||| sign == seq!['^'] && constraint == Constraint::Compatible(bound)
            ||| sign == seq!['~'] && constraint == Constraint::Compatible(bound)
            ||| sign == Seq::<char>::empty() && constraint == Constraint::Exactly(bound)
        }),
    ensures
        constraints_of(sign + n) == Some(seq![constraint]),
{
    signs_make_constraints(n);
    if sign.len() == 0 {
        assert(sign + n =~= n);
    }
    assert(constraint_of(sign + n) == Some(constraint));
    lemma_one_constraint(sign, n);
}

proof fn lemma_one_constraint(sign: Seq<char>, n: Seq<char>)
    requires
        !sign.contains(','),
        !n.contains(','),
    ensures
        constraints_of(sign + n) == match constraint_of(sign + n) {
            Some(c) => Some(seq![c]),
            None => None,
        },
{
    let text = sign + n;
    assert forall|i: int| 0 <= i < text.len() implies text[i] != ',' by {
        if i < sign.len() {
            assert(sign[i] != ',');
        } else {
            assert(n[i - sign.len()] != ',');
        }
    }
    assert(!text.contains(','));
    commas_join_constraints(text, n);
}

} // verus!
