//! Mutation of a route: an exchange of two locations and the reversal of a
//! stretch of the route, each applied with its own chance.
//!
//! A route holds the locations alone, with no fixed first or last stop, so
//! every position of it may be picked.

use rand::rngs::StdRng;
use vstd::prelude::*;

use crate::geometry::{is_permutation_of, Point};
use crate::random::{random_chance, random_index};

verus! {

/// The largest denominator a rate can have, so that twice it is still a
/// `u32`.
pub const MAX_DENOMINATOR: u32 = 0x7fff_ffff;

/// The chance of a mutation, as `numerator` in `denominator`.
#[derive(Clone, Copy, Debug)]
pub struct MutationRate {
    numerator: u32,
    denominator: u32,
}

impl MutationRate {
    #[verifier::type_invariant]
    spec fn well_formed(self) -> bool {
        &&& 0 < self.denominator <= MAX_DENOMINATOR
        &&& self.numerator <= self.denominator
    }

    /// How many times in `self.parts()` a mutation is to happen.
    pub closed spec fn hits(self) -> u32 {
        self.numerator
    }

    /// Out of how many.
    pub closed spec fn parts(self) -> u32 {
        self.denominator
    }

    /// The rate `numerator / denominator`, where that is a chance between
    /// zero and one and the denominator is at most [`MAX_DENOMINATOR`].
    pub fn new(numerator: u32, denominator: u32) -> (rate: Option<MutationRate>)
        ensures
            rate is Some <==> 0 < denominator <= MAX_DENOMINATOR && numerator <= denominator,
            rate is Some ==> rate.unwrap().hits() == numerator && rate.unwrap().parts()
                == denominator,
    {
        if 0 < denominator && denominator <= MAX_DENOMINATOR && numerator <= denominator {
            Some(MutationRate { numerator, denominator })
        } else {
            None
        }
    }

    /// The rate with which the search mutates a child: one in five.
    pub fn standard() -> (rate: MutationRate)
        ensures
            rate.hits() == 1,
            rate.parts() == 5,
    {
        MutationRate { numerator: 1, denominator: 5 }
    }

    pub fn numerator(&self) -> (numerator: u32)
        ensures
            numerator == self.hits(),
            numerator <= self.parts(),
    {
        proof {
            use_type_invariant(self);
        }
        self.numerator
    }

    pub fn denominator(&self) -> (denominator: u32)
        ensures
            denominator == self.parts(),
            0 < denominator <= MAX_DENOMINATOR,
    {
        proof {
            use_type_invariant(self);
        }
        self.denominator
    }
}

/// What one mutation does to a route: the two positions to exchange, if the
/// exchange takes place, and the two positions that bound the stretch to
/// reverse, if the reversal takes place.
#[derive(Clone, Copy, Debug)]
pub struct Mutation {
    pub exchange: Option<(usize, usize)>,
    pub reversal: Option<(usize, usize)>,
}

/// `route` with the locations at `i` and `j` exchanged.
pub open spec fn exchanged(route: Seq<Point>, i: int, j: int) -> Seq<Point> {
    route.update(i, route[j]).update(j, route[i])
}

/// `route` with the stretch `from..to` in reverse order.
pub open spec fn stretch_reversed(route: Seq<Point>, from: int, to: int) -> Seq<Point> {
    route.take(from) + route.subrange(from, to).reverse() + route.skip(to)
}

/// `route` with the stretch between `i` and `j` reversed: it starts at the
/// lesser of the two and ends just before the greater.
pub open spec fn reversed_between(route: Seq<Point>, i: int, j: int) -> Seq<Point> {
    if i <= j {
        stretch_reversed(route, i, j)
    } else {
        stretch_reversed(route, j, i)
    }
}

impl Mutation {
    /// Every position that the mutation names lies in a route of `len`
    /// locations.
    pub open spec fn fits(self, len: int) -> bool {
        &&& self.exchange matches Some(pair) ==> pair.0 < len && pair.1 < len
        &&& self.reversal matches Some(pair) ==> pair.0 < len && pair.1 < len
    }

    /// The route that the mutation makes of `route`: first the exchange,
    /// then the reversal.
    pub open spec fn apply(self, route: Seq<Point>) -> Seq<Point> {
        let after_exchange = match self.exchange {
            Some(pair) => exchanged(route, pair.0 as int, pair.1 as int),
            None => route,
        };
        match self.reversal {
            Some(pair) => reversed_between(after_exchange, pair.0 as int, pair.1 as int),
            None => after_exchange,
        }
    }
}

/// `after` is what some mutation makes of `before`.
pub open spec fn is_mutation_of(before: Seq<Point>, after: Seq<Point>) -> bool {
    exists|mutation: Mutation|
        #[trigger] mutation.fits(before.len() as int) && after == mutation.apply(before)
}

/// `after` is what some mutation that exchanges two locations makes of
/// `before`.
pub open spec fn is_exchanging_mutation_of(before: Seq<Point>, after: Seq<Point>) -> bool {
    exists|mutation: Mutation|
        {
            &&& #[trigger] mutation.fits(before.len() as int)
            &&& mutation.exchange is Some
            &&& after == mutation.apply(before)
        }
}

/// An exchange keeps the locations of a route.
pub proof fn lemma_exchange_keeps_locations(route: Seq<Point>, i: int, j: int)
    requires
        0 <= i < route.len(),
        0 <= j < route.len(),
    ensures
        is_permutation_of(exchanged(route, i, j), route),
        exchanged(route, i, j).len() == route.len(),
{
    broadcast use vstd::seq_lib::group_to_multiset_ensures;

    let first = route.update(i, route[j]);
    assert(first.to_multiset() =~= route.to_multiset().insert(route[j]).remove(route[i]));
    assert(exchanged(route, i, j).to_multiset() =~= first.to_multiset().insert(route[i]).remove(
        first[j],
    ));
    assert(first[j] == route[j]);
    assert(exchanged(route, i, j).to_multiset() =~= route.to_multiset());
}

/// A reversal keeps the locations of a route.
pub proof fn lemma_reversal_keeps_locations(route: Seq<Point>, from: int, to: int)
    requires
        0 <= from <= to <= route.len(),
    ensures
        is_permutation_of(stretch_reversed(route, from, to), route),
        stretch_reversed(route, from, to).len() == route.len(),
{
    let head = route.take(from);
    let middle = route.subrange(from, to);
    let tail = route.skip(to);
    assert(route == head + middle + tail);
    middle.lemma_reverse_to_multiset();
    vstd::seq_lib::lemma_multiset_commutative(head, middle);
    vstd::seq_lib::lemma_multiset_commutative(head + middle, tail);
    vstd::seq_lib::lemma_multiset_commutative(head, middle.reverse());
    vstd::seq_lib::lemma_multiset_commutative(head + middle.reverse(), tail);
}

/// A mutation never changes which locations a route holds, only their
/// order.
pub proof fn lemma_mutation_keeps_locations(route: Seq<Point>, mutation: Mutation)
    requires
        mutation.fits(route.len() as int),
    ensures
        is_permutation_of(mutation.apply(route), route),
        mutation.apply(route).len() == route.len(),
        route.no_duplicates() ==> mutation.apply(route).no_duplicates(),
{
    broadcast use vstd::seq_lib::group_to_multiset_ensures;

    let after_exchange = match mutation.exchange {
        Some(pair) => exchanged(route, pair.0 as int, pair.1 as int),
        None => route,
    };
    if let Some(pair) = mutation.exchange {
        lemma_exchange_keeps_locations(route, pair.0 as int, pair.1 as int);
    }
    if let Some(pair) = mutation.reversal {
        if pair.0 <= pair.1 {
            lemma_reversal_keeps_locations(after_exchange, pair.0 as int, pair.1 as int);
        } else {
            lemma_reversal_keeps_locations(after_exchange, pair.1 as int, pair.0 as int);
        }
    }
    let after = mutation.apply(route);
    if route.no_duplicates() {
        route.lemma_multiset_has_no_duplicates();
        after.lemma_multiset_has_no_duplicates_conv();
    }
}

/// Exchanges the locations at `i` and `j`.
pub fn exchange_points(route: &mut Vec<Point>, i: usize, j: usize)
    requires
        i < old(route).len(),
        j < old(route).len(),
    ensures
        final(route)@ == exchanged(old(route)@, i as int, j as int),
{
    let at_i = route[i];
    let at_j = route[j];
    route.set(i, at_j);
    route.set(j, at_i);
}

/// Reverses the stretch `from..to` of `route` in place.
pub fn reverse_stretch(route: &mut Vec<Point>, from: usize, to: usize)
    requires
        from <= to <= old(route).len(),
    ensures
        final(route)@ == stretch_reversed(old(route)@, from as int, to as int),
{
    let ghost before = route@;
    let mut low: usize = from;
    let mut high: usize = to;
    while high - low > 1
        invariant
            from <= low <= high <= to <= route.len(),
            low - from == to - high,
            route.len() == before.len(),
            forall|k: int| 0 <= k < from || to <= k < route.len() ==> route@[k] == before[k],
            forall|k: int| low <= k < high ==> route@[k] == before[k],
            forall|k: int| from <= k < low || high <= k < to ==> route@[k] == before[from + to - 1 - k],
        decreases high - low,
    {
        high -= 1;
        let at_low = route[low];
        let at_high = route[high];
        route.set(low, at_high);
        route.set(high, at_low);
        low += 1;
    }
    proof {
        let target = stretch_reversed(before, from as int, to as int);
        assert(route@.len() == target.len());
        assert forall|k: int| 0 <= k < route@.len() implies route@[k] == target[k] by {
            if from <= k < to {
                assert(target[k] == before.subrange(from as int, to as int).reverse()[k - from]);
            }
        }
        assert(route@ =~= target);
    }
}

/// Applies `mutation` to `route`.
pub fn apply_mutation(route: &mut Vec<Point>, mutation: &Mutation)
    requires
        mutation.fits(old(route).len() as int),
    ensures
        final(route)@ == mutation.apply(old(route)@),
        is_permutation_of(final(route)@, old(route)@),
        final(route).len() == old(route).len(),
{
    proof {
        lemma_mutation_keeps_locations(route@, *mutation);
    }
    if let Some(pair) = mutation.exchange {
        exchange_points(route, pair.0, pair.1);
    }
    if let Some(pair) = mutation.reversal {
        if pair.0 <= pair.1 {
            reverse_stretch(route, pair.0, pair.1);
        } else {
            reverse_stretch(route, pair.1, pair.0);
        }
    }
}

/// Mutates `route` by chance.
///
/// With chance `rate` two positions are drawn and their locations
/// exchanged. Then, with half that chance, two positions are drawn and the
/// stretch from the lesser up to, not including, the greater is reversed.
/// The two chances are tried independently, so none, one or both may take
/// place. An empty route has no position to draw and stays as it is. With
/// a rate of zero nothing ever happens, and with a rate of one the exchange
/// always does.
pub fn mutate(rng: &mut StdRng, route: &mut Vec<Point>, rate: MutationRate)
    ensures
        is_mutation_of(old(route)@, final(route)@),
        is_permutation_of(final(route)@, old(route)@),
        final(route).len() == old(route).len(),
        rate.hits() == 0 || old(route).len() == 0 ==> final(route)@ == old(route)@,
        rate.hits() == rate.parts() && old(route).len() > 0 ==> is_exchanging_mutation_of(
            old(route)@,
            final(route)@,
        ),
{
    let len = route.len();
    let numerator = rate.numerator();
    let denominator = rate.denominator();
    let mut mutation = Mutation { exchange: None, reversal: None };
    if len > 0 {
        if random_chance(rng, numerator, denominator) {
            let i = random_index(rng, 0, len);
            let j = random_index(rng, 0, len);
            mutation.exchange = Some((i, j));
        }
        if random_chance(rng, numerator, 2 * denominator) {
            let i = random_index(rng, 0, len);
            let j = random_index(rng, 0, len);
            mutation.reversal = Some((i, j));
        }
    }
    apply_mutation(route, &mutation);
    assert(mutation.fits(old(route).len() as int) && route@ == mutation.apply(old(route)@));
}

} // verus!
