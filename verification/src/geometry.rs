//! Locations and routes.

use std::collections::HashSet;
use vstd::prelude::*;

verus! {

/// A location in the plane.
///
/// Each coordinate is kept as the 64-bit pattern of an IEEE 754 double. Two
/// points are the same location exactly when both patterns agree, which is
/// the only comparison the search ever makes between locations.
#[derive(Clone, Copy, Debug, PartialEq, Eq, Structural)]
pub struct Point {
    pub x: u64,
    pub y: u64,
}

/// The number of values a coordinate's bit pattern can take.
pub open spec fn coordinate_span() -> int {
    0x1_0000_0000_0000_0000
}

impl Point {
    /// The single number that stands for this location in a set of genes:
    /// the bits of `x` followed by the bits of `y`.
    pub open spec fn key(self) -> u128 {
        (self.x as int * coordinate_span() + self.y as int) as u128
    }

    /// Computes [`Point::key`].
    pub fn gene_key(&self) -> (key: u128)
        ensures
            key == self.key(),
    {
        let high: u128 = self.x as u128;
        let low: u128 = self.y as u128;
        high * 0x1_0000_0000_0000_0000u128 + low
    }
}

/// Different locations have different keys.
pub proof fn lemma_key_is_injective(a: Point, b: Point)
    requires
        a.key() == b.key(),
    ensures
        a == b,
{
    let span = coordinate_span();
    assert(a.x as int * span + a.y as int == b.x as int * span + b.y as int);
}

/// The keys of the points of `route`.
pub open spec fn keys_of(route: Seq<Point>) -> Set<u128> {
    Set::new(|k: u128| exists|i: int| 0 <= i < route.len() && #[trigger] route[i].key() == k)
}

/// A key is among the keys of `route` exactly when its point is in `route`.
pub proof fn lemma_key_membership(route: Seq<Point>, point: Point)
    ensures
        keys_of(route).contains(point.key()) <==> route.contains(point),
{
    if keys_of(route).contains(point.key()) {
        let i = choose|i: int| 0 <= i < route.len() && #[trigger] route[i].key() == point.key();
        lemma_key_is_injective(route[i], point);
    }
    if route.contains(point) {
        let i = choose|i: int| 0 <= i < route.len() && route[i] == point;
        assert(route[i].key() == point.key());
    }
}

/// One more point adds its key to the keys of a route.
pub proof fn lemma_keys_of_push(route: Seq<Point>, point: Point)
    ensures
        keys_of(route.push(point)) == keys_of(route).insert(point.key()),
{
    let longer = route.push(point);
    assert forall|k: u128| keys_of(longer).contains(k) <==> keys_of(route).insert(
        point.key(),
    ).contains(k) by {
        if keys_of(route).contains(k) {
            let i = choose|i: int| 0 <= i < route.len() && #[trigger] route[i].key() == k;
            assert(longer[i].key() == k);
        }
        if k == point.key() {
            assert(longer[route.len() as int].key() == k);
        }
    }
    assert(keys_of(longer) =~= keys_of(route).insert(point.key()));
}

/// Collects the keys of `route[from..to]`.
pub fn collect_keys(route: &Vec<Point>, from: usize, to: usize) -> (keys: HashSet<u128>)
    requires
        from <= to <= route.len(),
    ensures
        keys@ == keys_of(route@.subrange(from as int, to as int)),
{
    let mut keys: HashSet<u128> = HashSet::new();
    let mut i: usize = from;
    assert(keys@ =~= keys_of(route@.subrange(from as int, i as int)));
    while i < to
        invariant
            from <= i <= to <= route.len(),
            keys@ == keys_of(route@.subrange(from as int, i as int)),
        decreases to - i,
    {
        let point = route[i];
        keys.insert(point.gene_key());
        proof {
            let seen = route@.subrange(from as int, i as int);
            assert(route@.subrange(from as int, i + 1) == seen.push(point));
            lemma_keys_of_push(seen, point);
        }
        i += 1;
    }
    keys
}

/// `a` visits the same locations as `b`, each as often as `b` does.
pub open spec fn is_permutation_of(a: Seq<Point>, b: Seq<Point>) -> bool {
    a.to_multiset() == b.to_multiset()
}

/// A valid route over `locations`: it visits each of them exactly once, and
/// no location occurs twice.
pub open spec fn is_route_over(route: Seq<Point>, locations: Seq<Point>) -> bool {
    &&& locations.no_duplicates()
    &&& is_permutation_of(route, locations)
}

/// Routes over the same locations have the same length and the same
/// members, and if one visits no location twice, neither does the other.
pub proof fn lemma_permutation_properties(a: Seq<Point>, b: Seq<Point>)
    requires
        is_permutation_of(a, b),
    ensures
        a.len() == b.len(),
        b.no_duplicates() ==> a.no_duplicates(),
        forall|x: Point| a.contains(x) <==> b.contains(x),
{
    vstd::seq_lib::to_multiset_len(a);
    vstd::seq_lib::to_multiset_len(b);
    assert forall|x: Point| a.contains(x) <==> b.contains(x) by {
        vstd::seq_lib::to_multiset_contains(a, x);
        vstd::seq_lib::to_multiset_contains(b, x);
    }
    if b.no_duplicates() {
        b.lemma_multiset_has_no_duplicates();
        a.lemma_multiset_has_no_duplicates_conv();
    }
}

/// Tells whether no location occurs twice in `route`.
pub fn has_distinct_points(route: &Vec<Point>) -> (distinct: bool)
    ensures
        distinct == route@.no_duplicates(),
{
    let mut seen: HashSet<u128> = HashSet::new();
    let mut i: usize = 0;
    assert(seen@ =~= keys_of(route@.take(0)));
    while i < route.len()
        invariant
            i <= route.len(),
            seen@ == keys_of(route@.take(i as int)),
            route@.take(i as int).no_duplicates(),
        decreases route.len() - i,
    {
        let point = route[i];
        let fresh = seen.insert(point.gene_key());
        proof {
            let before = route@.take(i as int);
            lemma_key_membership(before, point);
            lemma_keys_of_push(before, point);
            assert(route@.take(i + 1) == before.push(point));
        }
        if !fresh {
            proof {
                let before = route@.take(i as int);
                let j = choose|j: int| 0 <= j < before.len() && before[j] == point;
                assert(route@[j] == route@[i as int]);
            }
            return false;
        }
        i += 1;
    }
    assert(route@.take(route.len() as int) == route@);
    true
}

/// A copy of `route`.
pub fn copy_route(route: &Vec<Point>) -> (copy: Vec<Point>)
    ensures
        copy@ == route@,
{
    let mut copy: Vec<Point> = Vec::with_capacity(route.len());
    let mut i: usize = 0;
    while i < route.len()
        invariant
            i <= route.len(),
            copy@ == route@.take(i as int),
        decreases route.len() - i,
    {
        copy.push(route[i]);
        i += 1;
    }
    copy
}

} // verus!
