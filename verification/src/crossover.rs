//! Order-preserving crossover of two routes.
//!
//! The child keeps a window of the first parent where it stands, and takes
//! the other locations in the order in which the second parent visits them.

use rand::rngs::StdRng;
use vstd::prelude::*;

use crate::geometry::{
    collect_keys, has_distinct_points, is_permutation_of, keys_of, lemma_key_membership,
    lemma_permutation_properties, Point,
};
use crate::random::random_index;

verus! {

/// The genes that the child inherits in place: `parent[start..=end]`.
pub open spec fn donor_window(parent: Seq<Point>, start: int, end: int) -> Seq<Point> {
    parent.subrange(start, end + 1)
}

/// The test that a gene is not among `taken`.
pub open spec fn not_among(taken: Seq<Point>) -> spec_fn(Point) -> bool {
    |gene: Point| !taken.contains(gene)
}

/// The genes of `parent` that are not in `window`, in `parent`'s order.
pub open spec fn remaining_genes(parent: Seq<Point>, window: Seq<Point>) -> Seq<Point> {
    parent.filter(not_among(window))
}

/// The child of `parent1` and `parent2` for the window `start..=end`.
///
/// Positions `start..=end` hold what `parent1` holds there. The positions
/// before and after the window are filled, in index order, with the genes of
/// `parent2` that the window does not hold, in `parent2`'s order.
pub open spec fn crossover_child(
    parent1: Seq<Point>,
    parent2: Seq<Point>,
    start: int,
    end: int,
) -> Seq<Point> {
    let window = donor_window(parent1, start, end);
    let rest = remaining_genes(parent2, window);
    rest.take(start) + window + rest.skip(start)
}

/// Two routes that may be crossed: `parent1` visits no location twice and
/// `parent2` visits the same locations.
pub open spec fn can_cross(parent1: Seq<Point>, parent2: Seq<Point>) -> bool {
    &&& parent1.len() > 0
    &&& parent1.no_duplicates()
    &&& is_permutation_of(parent2, parent1)
}

/// `child` is what crossing `parent1` with `parent2` gives for some window.
pub open spec fn is_crossover_of(parent1: Seq<Point>, parent2: Seq<Point>, child: Seq<Point>) -> bool {
    exists|start: int, end: int|
        0 <= start <= end < parent1.len() && child == #[trigger] crossover_child(
            parent1,
            parent2,
            start,
            end,
        )
}

/// How often `x` occurs among the elements of `s` that pass `pred`.
proof fn lemma_filter_count(s: Seq<Point>, pred: spec_fn(Point) -> bool, x: Point)
    ensures
        s.filter(pred).to_multiset().count(x) == if pred(x) {
            s.to_multiset().count(x)
        } else {
            0
        },
    decreases s.len(),
{
    reveal(Seq::filter);
    broadcast use vstd::seq_lib::group_to_multiset_ensures;

    if s.len() > 0 {
        let front = s.drop_last();
        lemma_filter_count(front, pred, x);
        assert(s == front.push(s.last()));
    }
}

/// A sequence without duplicates holds each of its elements once.
proof fn lemma_distinct_count(s: Seq<Point>, x: Point)
    requires
        s.no_duplicates(),
    ensures
        s.to_multiset().count(x) == if s.contains(x) {
            1nat
        } else {
            0nat
        },
{
    broadcast use vstd::seq_lib::group_to_multiset_ensures;

    s.lemma_multiset_has_no_duplicates();
}

/// The window and the genes left over from `parent2` make up `parent2`.
proof fn lemma_window_and_rest(parent1: Seq<Point>, parent2: Seq<Point>, start: int, end: int)
    requires
        can_cross(parent1, parent2),
        0 <= start <= end < parent1.len(),
    ensures
        ({
            let window = donor_window(parent1, start, end);
            let rest = remaining_genes(parent2, window);
            &&& rest.to_multiset().add(window.to_multiset()) == parent2.to_multiset()
            &&& rest.len() + window.len() == parent1.len()
            &&& parent2.len() == parent1.len()
        }),
{
    broadcast use vstd::seq_lib::group_to_multiset_ensures;

    let window = donor_window(parent1, start, end);
    let rest = remaining_genes(parent2, window);
    let joined = rest.to_multiset().add(window.to_multiset());
    assert(window.no_duplicates());
    assert forall|x: Point| joined.count(x) == parent2.to_multiset().count(x) by {
        lemma_filter_count(parent2, not_among(window), x);
        lemma_distinct_count(window, x);
        lemma_distinct_count(parent1, x);
        if window.contains(x) {
            let i = choose|i: int| 0 <= i < window.len() && window[i] == x;
            assert(parent1[start + i] == x);
        }
    }
    assert(joined =~= parent2.to_multiset());
    assert(joined.len() == rest.len() + window.len());
}

/// What one more gene adds to the genes left over so far.
proof fn lemma_filter_push(seen: Seq<Point>, window: Seq<Point>, gene: Point)
    ensures
        remaining_genes(seen.push(gene), window) == if window.contains(gene) {
            remaining_genes(seen, window)
        } else {
            remaining_genes(seen, window).push(gene)
        },
{
    reveal(Seq::filter);
    assert(seen.push(gene).drop_last() == seen);
}

/// The genes left over from the first `next + 1` genes of `parent`.
proof fn lemma_remaining_push(parent: Seq<Point>, window: Seq<Point>, next: int)
    requires
        0 <= next < parent.len(),
    ensures
        remaining_genes(parent.take(next + 1), window) == if window.contains(parent[next]) {
            remaining_genes(parent.take(next), window)
        } else {
            remaining_genes(parent.take(next), window).push(parent[next])
        },
{
    assert(parent.take(next + 1) == parent.take(next).push(parent[next]));
    lemma_filter_push(parent.take(next), window, parent[next]);
}

/// Crossing two routes over the same distinct locations gives a route over
/// those locations again: every location once, none missing, whichever
/// window is chosen.
pub proof fn lemma_crossover_is_permutation(
    parent1: Seq<Point>,
    parent2: Seq<Point>,
    start: int,
    end: int,
)
    requires
        can_cross(parent1, parent2),
        0 <= start <= end < parent1.len(),
    ensures
        is_permutation_of(crossover_child(parent1, parent2, start, end), parent1),
        crossover_child(parent1, parent2, start, end).no_duplicates(),
        crossover_child(parent1, parent2, start, end).len() == parent1.len(),
        forall|i: int|
            start <= i <= end ==> crossover_child(parent1, parent2, start, end)[i] == parent1[i],
{
    broadcast use vstd::seq_lib::group_to_multiset_ensures;

    let window = donor_window(parent1, start, end);
    let rest = remaining_genes(parent2, window);
    let child = crossover_child(parent1, parent2, start, end);
    lemma_window_and_rest(parent1, parent2, start, end);
    let head = rest.take(start);
    let tail = rest.skip(start);
    assert(rest == head + tail);
    vstd::seq_lib::lemma_multiset_commutative(head, tail);
    vstd::seq_lib::lemma_multiset_commutative(head, window);
    vstd::seq_lib::lemma_multiset_commutative(head + window, tail);
    assert(child.to_multiset() =~= rest.to_multiset().add(window.to_multiset()));
    assert(child.to_multiset() == parent1.to_multiset());
    assert forall|x: Point| child.to_multiset().contains(x) implies child.to_multiset().count(x)
        == 1 by {
        lemma_distinct_count(parent1, x);
    }
    child.lemma_multiset_has_no_duplicates_conv();
}

/// Two routes of the same length, neither with a location twice, of which
/// the second visits only locations of the first, visit the same locations.
proof fn lemma_same_members_same_locations(a: Seq<Point>, b: Seq<Point>)
    requires
        a.no_duplicates(),
        b.no_duplicates(),
        a.len() == b.len(),
        forall|j: int| 0 <= j < b.len() ==> a.contains(#[trigger] b[j]),
    ensures
        is_permutation_of(b, a),
{
    a.unique_seq_to_set();
    b.unique_seq_to_set();
    vstd::seq_lib::seq_to_set_is_finite(a);
    vstd::seq_lib::seq_to_set_is_finite(b);
    assert(b.to_set().subset_of(a.to_set()));
    vstd::set_lib::lemma_subset_equality(b.to_set(), a.to_set());
    assert forall|x: Point| b.to_multiset().count(x) == a.to_multiset().count(x) by {
        lemma_distinct_count(a, x);
        lemma_distinct_count(b, x);
        assert(a.to_set().contains(x) == b.to_set().contains(x));
    }
    assert(b.to_multiset() =~= a.to_multiset());
}

/// Tells whether `parent1` and `parent2` may be crossed.
pub fn can_be_crossed(parent1: &Vec<Point>, parent2: &Vec<Point>) -> (ok: bool)
    ensures
        ok == can_cross(parent1@, parent2@),
{
    if parent1.len() == 0 || !has_distinct_points(parent1) {
        return false;
    }
    proof {
        if is_permutation_of(parent2@, parent1@) {
            lemma_permutation_properties(parent2@, parent1@);
        }
    }
    if parent2.len() != parent1.len() || !has_distinct_points(parent2) {
        return false;
    }
    let known = collect_keys(parent1, 0, parent1.len());
    assert(parent1@.subrange(0, parent1.len() as int) == parent1@);
    let mut i: usize = 0;
    while i < parent2.len()
        invariant
            i <= parent2.len(),
            known@ == keys_of(parent1@),
            forall|j: int| 0 <= j < i ==> parent1@.contains(#[trigger] parent2@[j]),
        decreases parent2.len() - i,
    {
        let gene = parent2[i];
        proof {
            lemma_key_membership(parent1@, gene);
        }
        if !known.contains(&gene.gene_key()) {
            proof {
                if is_permutation_of(parent2@, parent1@) {
                    lemma_permutation_properties(parent2@, parent1@);
                    assert(parent2@.contains(gene));
                }
            }
            return false;
        }
        i += 1;
    }
    proof {
        lemma_same_members_same_locations(parent1@, parent2@);
    }
    true
}

/// Crosses `parent1` with `parent2` for the window `start..=end`.
///
/// The window's genes are first recorded by their keys. The child is then
/// written from left to right: genes of `parent2` outside the window up to
/// position `start`, the window itself, and the rest of `parent2`'s genes
/// outside the window.
pub fn crossover_with_window(
    parent1: &Vec<Point>,
    parent2: &Vec<Point>,
    start: usize,
    end: usize,
) -> (child: Vec<Point>)
    requires
        can_cross(parent1@, parent2@),
        start <= end < parent1.len(),
    ensures
        child@ == crossover_child(parent1@, parent2@, start as int, end as int),
        is_permutation_of(child@, parent1@),
        child@.no_duplicates(),
        child.len() == parent1.len(),
{
    let size = parent1.len();
    let ghost window = donor_window(parent1@, start as int, end as int);
    let ghost rest = remaining_genes(parent2@, window);
    proof {
        lemma_window_and_rest(parent1@, parent2@, start as int, end as int);
        lemma_crossover_is_permutation(parent1@, parent2@, start as int, end as int);
    }

    let used = collect_keys(parent1, start, end + 1);
    assert(used@ == keys_of(window));

    let mut child: Vec<Point> = Vec::with_capacity(size);
    let mut next: usize = 0;
    while child.len() < start
        invariant
            next <= parent2.len(),
            parent2.len() == size,
            child.len() <= start,
            used@ == keys_of(window),
            rest == remaining_genes(parent2@, window),
            rest.len() >= start,
            child@ == remaining_genes(parent2@.take(next as int), window),
        decreases parent2.len() - next,
    {
        proof {
            // Were `parent2` used up, the child would hold all of `rest`.
            if next == size {
                assert(parent2@.take(next as int) == parent2@);
            }
        }
        let gene = parent2[next];
        let kept = !used.contains(&gene.gene_key());
        proof {
            lemma_key_membership(window, gene);
            lemma_remaining_push(parent2@, window, next as int);
        }
        if kept {
            child.push(gene);
        }
        next += 1;
    }
    let ghost split = next;
    proof {
        let done = parent2@.take(split as int);
        let todo = parent2@.skip(split as int);
        assert(parent2@ == done + todo);
        Seq::filter_distributes_over_add(done, todo, not_among(window));
        assert(rest == child@ + remaining_genes(todo, window));
        assert(rest.take(start as int) == child@);
        assert(rest.skip(start as int) == remaining_genes(todo, window));
    }

    let mut i: usize = start;
    while i <= end
        invariant
            start <= i <= end + 1,
            end < parent1.len(),
            child@ == rest.take(start as int) + parent1@.subrange(start as int, i as int),
        decreases end + 1 - i,
    {
        child.push(parent1[i]);
        proof {
            assert(parent1@.subrange(start as int, i + 1) == parent1@.subrange(
                start as int,
                i as int,
            ).push(parent1@[i as int]));
        }
        i += 1;
    }

    while next < size
        invariant
            split <= next <= size,
            parent2.len() == size,
            used@ == keys_of(window),
            child@ == rest.take(start as int) + window + remaining_genes(
                parent2@.subrange(split as int, next as int),
                window,
            ),
        decreases size - next,
    {
        let gene = parent2[next];
        let kept = !used.contains(&gene.gene_key());
        proof {
            lemma_key_membership(window, gene);
            let seen = parent2@.subrange(split as int, next as int);
            let grown = parent2@.subrange(split as int, next + 1);
            assert(grown == seen.push(gene));
            lemma_filter_push(seen, window, gene);
        }
        if kept {
            child.push(gene);
        }
        next += 1;
    }
    proof {
        assert(parent2@.subrange(split as int, size as int) == parent2@.skip(split as int));
    }
    child
}

/// Crosses `parent1` with `parent2` for a window drawn from `rng`: `start`
/// anywhere in the route, `end` anywhere from `start` on.
pub fn crossover(rng: &mut StdRng, parent1: &Vec<Point>, parent2: &Vec<Point>) -> (child: Vec<Point>)
    requires
        can_cross(parent1@, parent2@),
    ensures
        is_crossover_of(parent1@, parent2@, child@),
        is_permutation_of(child@, parent1@),
        child@.no_duplicates(),
        child.len() == parent1.len(),
{
    let size = parent1.len();
    let start = random_index(rng, 0, size);
    let end = random_index(rng, start, size);
    let child = crossover_with_window(parent1, parent2, start, end);
    assert(child@ == crossover_child(parent1@, parent2@, start as int, end as int));
    child
}

} // verus!
