//! Choosing among candidates by cost. A lower cost is better, and among equal
//! costs the candidate met first wins.

use rand::rngs::StdRng;
use vstd::prelude::*;

use crate::geometry::{copy_route, Point};
use crate::random::random_index;

verus! {

/// `at` is where the least of `values` stands first.
pub open spec fn is_first_minimum(values: Seq<u64>, at: int) -> bool {
    &&& 0 <= at < values.len()
    &&& forall|i: int| 0 <= i < values.len() ==> values[at] <= #[trigger] values[i]
    &&& forall|i: int| 0 <= i < at ==> values[at] < #[trigger] values[i]
}

/// The position at which the least of `values` stands first.
pub open spec fn first_minimum_index(values: Seq<u64>) -> int {
    choose|at: int| is_first_minimum(values, at)
}

/// At most one position is the first minimum.
pub proof fn lemma_first_minimum_is_unique(values: Seq<u64>, a: int, b: int)
    requires
        is_first_minimum(values, a),
        is_first_minimum(values, b),
    ensures
        a == b,
        a == first_minimum_index(values),
{
    if a < b {
        assert(values[b] < values[a]);
    }
    if b < a {
        assert(values[a] < values[b]);
    }
    let c = first_minimum_index(values);
    if a < c {
        assert(values[c] < values[a]);
    }
    if c < a {
        assert(values[a] < values[c]);
    }
}

/// Finds the position at which the least of `values` stands first.
pub fn first_minimum(values: &Vec<u64>) -> (at: usize)
    requires
        values.len() > 0,
    ensures
        is_first_minimum(values@, at as int),
        at == first_minimum_index(values@),
{
    let mut at: usize = 0;
    let mut i: usize = 1;
    while i < values.len()
        invariant
            1 <= i <= values.len(),
            is_first_minimum(values@.take(i as int), at as int),
        decreases values.len() - i,
    {
        if values[i] < values[at] {
            at = i;
        }
        i += 1;
    }
    proof {
        assert(values@.take(values.len() as int) == values@);
        lemma_first_minimum_is_unique(values@, at as int, at as int);
    }
    at
}

/// `draws` are `rounds` picks among `candidates` candidates.
pub open spec fn valid_draws(draws: Seq<usize>, rounds: int, candidates: int) -> bool {
    &&& draws.len() == rounds
    &&& forall|i: int| 0 <= i < draws.len() ==> #[trigger] draws[i] < candidates
}

/// The costs of the candidates that were drawn, in the order of the draws.
pub open spec fn drawn_costs(costs: Seq<u64>, draws: Seq<usize>) -> Seq<u64> {
    Seq::new(draws.len(), |i: int| costs[draws[i] as int])
}

/// The candidate that wins a tournament among `draws`: the one of least
/// cost, and of several with that cost the one drawn first.
pub open spec fn tournament_winner_index(costs: Seq<u64>, draws: Seq<usize>) -> int {
    draws[first_minimum_index(drawn_costs(costs, draws))] as int
}

/// Decides a tournament among the candidates that `draws` names.
pub fn tournament_winner(costs: &Vec<u64>, draws: &Vec<usize>) -> (winner: usize)
    requires
        draws.len() > 0,
        valid_draws(draws@, draws.len() as int, costs.len() as int),
    ensures
        winner == tournament_winner_index(costs@, draws@),
        winner < costs.len(),
        exists|round: int| 0 <= round < draws.len() && draws[round] == winner,
        forall|round: int|
            0 <= round < draws.len() ==> costs[winner as int] <= costs[draws[round] as int],
{
    let ghost drawn = drawn_costs(costs@, draws@);
    let mut best: usize = 0;
    let mut round: usize = 1;
    while round < draws.len()
        invariant
            1 <= round <= draws.len(),
            valid_draws(draws@, draws.len() as int, costs.len() as int),
            drawn == drawn_costs(costs@, draws@),
            is_first_minimum(drawn.take(round as int), best as int),
        decreases draws.len() - round,
    {
        if costs[draws[round]] < costs[draws[best]] {
            best = round;
        }
        round += 1;
    }
    proof {
        assert(drawn.take(draws.len() as int) == drawn);
        lemma_first_minimum_is_unique(drawn, best as int, best as int);
        assert forall|r: int| 0 <= r < draws.len() implies costs[draws[best as int] as int]
            <= costs[draws[r] as int] by {
            assert(drawn[best as int] <= drawn[r]);
        }
    }
    draws[best]
}

/// `route` is the winner of some tournament of `rounds` draws among
/// `population`, judged by `costs`.
pub open spec fn is_tournament_winner(
    population: Seq<Vec<Point>>,
    costs: Seq<u64>,
    rounds: int,
    route: Seq<Point>,
) -> bool {
    exists|draws: Seq<usize>| #[trigger]
        valid_draws(draws, rounds, population.len() as int) && route
            == population[tournament_winner_index(costs, draws)]@
}

/// Draws `rounds` members of `population` at random, each draw among all of
/// them, and returns a copy of the drawn member of least cost; of several
/// with that cost, the one drawn first. `costs[i]` is the cost of
/// `population[i]`.
pub fn tournament_selection(
    rng: &mut StdRng,
    population: &Vec<Vec<Point>>,
    costs: &Vec<u64>,
    rounds: usize,
) -> (route: Vec<Point>)
    requires
        population.len() > 0,
        costs.len() == population.len(),
        rounds > 0,
    ensures
        is_tournament_winner(population@, costs@, rounds as int, route@),
        exists|i: int| 0 <= i < population.len() && route@ == (#[trigger] population[i])@,
{
    let mut draws: Vec<usize> = Vec::new();
    let mut round: usize = 0;
    while round < rounds
        invariant
            round <= rounds,
            population.len() > 0,
            valid_draws(draws@, round as int, population.len() as int),
        decreases rounds - round,
    {
        let pick = random_index(rng, 0, population.len());
        draws.push(pick);
        round += 1;
    }
    let winner = tournament_winner(costs, &draws);
    let route = copy_route(&population[winner]);
    assert(valid_draws(draws@, rounds as int, population.len() as int));
    assert(route@ == population[winner as int]@);
    route
}

} // verus!
