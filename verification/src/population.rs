//! Populations of routes: the first, random one, and each next one that
//! selection, crossover and mutation make of the one before.

use rand::rngs::StdRng;
use vstd::prelude::*;

use crate::crossover::{can_cross, crossover, is_crossover_of};
use crate::geometry::{copy_route, is_permutation_of, lemma_permutation_properties, Point};
use crate::mutation::{is_mutation_of, mutate, MutationRate};
use crate::random::shuffle_points;
use crate::selection::{is_tournament_winner, tournament_selection};

verus! {

/// How many members are drawn for each tournament of a generation.
pub const TOURNAMENT_ROUNDS: usize = 2;

/// Every member of `population` is a route over `locations`.
pub open spec fn all_routes_over(population: Seq<Vec<Point>>, locations: Seq<Point>) -> bool {
    forall|i: int| 0 <= i < population.len() ==> is_permutation_of(#[trigger] population[i]@, locations)
}

/// `population` can start a search over `locations`: it has `size` members,
/// each a route over `locations`.
pub open spec fn is_initial_population(
    population: Seq<Vec<Point>>,
    locations: Seq<Point>,
    size: int,
) -> bool {
    &&& population.len() == size
    &&& all_routes_over(population, locations)
}

/// `costs` are costs that `cost` has given for the members of `population`,
/// member by member.
pub open spec fn observed_costs<F: Fn(&Vec<Point>) -> u64>(
    cost: F,
    population: Seq<Vec<Point>>,
    costs: Seq<u64>,
) -> bool {
    &&& costs.len() == population.len()
    &&& forall|i: int| 0 <= i < population.len() ==> cost.ensures((&population[i],), #[trigger] costs[i])
}

/// `child` descends from `population`: two tournament winners were crossed,
/// and the result was mutated.
pub open spec fn is_offspring(population: Seq<Vec<Point>>, costs: Seq<u64>, child: Seq<Point>) -> bool {
    exists|parent1: Seq<Point>, parent2: Seq<Point>, crossed: Seq<Point>|
        {
            &&& is_tournament_winner(population, costs, TOURNAMENT_ROUNDS as int, parent1)
            &&& is_tournament_winner(population, costs, TOURNAMENT_ROUNDS as int, parent2)
            &&& #[trigger] is_crossover_of(parent1, parent2, crossed)
            &&& is_mutation_of(crossed, child)
        }
}

/// `next` is a generation that can follow `population`: as many members,
/// the first half of them tournament winners taken over as they are, the
/// others offspring.
pub open spec fn is_next_generation(
    population: Seq<Vec<Point>>,
    costs: Seq<u64>,
    next: Seq<Vec<Point>>,
) -> bool {
    &&& next.len() == population.len()
    &&& forall|i: int|
        0 <= i < population.len() / 2 ==> is_tournament_winner(
            population,
            costs,
            TOURNAMENT_ROUNDS as int,
            #[trigger] next[i]@,
        )
    &&& forall|i: int|
        population.len() / 2 <= i < population.len() ==> is_offspring(
            population,
            costs,
            #[trigger] next[i]@,
        )
}

/// Makes `size` routes over `locations`, each in an order shuffled
/// independently of the others. Two of them may well agree.
pub fn create_population(
    rng: &mut StdRng,
    locations: &Vec<Point>,
    size: usize,
) -> (population: Vec<Vec<Point>>)
    ensures
        is_initial_population(population@, locations@, size as int),
        forall|i: int| 0 <= i < size ==> (#[trigger] population[i]).len() == locations.len(),
{
    let mut population: Vec<Vec<Point>> = Vec::new();
    let mut made: usize = 0;
    while made < size
        invariant
            made <= size,
            is_initial_population(population@, locations@, made as int),
            forall|i: int| 0 <= i < made ==> (#[trigger] population[i]).len() == locations.len(),
        decreases size - made,
    {
        let mut route = copy_route(locations);
        shuffle_points(rng, &mut route);
        proof {
            lemma_permutation_properties(route@, locations@);
        }
        population.push(route);
        made += 1;
    }
    population
}

/// Asks `cost` for the cost of each member of `population`.
pub fn evaluate_population<F: Fn(&Vec<Point>) -> u64>(
    population: &Vec<Vec<Point>>,
    cost: &F,
) -> (costs: Vec<u64>)
    requires
        forall|i: int| 0 <= i < population.len() ==> cost.requires((&#[trigger] population[i],)),
    ensures
        observed_costs(*cost, population@, costs@),
{
    let mut costs: Vec<u64> = Vec::new();
    let mut i: usize = 0;
    while i < population.len()
        invariant
            i <= population.len(),
            forall|j: int| 0 <= j < population.len() ==> cost.requires((&#[trigger] population[j],)),
            observed_costs(*cost, population@.take(i as int), costs@),
        decreases population.len() - i,
    {
        let value = cost(&population[i]);
        costs.push(value);
        i += 1;
    }
    assert(population@.take(population.len() as int) == population@);
    costs
}

/// Makes the generation that follows `population`, whose members have the
/// costs `costs`.
///
/// Half of the new members, rounded down, are winners of tournaments among
/// the old ones, taken over unchanged. Each of the others is the child of
/// two such winners, crossed and then mutated with chance `rate`.
pub fn next_generation(
    rng: &mut StdRng,
    population: &Vec<Vec<Point>>,
    costs: &Vec<u64>,
    rate: MutationRate,
) -> (next: Vec<Vec<Point>>)
    requires
        population.len() > 0,
        costs.len() == population.len(),
        population[0]@.no_duplicates(),
        population[0]@.len() > 0,
        all_routes_over(population@, population[0]@),
    ensures
        is_next_generation(population@, costs@, next@),
        all_routes_over(next@, population[0]@),
{
    let size = population.len();
    let ghost locations = population[0]@;
    let mut next: Vec<Vec<Point>> = Vec::new();
    while next.len() < size / 2
        invariant
            size == population.len(),
            size > 0,
            costs.len() == size,
            next.len() <= size / 2,
            all_routes_over(next@, locations),
            forall|i: int|
                0 <= i < next.len() ==> is_tournament_winner(
                    population@,
                    costs@,
                    TOURNAMENT_ROUNDS as int,
                    #[trigger] next[i]@,
                ),
            locations == population[0]@,
            all_routes_over(population@, locations),
        decreases size / 2 - next.len(),
    {
        let winner = tournament_selection(rng, population, costs, TOURNAMENT_ROUNDS);
        next.push(winner);
    }
    while next.len() < size
        invariant
            size == population.len(),
            size > 0,
            costs.len() == size,
            size / 2 <= next.len() <= size,
            all_routes_over(next@, locations),
            forall|i: int|
                0 <= i < size / 2 ==> is_tournament_winner(
                    population@,
                    costs@,
                    TOURNAMENT_ROUNDS as int,
                    #[trigger] next[i]@,
                ),
            forall|i: int|
                size / 2 <= i < next.len() ==> is_offspring(population@, costs@, #[trigger] next[i]@),
            locations == population[0]@,
            locations.no_duplicates(),
            locations.len() > 0,
            all_routes_over(population@, locations),
        decreases size - next.len(),
    {
        let parent1 = tournament_selection(rng, population, costs, TOURNAMENT_ROUNDS);
        let parent2 = tournament_selection(rng, population, costs, TOURNAMENT_ROUNDS);
        proof {
            lemma_routes_can_cross(locations, parent1@, parent2@);
        }
        let mut child = crossover(rng, &parent1, &parent2);
        let ghost crossed = child@;
        mutate(rng, &mut child, rate);
        assert(is_offspring(population@, costs@, child@)) by {
            assert(is_crossover_of(parent1@, parent2@, crossed));
        }
        next.push(child);
    }
    next
}

/// Two routes over the same distinct locations can be crossed.
pub proof fn lemma_routes_can_cross(locations: Seq<Point>, parent1: Seq<Point>, parent2: Seq<Point>)
    requires
        locations.no_duplicates(),
        locations.len() > 0,
        is_permutation_of(parent1, locations),
        is_permutation_of(parent2, locations),
    ensures
        can_cross(parent1, parent2),
{
    lemma_permutation_properties(parent1, locations);
}

} // verus!
