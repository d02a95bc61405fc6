//! The search itself: a first population, a number of generations, and the
//! best route of the last one.

use rand::rngs::StdRng;
use vstd::prelude::*;

use crate::geometry::{copy_route, is_permutation_of, is_route_over, lemma_permutation_properties, Point};
use crate::mutation::MutationRate;
use crate::population::{
    all_routes_over, create_population, evaluate_population, is_initial_population,
    is_next_generation, next_generation, observed_costs,
};
use crate::random::{seeded_generator, seeded_source};
use crate::selection::{first_minimum, first_minimum_index};

verus! {

/// `after` can follow `before` in a search that judges routes by `cost`:
/// `costs` are what `cost` gave for `before`, and `after` is a next
/// generation under them.
pub open spec fn is_generation_step<F: Fn(&Vec<Point>) -> u64>(
    cost: F,
    before: Seq<Vec<Point>>,
    costs: Seq<u64>,
    after: Seq<Vec<Point>>,
) -> bool {
    &&& observed_costs(cost, before, costs)
    &&& is_next_generation(before, costs, after)
}

/// `end` can be reached from `start` in exactly `generations` generations.
pub open spec fn is_evolved<F: Fn(&Vec<Point>) -> u64>(
    cost: F,
    start: Seq<Vec<Point>>,
    generations: nat,
    end: Seq<Vec<Point>>,
) -> bool
    decreases generations,
{
    if generations == 0 {
        end == start
    } else {
        exists|before: Seq<Vec<Point>>, costs: Seq<u64>|
            #[trigger] is_generation_step(cost, before, costs, end) && is_evolved(
                cost,
                start,
                (generations - 1) as nat,
                before,
            )
    }
}

/// A search that began with the population `first` and ended with `last`,
/// whose members `cost` gave the costs `costs`, and that returned `best`.
pub open spec fn is_search_run<F: Fn(&Vec<Point>) -> u64>(
    cost: F,
    locations: Seq<Point>,
    generations: nat,
    population_size: int,
    first: Seq<Vec<Point>>,
    last: Seq<Vec<Point>>,
    costs: Seq<u64>,
    best: Seq<Point>,
) -> bool {
    &&& is_initial_population(first, locations, population_size)
    &&& is_evolved(cost, first, generations, last)
    &&& observed_costs(cost, last, costs)
    &&& best == last[first_minimum_index(costs)]@
}

/// `best` is what some search over `locations` returns: there is a first
/// population of routes over `locations`, a chain of `generations`
/// generations from it, and `best` is the member of the last population with
/// the least cost, the first such member if several have it.
pub open spec fn is_search_outcome<F: Fn(&Vec<Point>) -> u64>(
    cost: F,
    locations: Seq<Point>,
    generations: nat,
    population_size: int,
    best: Seq<Point>,
) -> bool {
    exists|first: Seq<Vec<Point>>, last: Seq<Vec<Point>>, costs: Seq<u64>| #[trigger]
        is_search_run(cost, locations, generations, population_size, first, last, costs, best)
}

/// A search of no generations returns the best route of its first
/// population: the member of least cost, and the first of several.
pub proof fn lemma_no_generation_returns_initial_best<F: Fn(&Vec<Point>) -> u64>(
    cost: F,
    locations: Seq<Point>,
    population_size: int,
    best: Seq<Point>,
)
    requires
        is_search_outcome(cost, locations, 0, population_size, best),
    ensures
        exists|first: Seq<Vec<Point>>, costs: Seq<u64>|
            {
                &&& is_initial_population(first, locations, population_size)
                &&& #[trigger] observed_costs(cost, first, costs)
                &&& best == first[first_minimum_index(costs)]@
            },
{
    let (first, last, costs) = choose|
        first: Seq<Vec<Point>>,
        last: Seq<Vec<Point>>,
        costs: Seq<u64>,
    | #[trigger] is_search_run(cost, locations, 0, population_size, first, last, costs, best);
    assert(last == first);
    assert(observed_costs(cost, first, costs));
}

/// Searches for a short route over `locations`.
///
/// A first population of `population_size` shuffled routes is made, and then
/// replaced `generations` times by its next generation. `cost` judges the
/// routes, a lower cost being better; it is asked once for each member of
/// each population. Returned is the member of the last population with the
/// least cost, the first of several with that cost.
///
/// The search is a heuristic: the route returned visits every location once,
/// but need not be the best there is, nor better than the best of the first
/// population.
pub fn genetic_algorithm<F: Fn(&Vec<Point>) -> u64>(
    rng: &mut StdRng,
    locations: &Vec<Point>,
    generations: usize,
    population_size: usize,
    cost: &F,
) -> (best: Vec<Point>)
    requires
        locations.len() >= 2,
        locations@.no_duplicates(),
        population_size > 0,
        forall|route: Vec<Point>|
            is_permutation_of(route@, locations@) ==> #[trigger] cost.requires((&route,)),
    ensures
        is_route_over(best@, locations@),
        best@.no_duplicates(),
        best.len() == locations.len(),
        is_search_outcome(*cost, locations@, generations as nat, population_size as int, best@),
{
    let mut population = create_population(rng, locations, population_size);
    let ghost first = population@;
    let rate = MutationRate::standard();
    let mut generation: usize = 0;
    while generation < generations
        invariant
            generation <= generations,
            locations.len() >= 2,
            locations@.no_duplicates(),
            population.len() == population_size,
            population_size > 0,
            all_routes_over(population@, locations@),
            is_evolved(*cost, first, generation as nat, population@),
            forall|route: Vec<Point>|
                is_permutation_of(route@, locations@) ==> #[trigger] cost.requires((&route,)),
        decreases generations - generation,
    {
        let costs = evaluate_population(&population, cost);
        proof {
            lemma_permutation_properties(population[0]@, locations@);
        }
        let next = next_generation(rng, &population, &costs, rate);
        proof {
            assert(is_generation_step(*cost, population@, costs@, next@));
        }
        population = next;
        generation += 1;
    }
    let costs = evaluate_population(&population, cost);
    let at = first_minimum(&costs);
    let best = copy_route(&population[at]);
    proof {
        lemma_permutation_properties(best@, locations@);
        assert(is_search_run(
            *cost,
            locations@,
            generations as nat,
            population_size as int,
            first,
            population@,
            costs@,
            best@,
        ));
    }
    best
}

/// A search that owns its random source.
pub struct GeneticAlgorithmPathFinding {
    rng: StdRng,
}

impl GeneticAlgorithmPathFinding {
    /// The random source that the search draws from next.
    pub closed spec fn source(self) -> StdRng {
        self.rng
    }

    /// A search whose random source is the generator that `seed` decides.
    /// Two searches made from the same seed start from the same source.
    pub fn new(seed: u64) -> (search: GeneticAlgorithmPathFinding)
        ensures
            search.source() == seeded_generator(seed),
    {
        GeneticAlgorithmPathFinding { rng: seeded_source(seed) }
    }

    /// Runs [`genetic_algorithm`] with this search's random source.
    pub fn genetic_algorithm<F: Fn(&Vec<Point>) -> u64>(
        &mut self,
        locations: &Vec<Point>,
        generations: usize,
        population_size: usize,
        cost: &F,
    ) -> (best: Vec<Point>)
        requires
            locations.len() >= 2,
            locations@.no_duplicates(),
            population_size > 0,
            forall|route: Vec<Point>|
                is_permutation_of(route@, locations@) ==> #[trigger] cost.requires((&route,)),
        ensures
            is_route_over(best@, locations@),
            best@.no_duplicates(),
            best.len() == locations.len(),
            is_search_outcome(*cost, locations@, generations as nat, population_size as int, best@),
    {
        genetic_algorithm(&mut self.rng, locations, generations, population_size, cost)
    }
}

} // verus!
