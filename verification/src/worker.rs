//! What a worker does with one group: it checks the group, searches for a
//! route and asks for the cost of the route it found.

use rand::rngs::StdRng;
use vstd::prelude::*;

use crate::genetic_algorithm::{genetic_algorithm, is_search_outcome};
use crate::geometry::{has_distinct_points, is_permutation_of, is_route_over, Point};

verus! {

/// How many generations a worker lets a search run.
pub const GENERATIONS: usize = 10;

/// How many routes a worker's search keeps in each generation.
pub const POPULATION_SIZE: usize = 10;

/// Why no route is searched for a group.
#[derive(Clone, Copy, Debug, PartialEq, Eq, Structural)]
pub enum GroupError {
    /// The group has fewer than two locations.
    TooFewPoints,
    /// A location occurs twice in the group.
    RepeatedPoint,
}

/// The route found for a group, and its cost.
#[derive(Debug)]
pub struct Solution {
    pub route: Vec<Point>,
    pub cost: u64,
}

/// A group that a search can work on: at least two locations, all
/// different.
pub open spec fn is_valid_group(group: Seq<Point>) -> bool {
    group.len() >= 2 && group.no_duplicates()
}

/// The reason, if there is one, for which `group` cannot be searched.
pub open spec fn group_fault(group: Seq<Point>) -> Option<GroupError> {
    if group.len() < 2 {
        Some(GroupError::TooFewPoints)
    } else if !group.no_duplicates() {
        Some(GroupError::RepeatedPoint)
    } else {
        None
    }
}

/// Checks that a search can work on `group`.
pub fn check_group(group: &Vec<Point>) -> (verdict: Result<(), GroupError>)
    ensures
        verdict is Ok <==> is_valid_group(group@),
        verdict matches Err(fault) ==> group_fault(group@) == Some(fault),
{
    if group.len() < 2 {
        Err(GroupError::TooFewPoints)
    } else if !has_distinct_points(group) {
        Err(GroupError::RepeatedPoint)
    } else {
        Ok(())
    }
}

/// Works on one group: searches for a route over it, for [`GENERATIONS`]
/// generations of [`POPULATION_SIZE`] routes, and asks `cost` for the cost
/// of the route found. A group that cannot be searched is refused with
/// the reason, and no search is made.
pub fn solve_group<F: Fn(&Vec<Point>) -> u64>(
    rng: &mut StdRng,
    group: &Vec<Point>,
    cost: &F,
) -> (result: Result<Solution, GroupError>)
    requires
        forall|route: Vec<Point>|
            is_permutation_of(route@, group@) ==> #[trigger] cost.requires((&route,)),
    ensures
        result is Ok <==> is_valid_group(group@),
        result matches Err(fault) ==> group_fault(group@) == Some(fault),
        result matches Ok(solution) ==> {
            &&& is_route_over(solution.route@, group@)
            &&& is_search_outcome(
                *cost,
                group@,
                GENERATIONS as nat,
                POPULATION_SIZE as int,
                solution.route@,
            )
            &&& cost.ensures((&solution.route,), solution.cost)
        },
{
    match check_group(group) {
        Err(fault) => Err(fault),
        Ok(()) => {
            let route = genetic_algorithm(rng, group, GENERATIONS, POPULATION_SIZE, cost);
            let value = cost(&route);
            Ok(Solution { route, cost: value })
        },
    }
}

} // verus!
