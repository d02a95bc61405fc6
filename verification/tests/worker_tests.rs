use genetic_algorithm_rust::geometry::Point;
use genetic_algorithm_rust::worker::{
    check_group, solve_group, GroupError, GENERATIONS, POPULATION_SIZE,
};
use rand::rngs::StdRng;
use rand::SeedableRng;

fn point(x: f64, y: f64) -> Point {
    Point { x: x.to_bits(), y: y.to_bits() }
}

fn total_distance(route: &Vec<Point>) -> f64 {
    let mut total = 0.0;
    for i in 1..route.len() {
        let dx = f64::from_bits(route[i - 1].x) - f64::from_bits(route[i].x);
        let dy = f64::from_bits(route[i - 1].y) - f64::from_bits(route[i].y);
        total += (dx * dx + dy * dy).sqrt();
    }
    total
}

fn cost(route: &Vec<Point>) -> u64 {
    total_distance(route).to_bits()
}

#[test]
fn reference_parameters() {
    assert_eq!(GENERATIONS, 10);
    assert_eq!(POPULATION_SIZE, 10);
}

#[test]
fn group_of_two_distinct_points_is_valid() {
    assert_eq!(check_group(&vec![point(0.0, 0.0), point(1.0, 0.0)]), Ok(()));
}

#[test]
fn group_with_fewer_than_two_points_is_refused() {
    assert_eq!(check_group(&Vec::new()), Err(GroupError::TooFewPoints));
    assert_eq!(check_group(&vec![point(1.0, 1.0)]), Err(GroupError::TooFewPoints));
}

#[test]
fn group_with_a_repeated_point_is_refused() {
    let group = vec![point(0.0, 0.0), point(1.0, 0.0), point(0.0, 0.0)];
    assert_eq!(check_group(&group), Err(GroupError::RepeatedPoint));
    assert_eq!(check_group(&vec![point(2.0, 2.0), point(2.0, 2.0)]), Err(GroupError::RepeatedPoint));
}

#[test]
fn refused_group_is_not_searched() {
    let mut rng = StdRng::seed_from_u64(1);
    let mut untouched = StdRng::seed_from_u64(1);
    let asked = std::cell::Cell::new(0u32);
    let counting = |route: &Vec<Point>| {
        asked.set(asked.get() + 1);
        cost(route)
    };
    assert_eq!(solve_group(&mut rng, &vec![point(1.0, 1.0)], &counting).unwrap_err(), GroupError::TooFewPoints);
    let repeated = vec![point(1.0, 1.0), point(2.0, 1.0), point(1.0, 1.0)];
    assert_eq!(solve_group(&mut rng, &repeated, &counting).unwrap_err(), GroupError::RepeatedPoint);
    assert_eq!(asked.get(), 0);
    assert_eq!(rng, untouched);
    untouched = StdRng::seed_from_u64(2);
    assert_ne!(rng, untouched);
}

#[test]
fn solved_group_comes_with_its_cost() {
    let group = vec![point(0.0, 0.0), point(0.0, 3.0), point(4.0, 3.0), point(4.0, 0.0)];
    let mut rng = StdRng::seed_from_u64(8);
    let solution = solve_group(&mut rng, &group, &cost).unwrap();
    assert_eq!(solution.route.len(), 4);
    for p in &group {
        assert_eq!(solution.route.iter().filter(|q| *q == p).count(), 1);
    }
    assert_eq!(solution.cost, total_distance(&solution.route).to_bits());
    assert!(f64::from_bits(solution.cost) >= 10.0);
}

#[test]
fn cost_is_asked_for_every_member_of_every_population() {
    let group = vec![point(0.0, 0.0), point(0.0, 3.0), point(4.0, 3.0), point(4.0, 0.0)];
    let mut rng = StdRng::seed_from_u64(8);
    let asked = std::cell::Cell::new(0usize);
    let counting = |route: &Vec<Point>| {
        asked.set(asked.get() + 1);
        cost(route)
    };
    solve_group(&mut rng, &group, &counting).unwrap();
    // Each of the populations, the first one and one per generation, and
    // the route returned.
    assert_eq!(asked.get(), (GENERATIONS + 1) * POPULATION_SIZE + 1);
}
