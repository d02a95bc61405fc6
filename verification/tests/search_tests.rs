use genetic_algorithm_rust::genetic_algorithm::{genetic_algorithm, GeneticAlgorithmPathFinding};
use genetic_algorithm_rust::geometry::Point;
use genetic_algorithm_rust::mutation::MutationRate;
use genetic_algorithm_rust::population::{create_population, evaluate_population, next_generation};
use genetic_algorithm_rust::selection::first_minimum;
use rand::rngs::StdRng;
use rand::SeedableRng;

fn point(x: f64, y: f64) -> Point {
    Point { x: x.to_bits(), y: y.to_bits() }
}

fn distance(a: &Point, b: &Point) -> f64 {
    let dx = f64::from_bits(a.x) - f64::from_bits(b.x);
    let dy = f64::from_bits(a.y) - f64::from_bits(b.y);
    (dx * dx + dy * dy).sqrt()
}

fn total_distance(route: &Vec<Point>) -> f64 {
    let mut total = 0.0;
    for i in 1..route.len() {
        total += distance(&route[i - 1], &route[i]);
    }
    total
}

fn cost(route: &Vec<Point>) -> u64 {
    total_distance(route).to_bits()
}

fn rectangle() -> Vec<Point> {
    vec![point(0.0, 0.0), point(0.0, 3.0), point(4.0, 3.0), point(4.0, 0.0)]
}

fn circle(n: u32) -> Vec<Point> {
    (0..n)
        .map(|i| {
            let angle = f64::from(i) * 2.0 * std::f64::consts::PI / f64::from(n);
            point(angle.cos(), angle.sin())
        })
        .collect()
}

fn same_points(a: &[Point], b: &[Point]) -> bool {
    a.len() == b.len() && b.iter().all(|p| a.iter().filter(|q| *q == p).count() == 1)
}

#[test]
fn initial_population_has_the_size_asked_for() {
    let locations = circle(9);
    let mut rng = StdRng::seed_from_u64(1);
    assert_eq!(create_population(&mut rng, &locations, 0).len(), 0);
    assert_eq!(create_population(&mut rng, &locations, 1).len(), 1);
    assert_eq!(create_population(&mut rng, &locations, 25).len(), 25);
}

#[test]
fn initial_population_holds_permutations_of_the_locations() {
    let locations = circle(9);
    let mut rng = StdRng::seed_from_u64(1);
    let population = create_population(&mut rng, &locations, 40);
    for route in &population {
        assert!(same_points(route, &locations));
    }
}

#[test]
fn initial_population_is_shuffled() {
    let locations = circle(9);
    let mut rng = StdRng::seed_from_u64(1);
    let population = create_population(&mut rng, &locations, 40);
    assert!(population.iter().any(|route| *route != locations));
    assert!(population.iter().any(|route| *route != population[0]));
}

#[test]
fn costs_are_asked_member_by_member() {
    let population = vec![
        vec![point(0.0, 0.0), point(3.0, 4.0)],
        vec![point(0.0, 0.0), point(0.0, 1.0), point(0.0, 3.0)],
        vec![point(1.0, 1.0)],
        vec![],
    ];
    let costs = evaluate_population(&population, &cost);
    assert_eq!(costs, vec![5.0f64.to_bits(), 3.0f64.to_bits(), 0.0f64.to_bits(), 0.0f64.to_bits()]);
}

#[test]
fn next_generation_keeps_size_and_locations() {
    let locations = circle(7);
    let mut rng = StdRng::seed_from_u64(31);
    for size in 1..12 {
        let population = create_population(&mut rng, &locations, size);
        let costs = evaluate_population(&population, &cost);
        let next = next_generation(&mut rng, &population, &costs, MutationRate::standard());
        assert_eq!(next.len(), size);
        for route in &next {
            assert!(same_points(route, &locations));
        }
    }
}

#[test]
fn first_half_of_next_generation_comes_from_the_old_one() {
    let locations = circle(7);
    let mut rng = StdRng::seed_from_u64(32);
    let population = create_population(&mut rng, &locations, 11);
    let costs = evaluate_population(&population, &cost);
    let next = next_generation(&mut rng, &population, &costs, MutationRate::standard());
    for route in &next[..5] {
        assert!(population.contains(route));
    }
}

#[test]
fn no_generation_returns_the_best_of_the_initial_population() {
    let locations = circle(8);
    for seed in 0..20 {
        let mut rng = StdRng::seed_from_u64(seed);
        let initial = create_population(&mut rng, &locations, 12);
        let costs = evaluate_population(&initial, &cost);
        let expected = &initial[first_minimum(&costs)];

        let mut rng = StdRng::seed_from_u64(seed);
        let best = genetic_algorithm(&mut rng, &locations, 0, 12, &cost);
        assert_eq!(&best, expected);
        for route in &initial {
            assert!(total_distance(&best) <= total_distance(route));
        }
    }
}

#[test]
fn search_returns_a_permutation_of_the_locations() {
    let locations = circle(12);
    let mut rng = StdRng::seed_from_u64(77);
    for generations in 0..8 {
        for size in 1..8 {
            let best = genetic_algorithm(&mut rng, &locations, generations, size, &cost);
            assert!(same_points(&best, &locations));
        }
    }
}

#[test]
fn search_over_two_locations() {
    let locations = vec![point(0.0, 0.0), point(3.0, 4.0)];
    let mut rng = StdRng::seed_from_u64(5);
    let best = genetic_algorithm(&mut rng, &locations, 20, 6, &cost);
    assert!(same_points(&best, &locations));
    assert_eq!(total_distance(&best), 5.0);
}

#[test]
fn search_with_one_route_in_the_population() {
    let locations = circle(6);
    let mut rng = StdRng::seed_from_u64(6);
    let best = genetic_algorithm(&mut rng, &locations, 15, 1, &cost);
    assert!(same_points(&best, &locations));
}

#[test]
fn rectangle_is_walked_along_three_sides() {
    let locations = rectangle();
    let mut rng = StdRng::seed_from_u64(2024);
    let best = genetic_algorithm(&mut rng, &locations, 60, 200, &cost);
    assert!(same_points(&best, &locations));
    let length = total_distance(&best);
    assert!(length >= 10.0);
    assert!((length - 10.0).abs() < 1e-9);
}

#[test]
fn search_improves_on_a_poor_order_of_a_circle() {
    let locations = circle(10);
    // Every second location first: a star, far longer than the circle.
    let mut star = Vec::new();
    for i in (0..10).step_by(2) {
        star.push(locations[i]);
    }
    for i in (1..10).step_by(2) {
        star.push(locations[i]);
    }
    let mut rng = StdRng::seed_from_u64(12);
    let best = genetic_algorithm(&mut rng, &star, 40, 80, &cost);
    assert!(total_distance(&best) < total_distance(&star));
}

#[test]
fn same_seed_gives_the_same_route() {
    let locations = circle(15);
    for seed in [0u64, 1, 42, u64::MAX] {
        let mut first_rng = StdRng::seed_from_u64(seed);
        let first = genetic_algorithm(&mut first_rng, &locations, 10, 10, &cost);
        let mut second_rng = StdRng::seed_from_u64(seed);
        let second = genetic_algorithm(&mut second_rng, &locations, 10, 10, &cost);
        assert_eq!(first, second);
    }
}

#[test]
fn different_seeds_give_different_first_populations() {
    let locations = circle(15);
    let mut one = StdRng::seed_from_u64(1);
    let mut two = StdRng::seed_from_u64(2);
    assert_ne!(
        create_population(&mut one, &locations, 5),
        create_population(&mut two, &locations, 5)
    );
}

#[test]
fn owned_random_source_repeats_for_the_same_seed() {
    let locations = circle(15);
    let mut first = GeneticAlgorithmPathFinding::new(314);
    let mut second = GeneticAlgorithmPathFinding::new(314);
    for _ in 0..3 {
        assert_eq!(
            first.genetic_algorithm(&locations, 5, 8, &cost),
            second.genetic_algorithm(&locations, 5, 8, &cost)
        );
    }
}

#[test]
fn owned_random_source_agrees_with_a_source_passed_in() {
    let locations = circle(10);
    let mut search = GeneticAlgorithmPathFinding::new(9);
    let mut rng = StdRng::seed_from_u64(9);
    assert_eq!(
        search.genetic_algorithm(&locations, 4, 6, &cost),
        genetic_algorithm(&mut rng, &locations, 4, 6, &cost)
    );
}

#[test]
fn owned_random_source_moves_on_between_searches() {
    let locations = circle(15);
    let mut search = GeneticAlgorithmPathFinding::new(5);
    let mut routes = Vec::new();
    for _ in 0..10 {
        routes.push(search.genetic_algorithm(&locations, 0, 1, &cost));
    }
    assert!(routes.iter().any(|route| *route != routes[0]));
}
