use genetic_algorithm_rust::geometry::{collect_keys, copy_route, has_distinct_points, Point};

fn point(x: f64, y: f64) -> Point {
    Point { x: x.to_bits(), y: y.to_bits() }
}

#[test]
fn gene_key_joins_both_bit_patterns() {
    let p = Point { x: 1, y: 2 };
    assert_eq!(p.gene_key(), (1u128 << 64) | 2u128);
    let q = Point { x: u64::MAX, y: u64::MAX };
    assert_eq!(q.gene_key(), u128::MAX);
    let zero = Point { x: 0, y: 0 };
    assert_eq!(zero.gene_key(), 0);
}

#[test]
fn gene_key_tells_swapped_coordinates_apart() {
    let p = point(1.5, 2.5);
    let q = point(2.5, 1.5);
    assert_ne!(p.gene_key(), q.gene_key());
}

#[test]
fn gene_key_tells_negative_zero_from_zero() {
    let p = point(0.0, 0.0);
    let q = point(-0.0, 0.0);
    assert_ne!(p, q);
    assert_ne!(p.gene_key(), q.gene_key());
}

#[test]
fn distinct_points_are_recognised() {
    let route = vec![point(0.0, 0.0), point(0.0, 3.0), point(4.0, 3.0), point(4.0, 0.0)];
    assert!(has_distinct_points(&route));
}

#[test]
fn a_repeated_point_is_found() {
    let route = vec![point(0.0, 0.0), point(0.0, 3.0), point(4.0, 3.0), point(0.0, 3.0)];
    assert!(!has_distinct_points(&route));
}

#[test]
fn empty_and_single_routes_have_distinct_points() {
    assert!(has_distinct_points(&Vec::new()));
    assert!(has_distinct_points(&vec![point(1.0, 1.0)]));
}

#[test]
fn copy_route_copies_every_point_in_order() {
    let route = vec![point(1.0, 2.0), point(3.0, 4.0), point(5.0, 6.0)];
    assert_eq!(copy_route(&route), route);
    assert_eq!(copy_route(&Vec::new()), Vec::<Point>::new());
}

#[test]
fn keys_are_collected_from_the_stretch_asked_for() {
    let route = vec![point(1.0, 0.0), point(2.0, 0.0), point(3.0, 0.0), point(4.0, 0.0)];
    let keys = collect_keys(&route, 1, 3);
    assert_eq!(keys.len(), 2);
    assert!(keys.contains(&route[1].gene_key()));
    assert!(keys.contains(&route[2].gene_key()));
    assert!(!keys.contains(&route[0].gene_key()));
    assert!(!keys.contains(&route[3].gene_key()));
    assert!(collect_keys(&route, 2, 2).is_empty());
    assert_eq!(collect_keys(&route, 0, 4).len(), 4);
}
