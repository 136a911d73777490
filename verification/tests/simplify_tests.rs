use rust_simplify::arithmetic::Operation;
use rust_simplify::point::Point;
use rust_simplify::point::Point::{Point2D, Point3D};
use rust_simplify::simplify;

fn arith(op: Operation, a: u64, b: u64) -> u64 {
    let x = f64::from_bits(a);
    let y = f64::from_bits(b);
    let r = match op {
        Operation::Add => x + y,
        Operation::Sub => x - y,
        Operation::Mul => x * y,
        Operation::Div => x / y,
    };
    r.to_bits()
}

fn bits(x: f64) -> u64 {
    x.to_bits()
}

fn flat(x: f64, y: f64) -> Point {
    Point2D(bits(x), bits(y))
}

fn solid(x: f64, y: f64, z: f64) -> Point {
    Point3D(bits(x), bits(y), bits(z))
}

fn coordinates(points: &[Point]) -> Vec<(f64, f64, f64)> {
    points
        .iter()
        .map(|p| {
            let (x, y, z) = p.map();
            (f64::from_bits(x), f64::from_bits(y), f64::from_bits(z))
        })
        .collect()
}

fn zig_zag() -> Vec<Point> {
    vec![
        flat(0.0, 0.0),
        flat(1.0, 1.01),
        flat(1.05, 1.05),
        flat(2.0, 1.99),
        flat(3.0, 3.02),
        flat(4.0, 3.98),
        flat(5.0, 5.0),
        flat(6.0, 4.01),
        flat(7.0, 2.99),
        flat(7.02, 3.0),
        flat(8.0, 2.02),
        flat(9.0, 0.99),
        flat(10.0, 0.0),
    ]
}

#[test]
fn returns_empty_list() {
    let input = Vec::<Point>::new();
    let result = simplify(&input, bits(1.0), false, &arith);
    assert_eq!(result.len(), 0);
}

#[test]
fn returns_list_with_one_element() {
    let mut input = Vec::new();
    input.push(flat(1.0, 2.0));
    let result = simplify(&input, bits(1.0), false, &arith);
    assert_eq!(result.len(), 1);
}

#[test]
fn returns_list_with_two_elements() {
    let mut input = Vec::new();
    input.push(flat(1.0, 2.0));
    input.push(flat(2.0, 3.0));
    let result = simplify(&input, bits(1.0), false, &arith);
    assert_eq!(result.len(), 2);
}

#[test]
fn short_inputs_come_back_unchanged() {
    let inputs = vec![
        vec![],
        vec![flat(1.0, 2.0)],
        vec![solid(1.0, 2.0, 3.0)],
        vec![flat(1.0, 2.0), flat(2.0, 3.0)],
        vec![flat(1.0, 2.0), flat(1.0, 2.0)],
        vec![solid(1.0, 2.0, 3.0), flat(1.0, 2.0)],
    ];
    for input in inputs.iter() {
        for tolerance in [0.0, 0.5, 1.0, 1000.0, -3.0, f64::NAN, f64::INFINITY] {
            for high_quality in [false, true] {
                let result = simplify(input, bits(tolerance), high_quality, &arith);
                assert_eq!(coordinates(&result), coordinates(input));
            }
        }
    }
}

#[test]
fn keeps_the_far_vertex_in_high_quality() {
    let result = simplify(&zig_zag(), bits(0.5), true, &arith);
    assert_eq!(
        coordinates(&result),
        vec![(0.0, 0.0, 0.0), (5.0, 5.0, 0.0), (10.0, 0.0, 0.0)]
    );
}

#[test]
fn keeps_the_far_vertex_in_fast_mode() {
    let result = simplify(&zig_zag(), bits(0.5), false, &arith);
    assert_eq!(
        coordinates(&result),
        vec![(0.0, 0.0, 0.0), (5.0, 5.0, 0.0), (10.0, 0.0, 0.0)]
    );
}

#[test]
fn keeps_every_corner_at_tolerance_zero() {
    let input = vec![flat(0.0, 0.0), flat(1.0, 1.0), flat(2.0, 0.0), flat(3.0, 1.0), flat(4.0, 0.0)];
    for high_quality in [false, true] {
        let result = simplify(&input, bits(0.0), high_quality, &arith);
        assert_eq!(coordinates(&result), coordinates(&input));
    }
}

#[test]
fn squares_the_tolerance() {
    // The middle point lies 2 off the chord: squared deviation 4.
    let input = vec![flat(0.0, 0.0), flat(5.0, 2.0), flat(10.0, 0.0)];
    let kept = simplify(&input, bits(1.9), true, &arith);
    assert_eq!(kept.len(), 3);
    let dropped = simplify(&input, bits(2.0), true, &arith);
    assert_eq!(coordinates(&dropped), vec![(0.0, 0.0, 0.0), (10.0, 0.0, 0.0)]);
    let negative = simplify(&input, bits(-2.0), true, &arith);
    assert_eq!(coordinates(&negative), vec![(0.0, 0.0, 0.0), (10.0, 0.0, 0.0)]);
}

#[test]
fn ends_are_preserved() {
    let input = zig_zag();
    for tolerance in [0.0, 0.1, 0.5, 2.0, 50.0] {
        for high_quality in [false, true] {
            let result = simplify(&input, bits(tolerance), high_quality, &arith);
            assert!(result.len() >= 2);
            assert_eq!(result[0], input[0]);
            assert_eq!(result[result.len() - 1], input[input.len() - 1]);
        }
    }
}

#[test]
fn larger_tolerance_gives_no_more_points_in_high_quality() {
    let input = zig_zag();
    let tolerances = [0.0, 0.01, 0.02, 0.05, 0.1, 0.5, 1.0, 3.0, 4.0, 100.0];
    let mut before = input.len();
    for tolerance in tolerances {
        let result = simplify(&input, bits(tolerance), true, &arith);
        assert!(result.len() <= before);
        before = result.len();
    }
    assert_eq!(before, 2);
}

#[test]
fn larger_tolerance_can_give_more_points_in_fast_mode() {
    let input = vec![
        flat(0.0, 0.0),
        flat(490.0, 0.0),
        flat(500.0, 10.0),
        flat(500.0, 19.0),
        flat(1000.0, 0.0),
    ];
    let small = simplify(&input, bits(10.0), false, &arith);
    assert_eq!(coordinates(&small), vec![(0.0, 0.0, 0.0), (1000.0, 0.0, 0.0)]);
    let large = simplify(&input, bits(15.0), false, &arith);
    assert_eq!(
        coordinates(&large),
        vec![(0.0, 0.0, 0.0), (490.0, 0.0, 0.0), (500.0, 19.0, 0.0), (1000.0, 0.0, 0.0)]
    );
}

#[test]
fn mixes_points_of_the_plane_and_of_space() {
    let input = vec![solid(0.0, 0.0, 0.0), flat(5.0, 0.0), solid(5.0, 0.0, 3.0), flat(10.0, 0.0)];
    let result = simplify(&input, bits(2.8), true, &arith);
    assert_eq!(
        coordinates(&result),
        vec![(0.0, 0.0, 0.0), (5.0, 0.0, 3.0), (10.0, 0.0, 0.0)]
    );
    let all = simplify(&input, bits(1.0), true, &arith);
    assert_eq!(coordinates(&all), coordinates(&input));
}
