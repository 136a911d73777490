use rust_simplify::number;
use rust_simplify::point::Point::{Point2D, Point3D};

fn bits(x: f64) -> u64 {
    x.to_bits()
}

fn samples() -> Vec<f64> {
    vec![
        0.0,
        -0.0,
        1.0,
        -1.0,
        0.5,
        -0.5,
        2.0,
        -2.0,
        1.0e-320,
        -1.0e-320,
        f64::MIN_POSITIVE,
        f64::EPSILON,
        1.0 + f64::EPSILON,
        f64::MAX,
        f64::MIN,
        f64::INFINITY,
        f64::NEG_INFINITY,
        f64::NAN,
        -f64::NAN,
        f64::from_bits(0x7FF0_0000_0000_0001),
        f64::from_bits(0xFFFF_FFFF_FFFF_FFFF),
    ]
}

#[test]
fn map_2d_point() {
    let point = Point2D(bits(1.0), bits(2.0));
    assert_eq!((bits(1.0), bits(2.0), bits(0.0)), point.map())
}

#[test]
fn map_3d_point() {
    let point = Point3D(bits(1.0), bits(2.0), bits(3.0));
    assert_eq!((bits(1.0), bits(2.0), bits(3.0)), point.map())
}

#[test]
fn constants_are_the_patterns_of_their_numbers() {
    assert_eq!(number::ZERO, bits(0.0));
    assert_eq!(number::ONE, bits(1.0));
    assert_eq!(number::SIGN, bits(-0.0));
    assert_eq!(number::INFINITY, bits(f64::INFINITY));
}

#[test]
fn numbers_compare_as_binary64() {
    for a in samples() {
        assert_eq!(number::is_nan(bits(a)), a.is_nan());
        for b in samples() {
            assert_eq!(number::less(bits(a), bits(b)), a < b);
            assert_eq!(number::greater(bits(a), bits(b)), a > b);
            assert_eq!(number::at_least(bits(a), bits(b)), a >= b);
            assert_eq!(number::at_most(bits(a), bits(b)), a <= b);
            assert_eq!(number::equal(bits(a), bits(b)), a == b);
        }
    }
}

#[test]
fn points_are_equal_by_position() {
    assert!(Point2D(bits(1.0), bits(2.0)) == Point2D(bits(1.0), bits(2.0)));
    assert!(Point2D(bits(1.0), bits(2.0)) != Point2D(bits(1.0), bits(2.5)));
    assert!(Point2D(bits(0.0), bits(2.0)) == Point2D(bits(-0.0), bits(2.0)));
    assert!(Point2D(bits(1.0), bits(2.0)) == Point3D(bits(1.0), bits(2.0), bits(0.0)));
    assert!(Point2D(bits(1.0), bits(2.0)) == Point3D(bits(1.0), bits(2.0), bits(-0.0)));
    assert!(Point2D(bits(1.0), bits(2.0)) != Point3D(bits(1.0), bits(2.0), bits(3.0)));
    assert!(Point2D(bits(f64::NAN), bits(2.0)) != Point2D(bits(f64::NAN), bits(2.0)));
}
