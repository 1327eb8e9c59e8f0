use raytracer::bvh::Aabb;
use raytracer::data::{orient, Face, Ray};
use raytracer::interval::Interval;
use raytracer::scalar::{abs, from_bits, lt, negate, number as is_number, to_bits, Scalar};
use raytracer::scalar::{DELTA, EPSILON, INFINITY, NEG_INFINITY, ONE, TINY, ZERO};
use raytracer::shapes::quad::is_interior;
use raytracer::texture::{checker_parity, clamp_unit};

fn key(value: f32) -> Scalar {
    from_bits(value.to_bits())
}

fn number(key: Scalar) -> f32 {
    f32::from_bits(to_bits(key))
}

#[test]
fn keys_follow_the_order_of_numbers() {
    let numbers = [
        f32::NEG_INFINITY,
        -1.0e30,
        -2.5,
        -1.0,
        -1.0e-30,
        0.0,
        1.0e-30,
        0.25,
        0.5,
        1.0,
        3.0,
        1.0e30,
        f32::INFINITY,
    ];
    for pair in numbers.windows(2) {
        assert!(key(pair[0]) < key(pair[1]));
    }
}

#[test]
fn both_zeros_have_key_zero() {
    assert_eq!(key(0.0), ZERO);
    assert_eq!(key(-0.0), ZERO);
    assert_eq!(to_bits(ZERO), 0);
}

#[test]
fn named_keys_encode_their_numbers() {
    assert_eq!(key(1.0), ONE);
    assert_eq!(key(f32::INFINITY), INFINITY);
    assert_eq!(key(f32::NEG_INFINITY), NEG_INFINITY);
    assert_eq!(key(1e-8), TINY);
    assert_eq!(key(0.0001), DELTA);
    assert_eq!(key(0.001), EPSILON);
}

#[test]
fn keys_round_trip() {
    for value in [-3.75_f32, -1.0, 0.0, 1.0e-20, 0.001, 42.5, f32::INFINITY, f32::MIN, f32::MAX] {
        assert_eq!(number(key(value)), value);
    }
    assert_eq!(from_bits(0x8000_0001), -1);
    assert_eq!(to_bits(-1), 0x8000_0001);
    assert_eq!(from_bits(0x7FFF_FFFF), i32::MAX);
    assert_eq!(from_bits(0xFFFF_FFFF), -i32::MAX);
}

#[test]
fn negate_and_abs_mirror_the_numbers() {
    assert_eq!(negate(key(2.5)), key(-2.5));
    assert_eq!(negate(key(-0.125)), key(0.125));
    assert_eq!(negate(ZERO), ZERO);
    assert_eq!(negate(i32::MIN), i32::MIN);
    assert_eq!(abs(key(-7.0)), key(7.0));
    assert_eq!(abs(key(7.0)), key(7.0));
}

#[test]
fn interval_is_half_open() {
    let interval = Interval::new(key(1.0), key(2.0));
    assert!(interval.contains(key(1.0)));
    assert!(interval.contains(key(1.5)));
    assert!(!interval.contains(key(2.0)));
    assert!(!interval.contains(key(0.999)));
    assert!(!Interval::new(key(2.0), key(1.0)).contains(key(1.5)));
}

#[test]
fn interval_combine_covers_both() {
    let combined = Interval::combine(
        Interval::new(key(-1.0), key(0.5)),
        Interval::new(key(0.0), key(3.0)),
    );
    assert_eq!(combined, Interval::new(key(-1.0), key(3.0)));
    let nested = Interval::combine(
        Interval::new(key(-4.0), key(4.0)),
        Interval::new(key(-1.0), key(1.0)),
    );
    assert_eq!(nested, Interval::new(key(-4.0), key(4.0)));
}

#[test]
fn from_extremes_orders_each_axis() {
    let bounds = Aabb::from_extremes(
        [key(1.0), key(-2.0), key(5.0)],
        [key(-1.0), key(2.0), key(5.0)],
    );
    assert_eq!(bounds.x, Interval::new(key(-1.0), key(1.0)));
    assert_eq!(bounds.y, Interval::new(key(-2.0), key(2.0)));
    assert_eq!(bounds.z, Interval::new(key(5.0), key(5.0)));
    assert_eq!(bounds.axis(0), bounds.x);
    assert_eq!(bounds.axis(1), bounds.y);
    assert_eq!(bounds.axis(2), bounds.z);
}

#[test]
fn aabb_combine_contains_both_boxes() {
    let a = Aabb::from_extremes([key(0.0), key(0.0), key(0.0)], [key(1.0), key(1.0), key(1.0)]);
    let b = Aabb::from_extremes([key(-3.0), key(0.5), key(2.0)], [key(-2.0), key(0.75), key(4.0)]);
    let both = Aabb::combine(a, b);
    assert_eq!(both.x, Interval::new(key(-3.0), key(1.0)));
    assert_eq!(both.y, Interval::new(key(0.0), key(1.0)));
    assert_eq!(both.z, Interval::new(key(0.0), key(4.0)));
    assert_eq!(Aabb::combine(b, a), both);
}

#[test]
fn interior_includes_the_edges() {
    assert!(is_interior(key(0.0), key(0.0)));
    assert!(is_interior(key(1.0), key(1.0)));
    assert!(is_interior(key(0.5), key(0.25)));
    assert!(!is_interior(key(-0.001), key(0.5)));
    assert!(!is_interior(key(0.5), key(1.001)));
    assert!(!is_interior(key(1.5), key(0.5)));
    assert!(!is_interior(key(0.5), key(-2.0)));
}

#[test]
fn checker_parity_alternates_along_each_axis() {
    assert!(checker_parity([0, 0, 0]));
    assert!(!checker_parity([1, 0, 0]));
    assert!(!checker_parity([0, 1, 0]));
    assert!(!checker_parity([0, 0, 1]));
    assert!(checker_parity([1, 1, 0]));
    assert!(!checker_parity([1, 1, 1]));
    assert!(!checker_parity([-1, 0, 0]));
    assert!(checker_parity([-1, 1, 0]));
    assert!(checker_parity([-3, -4, -5]));
    assert!(!checker_parity([-3, -4, -6]));
}

#[test]
fn checker_parity_keeps_under_negation() {
    for cell in [[3, 4, 5], [2, 0, -7], [1, 1, 1], [-8, 2, 9]] {
        let mirrored = [-cell[0], cell[1], -cell[2]];
        assert_eq!(checker_parity(cell), checker_parity(mirrored));
    }
}

#[test]
fn checker_parity_does_not_overflow() {
    assert!(!checker_parity([i32::MAX, i32::MAX, i32::MAX]));
    assert!(checker_parity([i32::MIN, i32::MIN, i32::MIN]));
    assert!(!checker_parity([i32::MAX, i32::MIN, 0]));
}

#[test]
fn clamp_unit_holds_values_between_zero_and_one() {
    assert_eq!(clamp_unit(key(-0.5)), ZERO);
    assert_eq!(clamp_unit(key(1.5)), ONE);
    assert_eq!(clamp_unit(key(0.25)), key(0.25));
    assert_eq!(clamp_unit(ZERO), ZERO);
    assert_eq!(clamp_unit(ONE), ONE);
}

#[test]
fn orient_turns_the_normal_for_the_back_face() {
    let outward = [key(0.0), key(0.6), key(-0.8)];
    assert_eq!(orient(Face::Front, outward), outward);
    assert_eq!(orient(Face::Back, outward), [key(0.0), key(-0.6), key(0.8)]);
}

#[test]
fn ray_keeps_origin_and_direction() {
    let ray = Ray::new([key(1.0), key(2.0), key(3.0)], [key(0.0), key(0.0), key(-1.0)]);
    assert_eq!(ray.origin, [key(1.0), key(2.0), key(3.0)]);
    assert_eq!(ray.direction, [key(0.0), key(0.0), key(-1.0)]);
}

#[test]
fn numbers_lie_between_the_infinities() {
    for value in [0.0_f32, -0.0, 1.0, -1.0e-40, f32::MAX, f32::MIN, f32::INFINITY, f32::NEG_INFINITY] {
        assert!(is_number(key(value)));
    }
    assert!(!is_number(key(f32::NAN)));
    assert!(!is_number(key(-f32::NAN)));
    assert!(!is_number(from_bits(0x7F80_0001)));
    assert!(!is_number(from_bits(0xFFFF_FFFF)));
    assert!(!is_number(i32::MIN));
}

#[test]
fn nothing_is_less_than_what_is_no_number() {
    assert!(lt(key(1.0), key(2.0)));
    assert!(lt(key(-1.0), key(0.0)));
    assert!(lt(key(f32::NEG_INFINITY), key(f32::INFINITY)));
    assert!(!lt(key(2.0), key(2.0)));
    assert!(!lt(key(3.0), key(2.0)));
    assert!(!lt(key(-0.0), key(0.0)));
    for value in [-1.0_f32, 0.0, 1.0, f32::INFINITY, f32::NEG_INFINITY] {
        assert!(!lt(key(f32::NAN), key(value)));
        assert!(!lt(key(-f32::NAN), key(value)));
        assert!(!lt(key(value), key(f32::NAN)));
        assert!(!lt(key(value), key(-f32::NAN)));
    }
}
