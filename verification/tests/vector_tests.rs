use quaternion::error::RotationError;
use quaternion::fixed::Fixed;
use quaternion::vector::{Vector, ROTATE_LIMIT_RAW};
use std::f64::consts::PI;

const ONE: i64 = 4294967296;

fn v_fx(value: f64) -> Fixed {
    Fixed::from_raw((value * 4294967296.0).round() as i64)
}

fn vector(x: f64, y: f64, z: f64) -> Vector {
    Vector {
        x: v_fx(x),
        y: v_fx(y),
        z: v_fx(z),
    }
}

fn half_sin(angle: f64) -> Fixed {
    v_fx((angle / 2.0).sin())
}

fn half_cos(angle: f64) -> Fixed {
    v_fx((angle / 2.0).cos())
}

fn raw_length_squared(v: &Vector) -> i128 {
    let x = v.x.raw as i128;
    let y = v.y.raw as i128;
    let z = v.z.raw as i128;
    x * x + y * y + z * z
}

#[test]
fn vector_rotation() {
    // take a vector of length 1 on x axis
    let mut v = Vector {
        x: v_fx(1.0),
        y: v_fx(0.0),
        z: v_fx(0.0),
    };

    // apply a 90 degree rotation around z axis
    let angle = PI / 2.0;
    v.rotate(
        &Vector {
            x: v_fx(0.0),
            y: v_fx(0.0),
            z: v_fx(1.0),
        },
        half_sin(angle),
        half_cos(angle),
    )
    .unwrap();

    // vector should now be on y axis
    assert_eq!(
        v,
        Vector {
            x: v_fx(0.0),
            y: v_fx(1.0),
            z: v_fx(0.0)
        }
    )
}

#[test]
fn convert_to_identity() {
    let v = Vector {
        x: v_fx(4.0),
        y: v_fx(4.0),
        z: v_fx(2.0),
    };

    assert_eq!(
        v.convert_to_identity().unwrap(),
        Vector {
            x: v_fx(4.0 / 6.0),
            y: v_fx(4.0 / 6.0),
            z: v_fx(2.0 / 6.0)
        }
    )
}

#[test]
fn convert_to_identity_rounds_to_nearest() {
    let n = vector(4.0, 4.0, 2.0).convert_to_identity().unwrap();
    assert_eq!(n.x.raw, 2863311531);
    assert_eq!(n.y.raw, 2863311531);
    assert_eq!(n.z.raw, 1431655765);
    let n = vector(-3.0, 0.0, 4.0).convert_to_identity().unwrap();
    assert_eq!(n.x.raw, -2576980378);
    assert_eq!(n.y.raw, 0);
    assert_eq!(n.z.raw, 3435973837);
}

#[test]
fn convert_to_identity_refuses_the_zero_vector() {
    assert_eq!(
        vector(0.0, 0.0, 0.0).convert_to_identity(),
        Err(RotationError::InvalidAxis)
    );
}

#[test]
fn convert_to_identity_takes_the_whole_range() {
    let v = Vector {
        x: Fixed::from_raw(i64::MIN),
        y: Fixed::from_raw(i64::MAX),
        z: Fixed::from_raw(i64::MIN),
    };
    let n = v.convert_to_identity().unwrap();
    // each component is 1/sqrt(3) in magnitude
    assert_eq!(n.x.raw, -2479700525);
    assert_eq!(n.y.raw, 2479700525);
    assert_eq!(n.z.raw, -2479700525);
    let tiny = Vector {
        x: Fixed::from_raw(0),
        y: Fixed::from_raw(-1),
        z: Fixed::from_raw(0),
    };
    let n = tiny.convert_to_identity().unwrap();
    assert_eq!(n.x.raw, 0);
    assert_eq!(n.y.raw, -ONE);
    assert_eq!(n.z.raw, 0);
}

#[test]
fn modulo_is_the_euclidean_length() {
    assert_eq!(vector(3.0, 4.0, 0.0).modulo().raw, 5 * ONE);
    assert_eq!(vector(4.0, 4.0, 2.0).modulo().raw, 6 * ONE);
    assert_eq!(vector(0.0, 0.0, 0.0).modulo().raw, 0);
    assert_eq!(vector(0.0, -2.5, 0.0).modulo().raw, 5 * ONE / 2);
    // sqrt(2) rounded down
    assert_eq!(vector(1.0, 1.0, 0.0).modulo().raw, 6074000999);
}

#[test]
fn modulo_clamps_at_the_largest_number() {
    let v = Vector {
        x: Fixed::from_raw(i64::MAX),
        y: Fixed::from_raw(i64::MAX),
        z: Fixed::from_raw(0),
    };
    assert_eq!(v.modulo().raw, i64::MAX);
}

#[test]
fn scale_multiplies_each_component() {
    let v = vector(1.0, -2.0, 0.5).scale(v_fx(-1.5));
    assert_eq!(v.x.raw, v_fx(-1.5).raw);
    assert_eq!(v.y.raw, v_fx(3.0).raw);
    assert_eq!(v.z.raw, v_fx(-0.75).raw);
    let w = vector(1.0, -2.0, 0.5) * v_fx(2.0);
    assert_eq!(w.x.raw, v_fx(2.0).raw);
    assert_eq!(w.y.raw, v_fx(-4.0).raw);
    assert_eq!(w.z.raw, v_fx(1.0).raw);
}

#[test]
fn rotate_by_zero_angle_changes_nothing() {
    let start = vector(1.25, -7.5, 1234.000001);
    let mut v = start;
    v.rotate(&vector(3.0, -1.0, 0.2), half_sin(0.0), half_cos(0.0))
        .unwrap();
    assert_eq!(v.x.raw, start.x.raw);
    assert_eq!(v.y.raw, start.y.raw);
    assert_eq!(v.z.raw, start.z.raw);
}

#[test]
fn rotate_there_and_back_returns_to_the_start() {
    let start = vector(1.0, 2.0, 3.0);
    let axis = vector(1.0, 1.0, 1.0);
    let angle = 0.7;
    let mut v = start;
    v.rotate(&axis, half_sin(angle), half_cos(angle)).unwrap();
    assert!(!v.equals_within(&start, v_fx(0.1)));
    v.rotate(&axis, half_sin(-angle), half_cos(-angle)).unwrap();
    assert!(v.equals_within(&start, Fixed::from_raw(16)));
}

#[test]
fn rotate_quarter_turn_there_and_back_is_exact() {
    let start = vector(1.0, 0.0, 0.0);
    let axis = vector(0.0, 0.0, 1.0);
    let mut v = start;
    v.rotate(&axis, half_sin(PI / 2.0), half_cos(PI / 2.0))
        .unwrap();
    v.rotate(&axis, half_sin(-PI / 2.0), half_cos(-PI / 2.0))
        .unwrap();
    assert_eq!(v, start);
}

#[test]
fn rotate_keeps_the_length() {
    let start = vector(3.0, -4.0, 12.0);
    let mut v = start;
    v.rotate(&vector(0.3, 0.9, -0.2), half_sin(2.1), half_cos(2.1))
        .unwrap();
    assert!(v
        .modulo()
        .is_close_to(v_fx(13.0), Fixed::from_raw(64)));
    let before = raw_length_squared(&start);
    let after = raw_length_squared(&v);
    // relative error of the squared length below 2^-28
    assert!((after - before).abs() < before >> 28);
}

#[test]
fn rotate_normalizes_the_axis_itself() {
    let angle = PI / 3.0;
    let mut with_long_axis = vector(1.0, 2.0, 3.0);
    with_long_axis
        .rotate(&vector(0.0, 0.0, 2.0), half_sin(angle), half_cos(angle))
        .unwrap();
    let mut with_unit_axis = vector(1.0, 2.0, 3.0);
    with_unit_axis
        .rotate(&vector(0.0, 0.0, 1.0), half_sin(angle), half_cos(angle))
        .unwrap();
    assert_eq!(with_long_axis.x.raw, with_unit_axis.x.raw);
    assert_eq!(with_long_axis.y.raw, with_unit_axis.y.raw);
    assert_eq!(with_long_axis.z.raw, with_unit_axis.z.raw);
    assert_eq!(with_long_axis, with_unit_axis);
}

#[test]
fn rotate_a_third_of_a_turn_about_the_diagonal() {
    let mut v = vector(1.0, 0.0, 0.0);
    let angle = 2.0 * PI / 3.0;
    v.rotate(&vector(1.0, 1.0, 1.0), half_sin(angle), half_cos(angle))
        .unwrap();
    assert!(v.equals_within(&vector(0.0, 1.0, 0.0), Fixed::from_raw(8)));
}

#[test]
fn rotate_half_turn_about_x() {
    let mut v = vector(1.0, 2.0, -3.0);
    v.rotate(&vector(5.0, 0.0, 0.0), half_sin(PI), half_cos(PI))
        .unwrap();
    assert_eq!(v.x.raw, v_fx(1.0).raw);
    assert_eq!(v.y.raw, v_fx(-2.0).raw);
    assert_eq!(v.z.raw, v_fx(3.0).raw);
}

#[test]
fn rotate_opposite_order_turns_the_other_way() {
    let axis = vector(0.0, 0.0, 1.0);
    let mut left = vector(1.0, 0.0, 0.0);
    left.rotate(&axis, half_sin(PI / 2.0), half_cos(PI / 2.0))
        .unwrap();
    let mut right = vector(1.0, 0.0, 0.0);
    right
        .rotate(&axis, half_sin(-PI / 2.0), half_cos(-PI / 2.0))
        .unwrap();
    assert_eq!(left, vector(0.0, 1.0, 0.0));
    assert_eq!(right, vector(0.0, -1.0, 0.0));
}

#[test]
fn rotate_refuses_a_zero_axis() {
    let start = vector(1.0, 2.0, 3.0);
    let mut v = start;
    let outcome = v.rotate(&vector(0.0, 0.0, 0.0), half_sin(1.0), half_cos(1.0));
    assert_eq!(outcome, Err(RotationError::InvalidAxis));
    assert_eq!(v.x.raw, start.x.raw);
    assert_eq!(v.y.raw, start.y.raw);
    assert_eq!(v.z.raw, start.z.raw);
}

#[test]
fn rotate_refuses_numbers_out_of_range() {
    let axis = vector(0.0, 0.0, 1.0);
    let mut v = Vector {
        x: Fixed::from_raw(ROTATE_LIMIT_RAW + 1),
        y: Fixed::from_raw(0),
        z: Fixed::from_raw(0),
    };
    assert_eq!(
        v.rotate(&axis, half_sin(1.0), half_cos(1.0)),
        Err(RotationError::InvalidInput)
    );
    assert_eq!(v.x.raw, ROTATE_LIMIT_RAW + 1);
    let mut v = vector(1.0, 2.0, 3.0);
    assert_eq!(
        v.rotate(&axis, Fixed::from_raw(ONE + 1), Fixed::from_raw(0)),
        Err(RotationError::InvalidInput)
    );
    assert_eq!(
        v.rotate(&axis, Fixed::from_raw(0), Fixed::from_raw(-ONE - 1)),
        Err(RotationError::InvalidInput)
    );
    // a bad number is reported before a bad axis
    assert_eq!(
        v.rotate(
            &vector(0.0, 0.0, 0.0),
            Fixed::from_raw(ONE + 1),
            Fixed::from_raw(0)
        ),
        Err(RotationError::InvalidInput)
    );
    assert_eq!(v.x.raw, ONE);
}

#[test]
fn rotate_accepts_the_largest_vector() {
    let mut v = Vector {
        x: Fixed::from_raw(ROTATE_LIMIT_RAW),
        y: Fixed::from_raw(-ROTATE_LIMIT_RAW),
        z: Fixed::from_raw(ROTATE_LIMIT_RAW),
    };
    let outcome = v.rotate(
        &vector(0.0, 0.0, 1.0),
        half_sin(PI / 2.0),
        half_cos(PI / 2.0),
    );
    assert_eq!(outcome, Ok(()));
    // The rounded sine and cosine of an eighth of a turn are both
    // 3037000500 / 2^32, whose squares add up to a little more than one, so
    // the result is longer than the input by about 1.6 parts in 10^11.
    assert_eq!(v.x.raw, 576460752312515625);
    assert_eq!(v.y.raw, 576460752312515625);
    assert_eq!(v.z.raw, 576460752312515625);
}

#[test]
fn vector_equality_allows_one_unit_of_difference() {
    let v = vector(1.0, 2.0, 3.0);
    let mut w = v;
    w.z = Fixed::from_raw(v.z.raw - 1);
    assert!(v.equals(&w));
    assert!(v == w);
    w.z = Fixed::from_raw(v.z.raw - 2);
    assert!(!v.equals(&w));
    assert!(v != w);
    assert!(v.equals_within(&w, Fixed::from_raw(2)));
}

#[test]
fn convert_to_identity_is_exact_to_the_last_place_for_short_vectors() {
    // components of one and two raw units: the direction is still found to
    // the full 32 fractional bits
    let n = Vector {
        x: Fixed::from_raw(1),
        y: Fixed::from_raw(1),
        z: Fixed::from_raw(0),
    }
    .convert_to_identity()
    .unwrap();
    assert_eq!(n.x.raw, 3037000500);
    assert_eq!(n.y.raw, 3037000500);
    assert_eq!(n.z.raw, 0);
    let n = Vector {
        x: Fixed::from_raw(1),
        y: Fixed::from_raw(-2),
        z: Fixed::from_raw(2),
    }
    .convert_to_identity()
    .unwrap();
    assert_eq!(n.x.raw, 1431655765);
    assert_eq!(n.y.raw, -2863311531);
    assert_eq!(n.z.raw, 2863311531);
}

#[test]
fn convert_to_identity_does_not_change_under_doubling() {
    let axis = vector(0.3, 0.9, -0.2);
    let n = axis.convert_to_identity().unwrap();
    assert_eq!(n.x.raw, 1328976157);
    assert_eq!(n.y.raw, 3986928469);
    assert_eq!(n.z.raw, -885984104);
    let mut scaled = axis;
    for _ in 0..20 {
        scaled = Vector {
            x: Fixed::from_raw(scaled.x.raw * 2),
            y: Fixed::from_raw(scaled.y.raw * 2),
            z: Fixed::from_raw(scaled.z.raw * 2),
        };
        let m = scaled.convert_to_identity().unwrap();
        assert_eq!(m.x.raw, n.x.raw);
        assert_eq!(m.y.raw, n.y.raw);
        assert_eq!(m.z.raw, n.z.raw);
    }
}

#[test]
fn convert_to_identity_keeps_an_exact_direction_at_any_length() {
    for length in [1i64, 2, 3, 7, 1000, ONE, 3 * ONE + 5, 1 << 62, i64::MAX] {
        let n = Vector {
            x: Fixed::from_raw(0),
            y: Fixed::from_raw(-length),
            z: Fixed::from_raw(0),
        }
        .convert_to_identity()
        .unwrap();
        assert_eq!(n.x.raw, 0);
        assert_eq!(n.y.raw, -ONE);
        assert_eq!(n.z.raw, 0);
    }
}

#[test]
fn convert_to_identity_gives_a_vector_of_length_one_up_to_rounding() {
    let axes = [
        vector(0.3, 0.9, -0.2),
        vector(1.0, 1.0, 1.0),
        vector(-5.0, 0.001, 12.5),
        Vector {
            x: Fixed::from_raw(1),
            y: Fixed::from_raw(1),
            z: Fixed::from_raw(1),
        },
        Vector {
            x: Fixed::from_raw(i64::MIN),
            y: Fixed::from_raw(i64::MAX),
            z: Fixed::from_raw(i64::MIN),
        },
    ];
    for axis in axes {
        let n = axis.convert_to_identity().unwrap();
        let excess = raw_length_squared(&n) - (ONE as i128) * (ONE as i128);
        assert!(-3 * (ONE as i128) <= excess);
        assert!(excess <= 3 * (ONE as i128) + 17);
    }
}

#[test]
fn axis_length_can_show_in_the_last_place() {
    // A direction that cannot be written down exactly, chosen so that one
    // component of the unit vector lies within 2^-30 of a unit of the middle
    // between two representable numbers.
    let axis = Vector {
        x: Fixed::from_raw(1083140983),
        y: Fixed::from_raw(1876054629),
        z: Fixed::from_raw(0),
    };
    let tripled = Vector {
        x: Fixed::from_raw(3 * 1083140983),
        y: Fixed::from_raw(3 * 1876054629),
        z: Fixed::from_raw(0),
    };
    let n = axis.convert_to_identity().unwrap();
    let m = tripled.convert_to_identity().unwrap();
    assert_eq!(n.x.raw, 2147484150);
    assert_eq!(m.x.raw, 2147484151);
    assert_eq!(n.y.raw, 3719550497);
    assert_eq!(m.y.raw, 3719550497);
    assert_eq!(n, m);
}

#[test]
fn rotate_gives_the_rounded_conjugation() {
    let mut v = vector(1.0, 2.0, 3.0);
    v.rotate(
        &vector(1.0, 1.0, 1.0),
        Fixed::from_raw(1472734869),
        Fixed::from_raw(4034575080),
    )
    .unwrap();
    assert_eq!(v.x.raw, 6902429347);
    assert_eq!(v.y.raw, 5395000717);
    assert_eq!(v.z.raw, 13472373707);
    v.rotate(
        &vector(1.0, 1.0, 1.0),
        Fixed::from_raw(-1472734869),
        Fixed::from_raw(4034575080),
    )
    .unwrap();
    assert_eq!(v.x.raw, ONE - 2);
    assert_eq!(v.y.raw, 2 * ONE - 3);
    assert_eq!(v.z.raw, 3 * ONE - 5);
}

#[test]
fn rotate_changes_the_squared_length_within_the_proved_bound() {
    let vectors = [
        vector(3.0, -4.0, 12.0),
        vector(0.001, 0.0, -0.002),
        vector(100000.0, 20000.0, -3.5),
        Vector {
            x: Fixed::from_raw(ROTATE_LIMIT_RAW),
            y: Fixed::from_raw(-ROTATE_LIMIT_RAW),
            z: Fixed::from_raw(ROTATE_LIMIT_RAW),
        },
    ];
    let axes = [
        vector(0.3, 0.9, -0.2),
        vector(0.0, 0.0, 5.0),
        vector(-1.0, 1.0, 1.0),
    ];
    let angles = [0.1, 1.0, 2.1, PI, -2.5, 6.0];
    for start in vectors {
        for axis in axes {
            for angle in angles {
                let mut v = start;
                v.rotate(&axis, half_sin(angle), half_cos(angle)).unwrap();
                let before = raw_length_squared(&start);
                let after = raw_length_squared(&v);
                let largest = [start.x.raw, start.y.raw, start.z.raw]
                    .iter()
                    .map(|c| (*c as i128).abs())
                    .max()
                    .unwrap();
                let slack = 17 * before + (180 * largest + 19) * (ONE as i128);
                let change = after - before;
                // |change| * 2^32 <= slack, without overflow
                assert!(change.abs() <= slack >> 32);
            }
        }
    }
}

#[test]
fn rotate_there_and_back_stays_within_the_proved_bound() {
    let vectors = [
        vector(1.0, 2.0, 3.0),
        vector(-0.25, 1000.0, 0.0),
        vector(12345.678, -0.001, 42.0),
    ];
    let axes = [
        vector(1.0, 1.0, 1.0),
        vector(0.0, -3.0, 0.0),
        vector(0.3, 0.9, -0.2),
    ];
    let angles = [0.7, 1.0, 3.0, -2.0];
    for start in vectors {
        for axis in axes {
            for angle in angles {
                let sin = half_sin(angle);
                let cos = half_cos(angle);
                let mut v = start;
                v.rotate(&axis, sin, cos).unwrap();
                v.rotate(&axis, sin.saturating_neg(), cos).unwrap();
                let pairs = [
                    (v.x.raw, start.x.raw),
                    (v.y.raw, start.y.raw),
                    (v.z.raw, start.z.raw),
                ];
                for (back, start) in pairs {
                    let slack = 17 * (start as i128).abs() + 33 * (ONE as i128);
                    let gap = (back as i128 - start as i128).abs() * (ONE as i128);
                    assert!(gap <= slack);
                }
            }
        }
    }
}

#[test]
fn rounded_sines_and_cosines_belong_together() {
    let mut angle = -7.0;
    while angle < 7.0 {
        let sin = half_sin(angle).raw as i128;
        let cos = half_cos(angle).raw as i128;
        let excess = sin * sin + cos * cos - (ONE as i128) * (ONE as i128);
        assert!(excess.abs() <= 2 * (ONE as i128));
        angle += 0.0137;
    }
}
