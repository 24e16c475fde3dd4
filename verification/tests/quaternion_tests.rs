use quaternion::fixed::Fixed;
use quaternion::quaternion::Quaternion;
use quaternion::vector::Vector;
use std::f64::consts::PI;

fn q_fx(value: f64) -> Fixed {
    Fixed::from_raw((value * 4294967296.0).round() as i64)
}

fn quat(a: f64, b: f64, c: f64, d: f64) -> Quaternion {
    Quaternion {
        a: q_fx(a),
        b: q_fx(b),
        c: q_fx(c),
        d: q_fx(d),
    }
}

#[test]
fn quaternion_vector_multiplication() {
    let h1 = Quaternion {
        a: q_fx(1.0),
        b: q_fx(2.0),
        c: q_fx(3.0),
        d: q_fx(4.0),
    };
    let h2 = Quaternion {
        a: q_fx(1.0),
        b: q_fx(2.0),
        c: q_fx(3.0),
        d: q_fx(4.0),
    };

    let result = h1 * h2;
    assert_eq!(
        result,
        Quaternion {
            a: q_fx(-28.0),
            b: q_fx(4.0),
            c: q_fx(6.0),
            d: q_fx(8.0)
        }
    );
}

#[test]
fn quaternion_scalar_multiplication() {
    let h1 = Quaternion {
        a: q_fx(0.0),
        b: q_fx(0.0),
        c: q_fx(1.0),
        d: q_fx(0.0),
    };

    assert_eq!(
        h1 * q_fx(2.0),
        Quaternion {
            a: q_fx(0.0),
            b: q_fx(0.0),
            c: q_fx(2.0),
            d: q_fx(0.0),
        }
    );
}

#[test]
fn quaternion_scalar_addition() {
    let h1 = Quaternion {
        a: q_fx(0.0),
        b: q_fx(0.0),
        c: q_fx(1.0),
        d: q_fx(0.0),
    };

    assert_eq!(
        h1 + q_fx(2.0),
        Quaternion {
            a: q_fx(2.0),
            b: q_fx(0.0),
            c: q_fx(1.0),
            d: q_fx(0.0),
        }
    )
}

#[test]
fn rotation() {
    let v = Vector {
        x: q_fx(0.0),
        y: q_fx(0.0),
        z: q_fx(1.0),
    };

    let angle = PI / 2.0;
    let rotation = Quaternion::rotation(&v, q_fx(angle.sin()), q_fx(angle.cos()));
    assert_eq!(
        rotation,
        Quaternion {
            a: q_fx(0.0),
            b: q_fx(0.0),
            c: q_fx(0.0),
            d: q_fx(1.0)
        }
    );

    let angle = -PI / 2.0;
    let rotation = Quaternion::rotation(&v, q_fx(angle.sin()), q_fx(angle.cos()));
    assert_eq!(
        rotation,
        Quaternion {
            a: q_fx(0.0),
            b: q_fx(0.0),
            c: q_fx(0.0),
            d: q_fx(-1.0)
        }
    );
}

#[test]
fn product_is_exact_on_whole_numbers() {
    let result = quat(1.0, 2.0, 3.0, 4.0).multiply(quat(1.0, 2.0, 3.0, 4.0));
    assert_eq!(result.a.raw, -28 * 4294967296);
    assert_eq!(result.b.raw, 4 * 4294967296);
    assert_eq!(result.c.raw, 6 * 4294967296);
    assert_eq!(result.d.raw, 8 * 4294967296);
}

#[test]
fn product_follows_the_hamilton_formula() {
    let p = quat(1.0, 2.0, 3.0, 4.0);
    let q = quat(5.0, 6.0, 7.0, 8.0);
    let pq = p.multiply(q);
    assert_eq!(pq.a.raw, -60 * 4294967296);
    assert_eq!(pq.b.raw, 12 * 4294967296);
    assert_eq!(pq.c.raw, 30 * 4294967296);
    assert_eq!(pq.d.raw, 24 * 4294967296);
}

#[test]
fn product_does_not_commute() {
    let i = quat(0.0, 1.0, 0.0, 0.0);
    let j = quat(0.0, 0.0, 1.0, 0.0);
    let ij = i.multiply(j);
    let ji = j.multiply(i);
    assert_eq!(ij.d.raw, 4294967296);
    assert_eq!(ji.d.raw, -4294967296);
    assert!(ij != ji);
}

#[test]
fn product_rounds_each_component_once() {
    // (0.5 + 2^-32 i)(2^-32 + 0.5 i): the real part is exactly zero, the i
    // part is 0.25 + 2^-64, which rounds to 0.25.
    let p = Quaternion {
        a: Fixed::from_raw(1 << 31),
        b: Fixed::from_raw(1),
        c: Fixed::from_raw(0),
        d: Fixed::from_raw(0),
    };
    let q = Quaternion {
        a: Fixed::from_raw(1),
        b: Fixed::from_raw(1 << 31),
        c: Fixed::from_raw(0),
        d: Fixed::from_raw(0),
    };
    let pq = p.multiply(q);
    assert_eq!(pq.a.raw, 0);
    assert_eq!(pq.b.raw, 1 << 30);
    assert_eq!(pq.c.raw, 0);
    assert_eq!(pq.d.raw, 0);
}

#[test]
fn product_clamps_at_the_ends_of_the_range() {
    let big = Quaternion {
        a: Fixed::from_raw(i64::MIN),
        b: Fixed::from_raw(i64::MIN),
        c: Fixed::from_raw(i64::MIN),
        d: Fixed::from_raw(i64::MIN),
    };
    let square = big.multiply(big);
    assert_eq!(square.a.raw, i64::MIN);
    assert_eq!(square.b.raw, i64::MAX);
    assert_eq!(square.c.raw, i64::MAX);
    assert_eq!(square.d.raw, i64::MAX);
}

#[test]
fn scale_multiplies_every_component() {
    let scaled = quat(1.0, -2.0, 0.5, 4.0).scale(q_fx(1.5));
    assert_eq!(scaled.a.raw, q_fx(1.5).raw);
    assert_eq!(scaled.b.raw, q_fx(-3.0).raw);
    assert_eq!(scaled.c.raw, q_fx(0.75).raw);
    assert_eq!(scaled.d.raw, q_fx(6.0).raw);
}

#[test]
fn add_scalar_touches_the_real_part_only() {
    let sum = quat(1.0, 2.0, 3.0, 4.0).add_scalar(q_fx(-2.5));
    assert_eq!(sum.a.raw, q_fx(-1.5).raw);
    assert_eq!(sum.b.raw, q_fx(2.0).raw);
    assert_eq!(sum.c.raw, q_fx(3.0).raw);
    assert_eq!(sum.d.raw, q_fx(4.0).raw);
}

#[test]
fn from_xyz_has_no_real_part() {
    let q = Quaternion::from_xyz(q_fx(1.0), q_fx(2.0), q_fx(3.0));
    assert_eq!(q.a.raw, 0);
    assert_eq!(q.b.raw, q_fx(1.0).raw);
    assert_eq!(q.c.raw, q_fx(2.0).raw);
    assert_eq!(q.d.raw, q_fx(3.0).raw);
}

#[test]
fn to_vector_drops_the_real_part() {
    let v = quat(9.0, 1.0, 2.0, 3.0).to_vector();
    assert_eq!(v.x.raw, q_fx(1.0).raw);
    assert_eq!(v.y.raw, q_fx(2.0).raw);
    assert_eq!(v.z.raw, q_fx(3.0).raw);
}

#[test]
fn rotation_is_cos_plus_sin_times_axis() {
    let axis = Vector {
        x: q_fx(0.5),
        y: q_fx(-0.5),
        z: q_fx(0.25),
    };
    let q = Quaternion::rotation(&axis, q_fx(0.5), q_fx(0.75));
    assert_eq!(q.a.raw, q_fx(0.75).raw);
    assert_eq!(q.b.raw, q_fx(0.25).raw);
    assert_eq!(q.c.raw, q_fx(-0.25).raw);
    assert_eq!(q.d.raw, q_fx(0.125).raw);
}

#[test]
fn rotation_does_not_normalize_its_axis() {
    let axis = Vector {
        x: q_fx(0.0),
        y: q_fx(0.0),
        z: q_fx(2.0),
    };
    let q = Quaternion::rotation(&axis, q_fx(1.0), q_fx(0.0));
    assert_eq!(q.d.raw, q_fx(2.0).raw);
}

#[test]
fn equality_allows_one_unit_of_difference() {
    let p = quat(1.0, 2.0, 3.0, 4.0);
    let mut q = p;
    q.c = Fixed::from_raw(p.c.raw + 1);
    assert!(p.equals(&q));
    assert!(p == q);
    q.c = Fixed::from_raw(p.c.raw + 2);
    assert!(!p.equals(&q));
    assert!(p != q);
    assert!(p.equals_within(&q, Fixed::from_raw(2)));
    q.a = Fixed::from_raw(p.a.raw - 3);
    assert!(!p.equals_within(&q, Fixed::from_raw(2)));
    assert!(p.equals_within(&q, Fixed::from_raw(3)));
}
