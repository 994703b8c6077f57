//! Vector algebra: the fixed-point scale is 10000 units per world unit.

use ray_tracer::vec3::Vec3;
use ray_tracer::fixed::SCALE;

#[test]
fn test_vec3_length() {
    let mut a = Vec3 { x: 10000, y: 20000, z: 30000 };
    let b = Vec3 { x: 40000, y: 50000, z: 60000 };

    // Addition
    a.add_assign(b);
    assert_eq!(a, Vec3 { x: 50000, y: 70000, z: 90000 });
    assert_eq!(
        Vec3 { x: 10000, y: 20000, z: 30000 }.add(Vec3 { x: 40000, y: 50000, z: 60000 }),
        Vec3 { x: 50000, y: 70000, z: 90000 }
    );

    // Multiply
    assert_eq!(
        Vec3 { x: 10000, y: 20000, z: 30000 }.mul(Vec3 { x: 10000, y: 20000, z: 30000 }),
        Vec3 { x: 10000, y: 40000, z: 90000 }
    );
    assert_eq!(
        Vec3 { x: 10000, y: 20000, z: 30000 }.scale(20000),
        Vec3 { x: 20000, y: 40000, z: 60000 }
    );

    a = Vec3 { x: 10000, y: 20000, z: 30000 };
    a.mul_assign(20000);
    assert_eq!(a, Vec3 { x: 20000, y: 40000, z: 60000 });

    // Subtraction and negation
    assert_eq!(
        Vec3 { x: 10000, y: 20000, z: 30000 }.neg(),
        Vec3 { x: -10000, y: -20000, z: -30000 }
    );
    assert_eq!(
        Vec3 { x: 10000, y: 20000, z: 30000 }.sub(Vec3 { x: 10000, y: 20000, z: 30000 }),
        Vec3 { x: 0, y: 0, z: 0 }
    );

    // Divide
    a = Vec3 { x: 10000, y: 20000, z: 30000 };
    a.div_assign(20000);
    assert_eq!(a, Vec3 { x: 5000, y: 10000, z: 15000 });
    assert_eq!(
        Vec3 { x: 10000, y: 20000, z: 30000 }.div(20000),
        Vec3 { x: 5000, y: 10000, z: 15000 }
    );

    // Vec3 functions
    a = Vec3 { x: 50000, y: 100000, z: 100000 };
    assert_eq!(a.length(), 150000);

    a = Vec3 { x: 50000, y: 100000, z: 100000 };
    assert_eq!(a.length_squared(), 2250000);

    a = Vec3 { x: 0, y: 50000, z: 0 };
    let b = Vec3 { x: 50000, y: 0, z: 0 };
    assert_eq!(Vec3::dot(a, b), 0);

    a = Vec3 { x: 0, y: 0, z: -100000 };
    let b = Vec3 { x: 100000, y: 0, z: 0 };
    assert_eq!(Vec3::cross(a, b), Vec3 { x: 0, y: -1000000, z: 0 });

    // 1/sqrt(3) in fixed point: 20000 * 10000 / 34641 == 5773
    a = Vec3 { x: 20000, y: 20000, z: 20000 };
    a.unit_vector();
    assert_eq!(a, Vec3 { x: 5773, y: 5773, z: 5773 });

    a = Vec3 { x: 20000, y: 20000, z: 20000 };
    a = Vec3::get_unit_vector(a);
    assert_eq!(a, Vec3 { x: 5773, y: 5773, z: 5773 });
}

#[test]
fn test_add_then_sub_returns_original() {
    let a = Vec3 { x: 12345, y: -9876, z: 5 };
    let b = Vec3 { x: -777, y: 31415, z: -100000 };
    assert_eq!(a.add(b).sub(b), a);
}

#[test]
fn test_dot_self_equals_length_squared() {
    let a = Vec3 { x: 12345, y: -9876, z: 54321 };
    assert_eq!(Vec3::dot(a, a), a.length_squared());
}

#[test]
fn test_cross_antisymmetric() {
    let a = Vec3 { x: 12345, y: -9876, z: 54321 };
    let b = Vec3 { x: 777, y: 31415, z: -10000 };
    assert_eq!(Vec3::cross(a, b), Vec3::cross(b, a).neg());
}

#[test]
fn test_unit_vector_length_near_one() {
    // The length of a normalized vector is one world unit, up to rounding:
    // |unit((2,2,2))| == 9999 against a scale of 10000.
    let a = Vec3::get_unit_vector(Vec3 { x: 20000, y: 20000, z: 20000 });
    let len = a.length();
    assert!((len - SCALE).abs() <= 1);
    // An axis-aligned vector normalizes exactly.
    let b = Vec3::get_unit_vector(Vec3 { x: 0, y: 0, z: -30000 });
    assert_eq!(b, Vec3 { x: 0, y: 0, z: -10000 });
    assert_eq!(b.length(), SCALE);
}
