use lobby_server::vectors::{Vector2, Vector3, SCALE};

#[test]
fn normalized_three_four_five() {
    // a direction of (3, 4) world units becomes the unit vector (0.6, 0.8)
    let v = Vector2::new(3 * SCALE, 4 * SCALE);
    let n = v.normalized();
    assert_eq!(n.x, 600_000);
    assert_eq!(n.y, 800_000);
}

#[test]
fn normalized_zero_stays_zero() {
    let v = Vector2::new(0, 0);
    let n = v.normalized();
    assert_eq!(n, Vector2::new(0, 0));
}

#[test]
fn normalized_negative_components() {
    let v = Vector2::new(-3 * SCALE, 4 * SCALE);
    let n = v.normalized();
    assert_eq!(n.x, -600_000);
    assert_eq!(n.y, 800_000);
}

#[test]
fn magnitude_exact_squares() {
    let v = Vector2::new(3 * SCALE, 4 * SCALE);
    assert_eq!(v.sqr_magnitude(), 25_000_000_000_000u128);
    assert_eq!(v.magnitude(), 5_000_000);
    let w = Vector3::new(2 * SCALE, 3 * SCALE, 6 * SCALE);
    assert_eq!(w.magnitude(), 7 * SCALE as u64);
}

#[test]
fn magnitude_rounds_down() {
    // sqrt(2) in scaled steps, rounded down
    let v = Vector2::new(SCALE, SCALE);
    assert_eq!(v.magnitude(), 1_414_213);
}

#[test]
fn normalized_space_vector() {
    let v = Vector3::new(2 * SCALE, 3 * SCALE, 6 * SCALE);
    let n = v.normalized();
    // 2/7, 3/7, 6/7 rounded toward zero
    assert_eq!(n.x, 285_714);
    assert_eq!(n.y, 428_571);
    assert_eq!(n.z, 857_142);
}

#[test]
fn add_and_sub_componentwise() {
    let a = Vector2::new(1_500_000, -2_000_000);
    let b = Vector2::new(500_000, 250_000);
    assert_eq!(a.add(b), Vector2::new(2_000_000, -1_750_000));
    assert_eq!(a.sub(b), Vector2::new(1_000_000, -2_250_000));
    let c = Vector3::new(1, 2, 3);
    let d = Vector3::new(10, 20, 30);
    assert_eq!(c.add(d), Vector3::new(11, 22, 33));
    assert_eq!(d.sub(c), Vector3::new(9, 18, 27));
}

#[test]
fn add_assign_and_sub_assign() {
    let mut a = Vector2::new(100, 200);
    a.add_assign(Vector2::new(1, 2));
    assert_eq!(a, Vector2::new(101, 202));
    a.sub_assign(Vector2::new(101, 202));
    assert_eq!(a, Vector2::new(0, 0));
    let mut b = Vector3::new(5, 6, 7);
    b.add_assign(Vector3::new(1, 1, 1));
    assert_eq!(b, Vector3::new(6, 7, 8));
    b.sub_assign(Vector3::new(6, 0, 0));
    assert_eq!(b, Vector3::new(0, 7, 8));
}

#[test]
fn mul_is_scaled_product() {
    // 1.5 * 2.0 == 3.0 in scaled fixed point
    let v = Vector2::new(1_500_000, -1_500_000);
    let r = v.mul(2_000_000);
    assert_eq!(r, Vector2::new(3_000_000, -3_000_000));
    let w = Vector3::new(SCALE, 2 * SCALE, -2 * SCALE);
    assert_eq!(w.mul(500_000), Vector3::new(500_000, SCALE, -SCALE));
}

#[test]
fn div_is_scaled_quotient() {
    // 3.0 / 2.0 == 1.5 in scaled fixed point
    let v = Vector2::new(3_000_000, -3_000_000);
    assert_eq!(v.div(2_000_000), Vector2::new(1_500_000, -1_500_000));
    let w = Vector3::new(7, 8, 9);
    assert_eq!(w.div(SCALE), Vector3::new(7, 8, 9));
}

#[test]
fn div_by_zero_gives_zero_vector() {
    let v = Vector2::new(123, 456);
    assert_eq!(v.div(0), Vector2::new(0, 0));
    let w = Vector3::new(1, 2, 3);
    assert_eq!(w.div(0), Vector3::new(0, 0, 0));
}

#[test]
fn div_rounds_toward_zero() {
    // -1/3 rounds to 0, not to -1
    let v = Vector2::new(-1, 1);
    assert_eq!(v.div(3 * SCALE), Vector2::new(0, 0));
}

#[test]
fn sum_of_plane_vectors() {
    let vs = vec![
        Vector2::new(1, 2),
        Vector2::new(10, -20),
        Vector2::new(-100, 200),
    ];
    assert_eq!(Vector2::sum(&vs), Vector2::new(-89, 182));
    let empty: Vec<Vector2> = Vec::new();
    assert_eq!(Vector2::sum(&empty), Vector2::new(0, 0));
}

#[test]
fn sum_of_space_vectors() {
    let vs = vec![Vector3::new(1, 2, 3), Vector3::new(4, 5, 6)];
    assert_eq!(Vector3::sum(&vs), Vector3::new(5, 7, 9));
}
