use raycaster::scalar::Scalar;

fn scalar(x: f32) -> Scalar {
    Scalar::from_bits(x.to_bits())
}

fn landmarks() -> Vec<f32> {
    vec![
        f32::NEG_INFINITY,
        f32::MIN,
        -1.0e30,
        -2.0,
        -1.0,
        -0.5,
        -f32::MIN_POSITIVE,
        -1.0e-40,
        -1.0e-45,
        -0.0,
        0.0,
        1.0e-45,
        1.0e-40,
        f32::MIN_POSITIVE,
        0.1,
        0.5,
        1.0 - f32::EPSILON / 2.0,
        1.0,
        1.0 + f32::EPSILON,
        2.0,
        200.0,
        1.0e30,
        f32::MAX,
        f32::INFINITY,
        f32::NAN,
        -f32::NAN,
    ]
}

fn check_pair(a: f32, b: f32) {
    let (x, y) = (scalar(a), scalar(b));
    assert_eq!(x.lt(&y), a < b, "{a:?} < {b:?}");
    assert_eq!(x.le(&y), a <= b, "{a:?} <= {b:?}");
    assert_eq!(x.same_as(&y), a == b, "{a:?} == {b:?}");
}

fn check_one(a: f32) {
    let x = scalar(a);
    assert_eq!(x.is_nan(), a.is_nan(), "{a:?} is nan");
    assert_eq!(x.is_non_negative(), a >= 0.0, "{a:?} >= 0");
    assert_eq!(x.is_negative(), a < 0.0, "{a:?} < 0");
    assert_eq!(x.is_non_positive(), a <= 0.0, "{a:?} <= 0");
}

#[test]
fn bits_round_trip() {
    assert_eq!(Scalar::from_bits(0x3F80_0000).to_bits(), 0x3F80_0000);
    assert_eq!(scalar(1.0).to_bits(), 0x3F80_0000);
    assert_eq!(scalar(-0.0).to_bits(), 0x8000_0000);
}

#[test]
fn comparisons_agree_with_the_numbers_at_the_landmarks() {
    let values = landmarks();
    for &a in &values {
        check_one(a);
        for &b in &values {
            check_pair(a, b);
        }
    }
}

#[test]
fn comparisons_agree_with_the_numbers_on_a_sweep_of_encodings() {
    let mut state: u64 = 0x2545_F491_4F6C_DD1D;
    for _ in 0..200_000 {
        state = state.wrapping_mul(6364136223846793005).wrapping_add(1442695040888963407);
        let a = f32::from_bits((state >> 32) as u32);
        state = state.wrapping_mul(6364136223846793005).wrapping_add(1442695040888963407);
        let b = f32::from_bits((state >> 32) as u32);
        check_one(a);
        check_pair(a, b);
    }
}

#[test]
fn neighbouring_encodings_are_ordered() {
    let mut bits: u32 = 0;
    while bits < 0x7F80_0000 {
        let a = f32::from_bits(bits);
        let b = f32::from_bits(bits + 1);
        check_pair(a, b);
        check_pair(-a, -b);
        check_pair(-b, a);
        bits += 0x0000_3FFD;
    }
}

#[test]
fn the_two_zeros_are_the_same_number() {
    assert!(scalar(0.0).same_as(&scalar(-0.0)));
    assert!(!scalar(0.0).lt(&scalar(-0.0)));
    assert!(!scalar(-0.0).lt(&scalar(0.0)));
    assert!(scalar(-0.0).is_non_negative());
    assert!(scalar(-0.0).is_non_positive());
    assert!(!scalar(-0.0).is_negative());
}

#[test]
fn what_holds_no_number_compares_with_nothing() {
    let nan = scalar(f32::NAN);
    assert!(nan.is_nan());
    assert!(!nan.lt(&nan));
    assert!(!nan.le(&nan));
    assert!(!nan.same_as(&nan));
    assert!(!nan.is_non_negative());
    assert!(!nan.is_negative());
    assert!(!nan.is_non_positive());
    assert!(!scalar(f32::INFINITY).is_nan());
}
