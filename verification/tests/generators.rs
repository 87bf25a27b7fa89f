use scenedsl::parameter::BindingError;
use scenedsl::parameter::BounceParameter;
use scenedsl::parameter::ChooseParameter;
use scenedsl::parameter::CycleParameter;
use scenedsl::parameter::Parameter;
use scenedsl::parameter::RampParameter;
use scenedsl::parameter::StaticParameter;

#[test]
fn test_bounce_gen() {
    let mut bounce_gen = BounceParameter::from_params(20_000_000, 200_000_000, 10_000_000);
    let mut results = Vec::new();
    for _ in 0..10 {
        results.push(bounce_gen.get_next());
    }
    println!("Result: {:?}", results);
}

#[test]
fn test_ramp_gen() {
    let mut ramp_gen = RampParameter::from_params(20_000_000, 200_000_000, 10_000_000);
    let mut results = Vec::new();
    for _ in 0..10 {
        results.push(ramp_gen.get_next());
    }
    println!("Result: {:?}", results);
}

#[test]
fn ramp_stair_step_and_reset() {
    // Ramp(0, 10, 5): six samples climb in steps of two, the seventh wraps.
    let mut g = RampParameter::from_params(0, 10_000_000, 5_000_000);
    let mut got = Vec::new();
    for _ in 0..6 {
        got.push(g.get_next());
    }
    assert_eq!(
        got,
        vec![0, 2_000_000, 4_000_000, 6_000_000, 8_000_000, 10_000_000]
    );
    assert_eq!(g.get_next(), 0);
}

#[test]
fn ramp_fractional_exact() {
    let mut g = RampParameter::from_params(20_000_000, 200_000_000, 10_000_000);
    assert_eq!(g.get_next(), 20_000_000);
    assert_eq!(g.get_next(), 38_000_000);
}

#[test]
fn bounce_envelope() {
    // Bounce(0, 1, 4): four samples per turn, starting at the floor.
    let mut g = BounceParameter::from_params(0, 1_000_000, 4_000_000);
    let mut got = Vec::new();
    for _ in 0..9 {
        got.push(g.get_next());
    }
    assert_eq!(got[0], 0);
    for &v in &got {
        assert!(v >= 0);
        assert!(v <= 1_000_000);
    }
    for i in 0..5 {
        assert_eq!(got[i], got[i + 4]);
    }
    // ninety degrees reaches the peak exactly
    assert_eq!(got[1], 1_000_000);
}

#[test]
fn bounce_offset_floor() {
    let mut g = BounceParameter::from_params(500_000, 1_500_000, 4_000_000);
    assert_eq!(g.get_next(), 500_000);
    assert_eq!(g.get_next(), 1_500_000);
    assert_eq!(g.get_next(), 500_000);
}

#[test]
fn cycle_round_robin() {
    let pool = vec![1, 2, 3];
    let mut g = CycleParameter::from_seq(&pool);
    let mut got = Vec::new();
    for _ in 0..4 {
        got.push(g.get_next().unwrap());
    }
    assert_eq!(got, vec![1, 2, 3, 1]);
}

#[test]
fn cycle_empty_pool_fails() {
    let pool: Vec<i64> = Vec::new();
    let mut g = CycleParameter::from_seq(&pool);
    for _ in 0..3 {
        assert_eq!(g.get_next(), Err(BindingError));
    }
}

#[test]
fn choose_empty_pool_yields_zero() {
    let pool: Vec<i64> = Vec::new();
    let mut g = ChooseParameter::from_seq(&pool);
    for _ in 0..5 {
        assert_eq!(g.get_next(), 0);
    }
}

#[test]
fn choose_draws_from_pool() {
    let pool = vec![7, 11, 13];
    let mut g = ChooseParameter::from_seq(&pool);
    for _ in 0..20 {
        let v = g.get_next();
        assert!(pool.contains(&v));
    }
}

#[test]
fn static_holds_value() {
    let mut g = StaticParameter::from_val(42);
    assert_eq!(g.get_next(), 42);
    assert_eq!(g.get_next(), 42);
}

#[test]
fn parameter_enum_dispatch() {
    let mut p = Parameter::Static(StaticParameter::from_val(5));
    assert_eq!(p.get_next(), Ok(5));
    let pool: Vec<i64> = Vec::new();
    let mut c = Parameter::Cycle(CycleParameter::from_seq(&pool));
    assert_eq!(c.get_next(), Err(BindingError));
}
