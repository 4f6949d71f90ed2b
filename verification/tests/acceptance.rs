use oxalslien::claim::Claim;
use oxalslien::error::InvalidParameter;
use oxalslien::fixed::ONE;
use oxalslien::params::{ProtocolParams, BFT_FAIL, COMPLETENESS, VRF_BIAS};

fn claim(provers: u32, retry_budget: u32, success_prob: u64) -> Claim {
    Claim::new(String::from("the bridge held"), provers, retry_budget, success_prob).unwrap()
}

fn as_float(value: u64) -> f64 {
    value as f64 / ONE as f64
}

#[test]
fn reference_scenario_is_close_to_certain() {
    let c = claim(3, 1, 950_000_000_000_000_000);
    assert_eq!(c.attempts_per_round(), 6);
    // 0.05^6 = 1.5625e-8
    assert_eq!(c.miss_probability(), 15_625_000_000);
    assert_eq!(c.retry_probability(), 999_999_984_375_000_000);
    let p = c.acceptance_probability(5);
    assert_eq!(p, 999_900_000_000_000_000);
    assert!((as_float(p) - 0.9999).abs() < 1e-12);
    assert_eq!(format!("{:.5}", as_float(p)), "0.99990");
}

#[test]
fn zero_rounds_leave_the_fixed_doubt() {
    for (provers, retry_budget, success_prob) in
        [(3, 1, 950_000_000_000_000_000), (0, 0, 0), (7, 9, ONE), (1, 0, 1)]
    {
        let p = claim(provers, retry_budget, success_prob).acceptance_probability(0);
        assert_eq!(p, 989_910_000_000_000_000);
        assert!((as_float(p) - 0.98991).abs() < 1e-12);
    }
}

#[test]
fn one_round_with_an_even_chance() {
    // one prover, no retry, success 0.5: residual 0.00999 * 0.5
    let c = claim(1, 0, 500_000_000_000_000_000);
    assert_eq!(c.retry_probability(), 500_000_000_000_000_000);
    assert_eq!(c.acceptance_probability(1), 994_905_000_000_000_000);
    // two rounds: residual 0.00999 * 0.25
    assert_eq!(c.acceptance_probability(2), 997_402_500_000_000_000);
}

#[test]
fn retries_count_as_attempts() {
    // two provers with one retry each make four attempts: 0.5^4
    let c = claim(2, 1, 500_000_000_000_000_000);
    assert_eq!(c.attempts_per_round(), 4);
    assert_eq!(c.miss_probability(), 62_500_000_000_000_000);
    assert_eq!(c.retry_probability(), 937_500_000_000_000_000);
}

#[test]
fn attempts_do_not_overflow() {
    let c = claim(u32::MAX, u32::MAX, 0);
    assert_eq!(c.attempts_per_round(), 4_294_967_295 * 4_294_967_296);
    assert_eq!(c.retry_probability(), 0);
}

#[test]
fn result_stays_in_the_unit_interval_for_extreme_inputs() {
    for (provers, retry_budget, success_prob, rounds) in [
        (1, 0, 0, 1000),
        (u32::MAX, u32::MAX, 1, u32::MAX),
        (u32::MAX, u32::MAX, ONE, u32::MAX),
        (1, 0, ONE - 1, u32::MAX),
        (0, 0, ONE, 17),
    ] {
        let p = claim(provers, retry_budget, success_prob).acceptance_probability(rounds);
        assert!(p <= ONE);
        assert!((0.0..=1.0).contains(&as_float(p)));
    }
}

#[test]
fn success_never_is_no_better_than_no_round() {
    let c = claim(1, 0, 0);
    assert_eq!(c.retry_probability(), 0);
    assert_eq!(c.acceptance_probability(1000), 989_910_000_000_000_000);
}

#[test]
fn more_rounds_never_lower_the_probability() {
    for success_prob in [1, 1_000_000_000, 10_000_000_000_000_000, 333_333_333_333_333_333] {
        let c = claim(2, 3, success_prob);
        let mut last = c.acceptance_probability(0);
        for rounds in 1..200 {
            let p = c.acceptance_probability(rounds);
            assert!(p >= last);
            last = p;
        }
    }
}

#[test]
fn higher_success_never_lowers_the_probability() {
    let mut last_retry = 0;
    let mut last = 0;
    for step in 0..=1000u64 {
        let c = claim(3, 1, step * (ONE / 1000));
        let retry = c.retry_probability();
        let p = c.acceptance_probability(5);
        assert!(retry >= last_retry);
        assert!(p >= last);
        last_retry = retry;
        last = p;
    }
}

#[test]
fn without_provers_rounds_change_nothing() {
    let c = claim(0, 4, 950_000_000_000_000_000);
    assert_eq!(c.attempts_per_round(), 0);
    assert_eq!(c.retry_probability(), 0);
    assert_eq!(c.acceptance_probability(1), c.acceptance_probability(0));
    assert_eq!(c.acceptance_probability(100_000), 989_910_000_000_000_000);
}

#[test]
fn certain_success_leaves_only_the_byzantine_mass() {
    let c = claim(1, 0, ONE);
    assert_eq!(c.retry_probability(), ONE);
    assert_eq!(c.acceptance_probability(1), ONE - BFT_FAIL);
    assert_eq!(c.acceptance_probability(0), 989_910_000_000_000_000);
}

#[test]
fn power_is_within_the_exponent_of_the_exact_value() {
    // (1 - 10^-18)^(10^6) is 1 - 10^-12 + 5 * 10^-25 and so on
    let c = claim(1_000, 999, 1);
    assert_eq!(c.attempts_per_round(), 1_000_000);
    let miss = c.miss_probability();
    let exact = ONE - 1_000_000;
    assert!(miss <= exact + 1);
    assert!(miss + 1_000_000 >= exact);
}

#[test]
fn success_above_one_is_rejected() {
    let made = Claim::new(String::from("too sure"), 3, 1, ONE + 1);
    assert_eq!(made.unwrap_err(), InvalidParameter::SuccessProb);
    assert!(Claim::new(String::new(), 0, 0, u64::MAX).is_err());
    assert!(Claim::new(String::new(), 0, 0, ONE).is_ok());
}

#[test]
fn claim_keeps_what_it_was_given() {
    let c = Claim::new(String::from("water is wet"), 3, 1, 950_000_000_000_000_000).unwrap();
    assert_eq!(c.description(), "water is wet");
    assert_eq!(c.provers(), 3);
    assert_eq!(c.retry_budget(), 1);
    assert_eq!(c.success_prob(), 950_000_000_000_000_000);
    let empty = Claim::new(String::new(), 1, 0, 0).unwrap();
    assert_eq!(empty.description(), "");
}

#[test]
fn standard_parameters_are_the_protocol_constants() {
    let params = ProtocolParams::standard();
    assert_eq!(params.completeness(), COMPLETENESS);
    assert_eq!(params.vrf_bias(), VRF_BIAS);
    assert_eq!(params.bft_fail(), BFT_FAIL);
    assert_eq!(COMPLETENESS, 990_000_000_000_000_000);
    assert_eq!(VRF_BIAS, 1_000_000_000_000_000);
    assert_eq!(BFT_FAIL, 100_000_000_000_000);
    assert_eq!(params.doubt(), 9_990_000_000_000_000);
    let c = claim(3, 1, 950_000_000_000_000_000);
    assert_eq!(c.acceptance_probability_with(&params, 5), c.acceptance_probability(5));
}

#[test]
fn parameters_above_one_are_rejected_in_order() {
    assert_eq!(
        ProtocolParams::new(ONE + 1, ONE + 1, ONE + 1).unwrap_err(),
        InvalidParameter::Completeness
    );
    assert_eq!(ProtocolParams::new(ONE, ONE + 1, ONE + 1).unwrap_err(), InvalidParameter::VrfBias);
    assert_eq!(ProtocolParams::new(ONE, ONE, ONE + 1).unwrap_err(), InvalidParameter::BftFail);
    let params = ProtocolParams::new(ONE, 0, ONE).unwrap();
    assert_eq!(params, ProtocolParams::new(ONE, 0, ONE).unwrap());
}

#[test]
fn clamp_acts_after_the_subtraction() {
    // no completeness, no bias: the doubt is 1; half of it stays after one
    // round, and a Byzantine mass of 0.75 would take the result below 0
    let c = claim(1, 0, 500_000_000_000_000_000);
    let params = ProtocolParams::new(0, 0, 750_000_000_000_000_000).unwrap();
    assert_eq!(params.doubt(), ONE);
    assert_eq!(c.acceptance_probability_with(&params, 1), 0);
    assert_eq!(c.acceptance_probability_with(&params, 0), 0);
    // after three rounds 0.875 is left, less 0.75
    assert_eq!(c.acceptance_probability_with(&params, 3), 125_000_000_000_000_000);
    let sure = ProtocolParams::new(ONE, 0, 0).unwrap();
    assert_eq!(c.acceptance_probability_with(&sure, 0), ONE);
}

#[test]
fn agrees_with_the_formula_in_floating_point() {
    for provers in [0u32, 1, 2, 3, 10] {
        for retry_budget in [0u32, 1, 4] {
            for percent in [0u64, 1, 5, 30, 50, 95, 99, 100] {
                for rounds in [0u32, 1, 2, 5, 40, 1000] {
                    let success = percent as f64 / 100.0;
                    let attempts = (provers * (retry_budget + 1)) as f64;
                    let p_retry = 1.0 - (1.0 - success).powf(attempts);
                    let residual = (1.0 - 0.99) * (1.0 - 0.001) * (1.0 - p_retry).powf(rounds as f64);
                    let expected = (1.0 - residual - 0.0001).clamp(0.0, 1.0);
                    let c = claim(provers, retry_budget, percent * (ONE / 100));
                    let got = as_float(c.acceptance_probability(rounds));
                    assert!((got - expected).abs() < 1e-12);
                    assert!((as_float(c.retry_probability()) - p_retry).abs() < 1e-12);
                }
            }
        }
    }
}
