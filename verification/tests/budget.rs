use bucketcode::budget::{dollars_of, Budget, Guard, LimitHit, Pricing, Spend, DOLLAR};
use bucketcode::llm::Usage;

fn usage(input: u32, output: u32) -> Usage {
    Usage {
        input_tokens: input,
        output_tokens: output,
        ..Default::default()
    }
}

/// Cents as dollars.
fn dollars(cents: u64) -> f64 {
    cents as f64 / 100.0
}

#[test]
fn refuses_a_request_that_would_exceed_the_count() {
    let mut g = Guard::new(
        Budget {
            max_requests: 1,
            ..Budget::default()
        },
        "opus-5",
    );
    assert!(g.check_before(100, 100).is_ok());
    g.record(&usage(100, 100)).unwrap();
    assert_eq!(g.check_before(100, 100), Err(LimitHit::Requests));
}

#[test]
fn pre_check_stops_the_call_before_it_is_paid_for() {
    let g = Guard::new(
        Budget {
            max_input_tokens: 1_000,
            ..Budget::default()
        },
        "opus-5",
    );
    assert_eq!(g.check_before(5_000, 100), Err(LimitHit::InputTokens));
    assert_eq!(g.spend().requests, 0, "nothing should have been spent");
}

#[test]
fn usd_ceiling_binds_even_when_token_ceilings_do_not() {
    let g = Guard::new(
        Budget {
            max_requests: 100,
            max_input_tokens: 10_000_000,
            max_output_tokens: 10_000_000,
            max_usd: (0.01 * DOLLAR as f64) as u64,
        },
        "opus-5",
    );
    // 100k output at $25/MTok is $2.50, far past a one-cent ceiling.
    assert_eq!(g.check_before(1_000, 100_000), Err(LimitHit::Usd));
}

#[test]
fn unknown_models_price_at_the_pessimistic_tier() {
    let p = Pricing::for_model("some-unreleased-model");
    assert_eq!(dollars(p.input_per_mtok), 5.00);
    assert_eq!(dollars(p.output_per_mtok), 25.00);
}

#[test]
fn spend_accumulates_across_calls() {
    let mut g = Guard::new(Budget::default(), "opus-5");
    g.record(&usage(1_000, 500)).unwrap();
    g.record(&usage(1_000, 500)).unwrap();
    assert_eq!(g.spend().requests, 2);
    assert_eq!(g.spend().input_tokens, 2_000);
    assert!(g.spend().usd as f64 > 0.0);
    // 2000 in at $5 and 1000 out at $25 per million.
    assert_eq!(g.spend().usd, 3_500_000);
}

#[test]
fn every_tier_has_its_prices() {
    for (model, input) in [
        ("haiku-4-5", 1.0),
        ("sonnet-5", 3.0),
        ("fable-1", 10.0),
        ("mythos", 10.0),
        ("opus-5", 5.0),
        ("", 5.0),
    ] {
        let p = Pricing::for_model(model);
        assert_eq!(dollars(p.input_per_mtok), input, "{model}");
        assert_eq!(dollars(p.output_per_mtok), input * 5.0, "{model}");
        assert_eq!(p.cache_read_per_mtok as f64, p.input_per_mtok as f64 * 0.1);
        assert_eq!(p.cache_write_per_mtok as f64, p.input_per_mtok as f64 * 1.25);
    }
}

#[test]
fn cached_tokens_are_priced_apart() {
    let mut g = Guard::new(Budget::default(), "sonnet-5");
    let u = Usage {
        input_tokens: 10,
        output_tokens: 20,
        cache_read_input_tokens: 1_000,
        cache_creation_input_tokens: 100,
    };
    g.record(&u).unwrap();
    assert_eq!(g.spend().usd, 10 * 300 + 20 * 1500 + 1_000 * 30 + 100 * 375);
    assert_eq!(g.spend().cache_read_tokens, 1_000);
    assert_eq!(g.spend().cache_write_tokens, 100);
    assert_eq!(u.total_input(), 1_110);
}

#[test]
fn default_and_one_shot_ceilings() {
    let b = Budget::default();
    assert_eq!(
        (b.max_requests, b.max_input_tokens, b.max_output_tokens, b.max_usd),
        (8, 200_000, 32_000, DOLLAR)
    );
    let b = Budget::one_shot();
    assert_eq!(
        (b.max_requests, b.max_input_tokens, b.max_output_tokens, b.max_usd),
        (1, 20_000, 4_000, DOLLAR / 4)
    );
}

#[test]
fn each_ceiling_is_reported_by_name() {
    let g = |b: Budget| Guard::new(b, "opus-5");
    let b = Budget::default();
    assert_eq!(
        g(Budget { max_requests: 0, ..b }).check_before(0, 0),
        Err(LimitHit::Requests)
    );
    assert_eq!(
        g(Budget { max_output_tokens: 9, ..b }).check_before(0, 10),
        Err(LimitHit::OutputTokens)
    );
    assert_eq!(
        g(Budget { max_usd: 499, ..b }).check_before(1, 0),
        Err(LimitHit::Usd)
    );
    assert!(g(Budget { max_usd: 500, ..b }).check_before(1, 0).is_ok());
    assert_eq!(LimitHit::Requests.describe(), "request count");
    assert_eq!(LimitHit::InputTokens.describe(), "input tokens");
    assert_eq!(LimitHit::OutputTokens.describe(), "output tokens");
    assert_eq!(LimitHit::Usd.describe(), "estimated spend");
}

#[test]
fn recording_reports_the_ceiling_that_was_crossed() {
    let mut g = Guard::new(
        Budget { max_output_tokens: 100, ..Budget::default() },
        "opus-5",
    );
    assert!(g.check_before(10, 100).is_ok());
    assert_eq!(g.record(&usage(10, 101)), Err(LimitHit::OutputTokens));
    assert!(g.check_before(0, 0).is_err(), "nothing is admitted any more");
}

#[test]
fn an_admitted_call_within_its_projection_crosses_nothing() {
    let mut g = Guard::new(
        Budget { max_requests: 3, max_input_tokens: 500, max_output_tokens: 100, max_usd: 500_000 },
        "opus-5",
    );
    while g.check_before(150, 30).is_ok() {
        assert!(g.record(&usage(140, 30)).is_ok());
    }
    assert_eq!(g.spend().requests, 3);
}

#[test]
fn the_summary_line_is_exact() {
    let mut g = Guard::new(Budget::default(), "opus-5");
    g.record(&usage(1_000, 500)).unwrap();
    assert_eq!(
        g.spend().summary(),
        "1 request(s), 1000 in / 500 out tokens (0 cached), $0.0175"
    );
    assert_eq!(Spend::default().summary(), "0 request(s), 0 in / 0 out tokens (0 cached), $0.0000");
}

#[test]
fn dollars_are_rounded_to_four_decimals() {
    assert_eq!(dollars_of(0), "0.0000");
    assert_eq!(dollars_of(4_999), "0.0000");
    assert_eq!(dollars_of(5_000), "0.0001");
    assert_eq!(dollars_of(DOLLAR), "1.0000");
    assert_eq!(dollars_of(12 * DOLLAR + 34_560_000), "12.3456");
    assert_eq!(dollars_of(99_999_999), "1.0000");
}

#[test]
fn counters_know_when_they_are_full() {
    let mut s = Spend::default();
    assert!(s.has_room_for(&usage(u32::MAX, u32::MAX)));
    s.input_tokens = 1;
    assert!(!s.has_room_for(&usage(u32::MAX, 0)));
}
