use arb_bot::arb::{
    buy_leg, direction_outcome, mk_pair, on_quote, quote_failure, start_direction,
    DirectionAction, DirectionState, sell_leg, simulate_roundtrip, ArbError,
    ArbParams, ArbResult, Pair, USDC_DECIMALS, WETH_DECIMALS,
};
use arb_bot::dex::{amount_out, parse_addr, Address, QuoteError};
use arb_bot::poller::{
    classify, evaluate_tick, initial_poll_state, next_poll, PollAction, PollEvent, PollState,
    Verdict,
};
use arb_bot::units::Decimal;

const USDC_ADDR: &str = "0x2791Bca1f2de4661ED88A30C99A7a9449Aa84174";
const WETH_ADDR: &str = "0x7ceB23fD6bC0adD59E62ac25578270cFf1b9f619";

fn dec(mantissa: i128, scale: u32) -> Decimal {
    Decimal { mantissa, scale }
}

fn pair() -> Pair {
    mk_pair(USDC_ADDR, WETH_ADDR).unwrap()
}

fn params(min_profit: Decimal) -> ArbParams {
    ArbParams { trade_size_usdc: dec(1000, 0), min_profit_usdc: min_profit, gas_cost_usdc: dec(2, 0) }
}

fn run(received: u128, min_profit: Decimal) -> Result<ArbResult, ArbError> {
    let p = params(min_profit);
    let leg = buy_leg(&pair(), &p).unwrap();
    assert_eq!(leg.amount_in, 1_000_000_000);
    direction_outcome(
        &"QuickSwap".to_string(),
        &"SushiSwap".to_string(),
        &pair(),
        &p,
        leg.amount_in,
        Ok(500_000_000_000_000_000),
        Ok(received),
    )
}

#[test]
fn profitable_round_trip_is_an_opportunity() {
    let p = params(dec(5, 0));
    let out = run(1_010_000_000, dec(5, 0));
    let res = out.clone().unwrap();
    assert_eq!(res.usdc_in, dec(1_000_000_000, 6));
    assert_eq!(res.weth_acquired, dec(500_000_000_000_000_000, 18));
    assert_eq!(res.usdc_out, dec(1_010_000_000, 6));
    assert_eq!(res.gross_profit, dec(10_000_000, 6));
    assert_eq!(res.net_profit, dec(8_000_000, 6));
    assert_eq!(res.price_buy, dec(2_000_000_000, 6));
    assert_eq!(res.price_sell, dec(2_020_000_000, 6));
    assert_eq!(res.dex_buy, "QuickSwap");
    assert_eq!(res.dex_sell, "SushiSwap");
    assert_eq!(classify(&out, &p), Verdict::Opportunity);
}

#[test]
fn losing_round_trip_is_a_no_op() {
    let p = params(dec(5, 0));
    let out = run(1_001_000_000, dec(5, 0));
    assert_eq!(out.clone().unwrap().net_profit, dec(-1_000_000, 6));
    assert_eq!(classify(&out, &p), Verdict::NoOp);
}

#[test]
fn profit_equal_to_threshold_is_an_opportunity() {
    let p = params(dec(8, 0));
    let out = run(1_010_000_000, dec(8, 0));
    assert_eq!(classify(&out, &p), Verdict::Opportunity);
    let p2 = params(dec(8_000_001, 6));
    assert_eq!(classify(&out, &p2), Verdict::NoOp);
}

#[test]
fn unreachable_buy_leg_fails_only_its_direction() {
    let p = params(dec(5, 0));
    let failed = direction_outcome(
        &"QuickSwap".to_string(),
        &"SushiSwap".to_string(),
        &pair(),
        &p,
        1_000_000_000,
        Err(QuoteError::SourceUnreachable),
        Ok(1_010_000_000),
    );
    assert_eq!(failed.clone().err(), Some(ArbError::SourceUnreachable));
    let other = run(1_010_000_000, dec(5, 0));
    let verdicts = evaluate_tick(&failed, &other, &p);
    assert_eq!(verdicts, (Verdict::Failed(ArbError::SourceUnreachable), Verdict::Opportunity));
    let swapped = evaluate_tick(&other, &failed, &p);
    assert_eq!(swapped, (Verdict::Opportunity, Verdict::Failed(ArbError::SourceUnreachable)));
}

#[test]
fn failed_sell_leg_fails_the_direction() {
    let p = params(dec(5, 0));
    let out = direction_outcome(
        &"SushiSwap".to_string(),
        &"QuickSwap".to_string(),
        &pair(),
        &p,
        1_000_000_000,
        Ok(500_000_000_000_000_000),
        Err(QuoteError::QuoteUnavailable),
    );
    assert_eq!(out.err(), Some(ArbError::QuoteUnavailable));
    assert_eq!(quote_failure(QuoteError::SourceUnreachable), ArbError::SourceUnreachable);
}

#[test]
fn more_received_never_lowers_net_profit() {
    let mut last = i128::MIN;
    for received in [990_000_000u128, 1_000_000_000, 1_001_000_000, 1_010_000_000] {
        let net = run(received, dec(5, 0)).unwrap().net_profit.mantissa;
        assert!(net >= last);
        last = net;
    }
}

#[test]
fn nothing_acquired_keeps_prices_finite() {
    let p = params(dec(5, 0));
    let res = simulate_roundtrip(
        &"A".to_string(),
        &"B".to_string(),
        &pair(),
        &p,
        1_000_000_000,
        0,
        0,
    )
    .unwrap();
    // one native unit of the base asset stands in for nothing
    assert_eq!(res.price_buy, dec(1_000_000_000_000_000_000_000_000_000, 6));
    assert_eq!(res.price_sell, dec(0, 6));
    assert_eq!(res.net_profit, dec(-1_002_000_000, 6));
}

#[test]
fn unrepresentable_figures_are_invalid() {
    let p = params(dec(5, 0));
    let out = simulate_roundtrip(&"A".to_string(), &"B".to_string(), &pair(), &p, 1, 1, u128::MAX);
    assert_eq!(out.err(), Some(ArbError::InvalidAmount));
}

#[test]
fn negative_trade_size_is_invalid() {
    let p = ArbParams {
        trade_size_usdc: dec(-1, 0),
        min_profit_usdc: dec(5, 0),
        gas_cost_usdc: dec(2, 0),
    };
    assert_eq!(buy_leg(&pair(), &p).err(), Some(ArbError::InvalidAmount));
    assert!(!p.has_valid_trade_size());
    assert!(params(dec(5, 0)).has_valid_trade_size());
    let zero = ArbParams { trade_size_usdc: dec(0, 0), ..p };
    assert!(!zero.has_valid_trade_size());
}

#[test]
fn legs_follow_the_pair_both_ways() {
    let pr = pair();
    let leg = buy_leg(&pr, &params(dec(5, 0))).unwrap();
    assert_eq!(leg.path, vec![pr.token_in, pr.token_out]);
    let back = sell_leg(&pr, 42);
    assert_eq!(back.amount_in, 42);
    assert_eq!(back.path, vec![pr.token_out, pr.token_in]);
    assert_eq!(pr.decimals_in, USDC_DECIMALS);
    assert_eq!(pr.decimals_out, WETH_DECIMALS);
}

#[test]
fn amount_out_is_the_last_amount() {
    assert_eq!(amount_out(&vec![10, 20, 30]), Ok(30));
    assert_eq!(amount_out(&vec![]), Err(QuoteError::QuoteUnavailable));
}

#[test]
fn addresses_parse_with_or_without_prefix() {
    let a = parse_addr("0x00000000000000000000000000000000000000fF").unwrap();
    let mut expected = [0u8; 20];
    expected[19] = 0xff;
    assert_eq!(a, Address { bytes: expected });
    let b = parse_addr("2791bca1f2de4661ed88a30c99a7a9449aa84174").unwrap();
    assert_eq!(b.bytes[0], 0x27);
    assert_eq!(b.bytes[19], 0x74);
    assert_eq!(parse_addr(USDC_ADDR), Some(b));
    assert_eq!(parse_addr("0x1234"), None);
    assert_eq!(parse_addr("0xzz91bca1f2de4661ed88a30c99a7a9449aa84174"), None);
    assert!(mk_pair("bad", WETH_ADDR).is_none());
}

#[test]
fn poller_never_overlaps_ticks() {
    let s = initial_poll_state();
    assert_eq!(s, PollState::Idle);
    let (s, a) = next_poll(s, PollEvent::TimerFired);
    assert_eq!((s, a), (PollState::Evaluating, PollAction::EvaluateBoth));
    let (s, a) = next_poll(s, PollEvent::TimerFired);
    assert_eq!((s, a), (PollState::Evaluating, PollAction::SkipTick));
    let (s, a) = next_poll(s, PollEvent::EvaluationDone);
    assert_eq!((s, a), (PollState::Idle, PollAction::Wait));
}

#[test]
fn fractional_cost_is_subtracted_exactly() {
    let p = ArbParams {
        trade_size_usdc: dec(1000, 0),
        min_profit_usdc: dec(5, 0),
        gas_cost_usdc: dec(20_000_004, 7),
    };
    let res = simulate_roundtrip(
        &"A".to_string(),
        &"B".to_string(),
        &pair(),
        &p,
        1_000_000_000,
        500_000_000_000_000_000,
        1_010_000_000,
    )
    .unwrap();
    assert_eq!(res.gross_profit, dec(10_000_000, 6));
    assert_eq!(res.net_profit, dec(79_999_996, 7));
}

#[test]
fn threshold_with_more_places_than_the_quote_asset() {
    let p = ArbParams {
        trade_size_usdc: dec(1000, 0),
        min_profit_usdc: dec(50_000_004, 7),
        gas_cost_usdc: dec(49_999_996, 7),
    };
    let out = simulate_roundtrip(
        &"A".to_string(),
        &"B".to_string(),
        &pair(),
        &p,
        1_000_000_000,
        500_000_000_000_000_000,
        1_010_000_000,
    );
    assert_eq!(out.clone().unwrap().net_profit, dec(50_000_004, 7));
    assert_eq!(classify(&out, &p), Verdict::Opportunity);
}

#[test]
fn direction_steps_through_both_legs() {
    let p = params(dec(5, 0));
    let pr = pair();
    let (state, action) = start_direction(&pr, &p);
    let q = match action {
        DirectionAction::AskBuyVenue(q) => q,
        other => panic!("unexpected action {other:?}"),
    };
    assert_eq!(q.amount_in, 1_000_000_000);
    let (a, b) = ("QuickSwap".to_string(), "SushiSwap".to_string());
    let (state, action) = on_quote(state, &a, &b, &pr, &p, Ok(500_000_000_000_000_000));
    let q = match action {
        DirectionAction::AskSellVenue(q) => q,
        other => panic!("unexpected action {other:?}"),
    };
    assert_eq!(q.amount_in, 500_000_000_000_000_000);
    assert_eq!(q.path, vec![pr.token_out, pr.token_in]);
    let (state, action) = on_quote(state, &a, &b, &pr, &p, Ok(1_010_000_000));
    assert!(matches!(action, DirectionAction::Done));
    match state {
        DirectionState::Finished(Ok(res)) => assert_eq!(res.net_profit, dec(8_000_000, 6)),
        other => panic!("unexpected state {other:?}"),
    }
}

#[test]
fn unreachable_buy_venue_ends_the_direction_before_the_sell_leg() {
    let p = params(dec(5, 0));
    let pr = pair();
    let (state, _) = start_direction(&pr, &p);
    let (a, b) = ("QuickSwap".to_string(), "SushiSwap".to_string());
    let (state, action) = on_quote(state, &a, &b, &pr, &p, Err(QuoteError::SourceUnreachable));
    assert!(matches!(action, DirectionAction::Done));
    assert!(matches!(state, DirectionState::Finished(Err(ArbError::SourceUnreachable))));
    let bad = ArbParams { trade_size_usdc: dec(-1, 0), ..p };
    let (state, action) = start_direction(&pr, &bad);
    assert!(matches!(action, DirectionAction::Done));
    assert!(matches!(state, DirectionState::Finished(Err(ArbError::InvalidAmount))));
}

#[test]
fn address_spaces_among_digits_are_skipped() {
    let expected = parse_addr(USDC_ADDR).unwrap();
    assert_eq!(parse_addr("0x2791Bca1f2de4661ED88A30C99A7a9449Aa84174\n"), Some(expected));
    assert_eq!(parse_addr("0x2791 Bca1\tf2de4661ED88A30C99A7a9449Aa84174\r\n"), Some(expected));
    assert_eq!(parse_addr(" 0x2791Bca1f2de4661ED88A30C99A7a9449Aa84174"), None);
    assert_eq!(parse_addr("0x2791Bca1f2de4661ED88A30C99A7a9449Aa8417400"), None);
    assert_eq!(parse_addr("0x2791Bca1f2de4661ED88A30C99A7a9449Aa84174 z"), None);
}

#[test]
fn decimal_text_has_no_leading_zeros() {
    use_no_leading_zero();
}

fn use_no_leading_zero() {
    let t: String = arb_bot::text::decimal_text(dec(7, 0)).into_iter().collect();
    assert_eq!(t, "7");
    let t: String = arb_bot::text::decimal_text(dec(123_456, 3)).into_iter().collect();
    assert_eq!(t, "123.456");
}
