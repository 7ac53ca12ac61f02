use vstd::prelude::*;
use crate::dex::{address_byte, is_address_text, parse_addr, Address, QuoteError};
use crate::units::{
    decimal_sub, diff_fits, diff_mantissa, diff_scale, from_units, mantissa_at, native_of, pow10,
    to_units, Decimal, MAX_DECIMALS,
};

verus! {

/// Decimal places of the quote asset (a dollar stablecoin).
pub const USDC_DECIMALS: u32 = 6;

/// Decimal places of the base asset (wrapped ether).
pub const WETH_DECIMALS: u32 = 18;

/// The two assets of a round trip: the buy leg swaps `token_in` (the quote
/// asset) for `token_out` (the base asset), the sell leg swaps back.
#[derive(Clone, Copy, Debug, PartialEq, Eq)]
pub struct Pair {
    pub token_in: Address,
    pub token_out: Address,
    pub decimals_in: u32,
    pub decimals_out: u32,
}

/// The pair of a dollar stablecoin (quote asset, 6 places) and wrapped
/// ether (base asset, 18 places), from the texts of their addresses; `None`
/// when either text is not an address.
pub fn mk_pair(usdc: &str, weth: &str) -> (r: Option<Pair>)
    ensures
        r is Some <==> (is_address_text(usdc@) && is_address_text(weth@)),
        r matches Some(p) ==> {
            &&& p.decimals_in == USDC_DECIMALS
            &&& p.decimals_out == WETH_DECIMALS
            &&& forall|i: int| 0 <= i < 20 ==> p.token_in.bytes[i] == address_byte(usdc@, i)
            &&& forall|i: int| 0 <= i < 20 ==> p.token_out.bytes[i] == address_byte(weth@, i)
        },
{
    match (parse_addr(usdc), parse_addr(weth)) {
        (Some(token_in), Some(token_out)) => Some(
            Pair { token_in, token_out, decimals_in: USDC_DECIMALS, decimals_out: WETH_DECIMALS },
        ),
        _ => None,
    }
}

/// The parameters of a round trip, in quote-asset display units.
#[derive(Clone, Copy, Debug, PartialEq, Eq, Structural)]
pub struct ArbParams {
    pub trade_size_usdc: Decimal,
    pub min_profit_usdc: Decimal,
    pub gas_cost_usdc: Decimal,
}

impl ArbParams {
    /// A trade size above zero, which the parameters must have before any
    /// round trip is simulated.
    pub fn has_valid_trade_size(&self) -> (r: bool)
        ensures
            r == (self.trade_size_usdc.mantissa > 0),
    {
        self.trade_size_usdc.mantissa > 0
    }

    /// Every amount has a representable scale.
    pub open spec fn wf(self) -> bool {
        &&& self.trade_size_usdc.wf()
        &&& self.min_profit_usdc.wf()
        &&& self.gas_cost_usdc.wf()
    }
}

/// The figures of one simulated round trip.
#[derive(Clone, Debug)]
pub struct ArbResult {
    pub dex_buy: String,
    pub dex_sell: String,
    /// Quote asset committed to the buy leg.
    pub usdc_in: Decimal,
    /// Base asset acquired by the buy leg.
    pub weth_acquired: Decimal,
    /// Quote asset received back from the sell leg.
    pub usdc_out: Decimal,
    /// Quote asset paid per whole base unit, at the quote asset's scale.
    pub price_buy: Decimal,
    /// Quote asset realized per whole base unit, at the quote asset's scale.
    pub price_sell: Decimal,
    /// `usdc_out - usdc_in`.
    pub gross_profit: Decimal,
    /// `gross_profit` less the cost estimate.
    pub net_profit: Decimal,
}

impl ArbResult {
    /// Every figure has a representable scale.
    pub open spec fn wf(self) -> bool {
        &&& self.usdc_in.wf()
        &&& self.weth_acquired.wf()
        &&& self.usdc_out.wf()
        &&& self.price_buy.wf()
        &&& self.price_sell.wf()
        &&& self.gross_profit.wf()
        &&& self.net_profit.wf()
    }
}

/// Why a round trip could not be simulated.
#[derive(Clone, Copy, Debug, PartialEq, Eq, Structural)]
pub enum ArbError {
    /// An amount that cannot be converted or represented.
    InvalidAmount,
    /// A venue returned no usable amount.
    QuoteUnavailable,
    /// A venue could not be reached.
    SourceUnreachable,
}

/// The error of a round trip for the error of one of its quotes.
pub open spec fn arb_error_of(e: QuoteError) -> ArbError {
    match e {
        QuoteError::QuoteUnavailable => ArbError::QuoteUnavailable,
        QuoteError::SourceUnreachable => ArbError::SourceUnreachable,
    }
}

/// Maps the error of one quote to the error of the round trip.
pub fn quote_failure(e: QuoteError) -> (r: ArbError)
    ensures
        r == arb_error_of(e),
{
    match e {
        QuoteError::QuoteUnavailable => ArbError::QuoteUnavailable,
        QuoteError::SourceUnreachable => ArbError::SourceUnreachable,
    }
}

/// One quote to ask of a venue: swap `amount_in` along `path`.
#[derive(Clone, Debug)]
pub struct LegQuote {
    pub amount_in: u128,
    pub path: Vec<Address>,
}

/// The quote asset committed to a round trip, in native units.
pub open spec fn committed_of(pair: Pair, params: ArbParams) -> nat {
    native_of(
        params.trade_size_usdc.mantissa as nat,
        params.trade_size_usdc.scale as nat,
        pair.decimals_in as nat,
    )
}

/// The buy leg of a round trip: the trade size in the quote asset's native
/// units, swapped from the quote asset to the base asset.
///
/// Fails with `InvalidAmount` exactly when the trade size is negative or
/// does not fit in native units.
pub fn buy_leg(pair: &Pair, params: &ArbParams) -> (r: Result<LegQuote, ArbError>)
    requires
        params.wf(),
    ensures
        r is Ok <==> (params.trade_size_usdc.mantissa >= 0 && committed_of(*pair, *params)
            <= u128::MAX),
        r matches Ok(q) ==> q.amount_in == committed_of(*pair, *params) && q.path@ == seq![
            pair.token_in,
            pair.token_out,
        ],
        r matches Err(e) ==> e == ArbError::InvalidAmount,
{
    match to_units(params.trade_size_usdc, pair.decimals_in) {
        Ok(amount_in) => Ok(LegQuote { amount_in, path: vec![pair.token_in, pair.token_out] }),
        Err(_) => Err(ArbError::InvalidAmount),
    }
}

/// The sell leg of a round trip: the base asset acquired by the buy leg,
/// swapped back to the quote asset.
pub fn sell_leg(pair: &Pair, acquired: u128) -> (r: LegQuote)
    ensures
        r.amount_in == acquired,
        r.path@ == seq![pair.token_out, pair.token_in],
{
    LegQuote { amount_in: acquired, path: vec![pair.token_out, pair.token_in] }
}

/// Quote-asset native units per whole base unit: `quote / base`, with the
/// base amount floored at one native unit so that the price stays finite.
pub open spec fn price_of(quote: nat, base: nat, base_decimals: nat) -> nat {
    quote * pow10(base_decimals) / (if base == 0 {
        1nat
    } else {
        base
    })
}

/// Gross profit in the quote asset: received less committed, at the quote
/// asset's scale.
pub open spec fn gross_of(pair: Pair, committed: u128, received: u128) -> Decimal {
    Decimal { mantissa: (received - committed) as i128, scale: pair.decimals_in }
}

/// Every figure of the round trip can be represented.
pub open spec fn roundtrip_fits(
    pair: Pair,
    params: ArbParams,
    committed: u128,
    acquired: u128,
    received: u128,
) -> bool {
    &&& committed <= i128::MAX
    &&& acquired <= i128::MAX
    &&& received <= i128::MAX
    &&& pair.decimals_in <= MAX_DECIMALS
    &&& pair.decimals_out <= MAX_DECIMALS
    &&& committed * pow10(pair.decimals_out as nat) <= u128::MAX
    &&& received * pow10(pair.decimals_out as nat) <= u128::MAX
    &&& price_of(committed as nat, acquired as nat, pair.decimals_out as nat) <= i128::MAX
    &&& price_of(received as nat, acquired as nat, pair.decimals_out as nat) <= i128::MAX
    &&& diff_fits(gross_of(pair, committed, received), params.gas_cost_usdc)
}

/// `res` holds the figures of the round trip between the named venues
/// whose buy leg committed `committed` and acquired `acquired`, and whose
/// sell leg received `received`.
pub open spec fn result_of(
    res: ArbResult,
    dex_buy: Seq<char>,
    dex_sell: Seq<char>,
    pair: Pair,
    params: ArbParams,
    committed: u128,
    acquired: u128,
    received: u128,
) -> bool {
    &&& res.dex_buy@ == dex_buy
    &&& res.dex_sell@ == dex_sell
    &&& res.usdc_in == Decimal { mantissa: committed as i128, scale: pair.decimals_in }
    &&& res.weth_acquired == Decimal { mantissa: acquired as i128, scale: pair.decimals_out }
    &&& res.usdc_out == Decimal { mantissa: received as i128, scale: pair.decimals_in }
    &&& res.price_buy == Decimal {
        mantissa: price_of(committed as nat, acquired as nat, pair.decimals_out as nat) as i128,
        scale: pair.decimals_in,
    }
    &&& res.price_sell == Decimal {
        mantissa: price_of(received as nat, acquired as nat, pair.decimals_out as nat) as i128,
        scale: pair.decimals_in,
    }
    &&& res.gross_profit == gross_of(pair, committed, received)
    &&& res.net_profit.scale == diff_scale(res.gross_profit, params.gas_cost_usdc)
    &&& res.net_profit.mantissa == diff_mantissa(res.gross_profit, params.gas_cost_usdc)
    &&& res.wf()
}

/// The figures of a round trip whose buy leg committed `committed` and
/// acquired `acquired`, and whose sell leg received `received`, all in
/// native units.
///
/// Amounts keep their asset's scale; prices and profits are at the quote
/// asset's scale. Fails with `InvalidAmount` exactly when a figure cannot be
/// represented.
pub fn simulate_roundtrip(
    dex_buy: &String,
    dex_sell: &String,
    pair: &Pair,
    params: &ArbParams,
    committed: u128,
    acquired: u128,
    received: u128,
) -> (r: Result<ArbResult, ArbError>)
    requires
        params.wf(),
    ensures
        r is Ok <==> roundtrip_fits(*pair, *params, committed, acquired, received),
        r matches Err(e) ==> e == ArbError::InvalidAmount,
        r matches Ok(res) ==> result_of(
            res,
            dex_buy@,
            dex_sell@,
            *pair,
            *params,
            committed,
            acquired,
            received,
        ),
{
    let usdc_in = match from_units(committed, pair.decimals_in) {
        Ok(d) => d,
        Err(_) => return Err(ArbError::InvalidAmount),
    };
    let weth_acquired = match from_units(acquired, pair.decimals_out) {
        Ok(d) => d,
        Err(_) => return Err(ArbError::InvalidAmount),
    };
    let usdc_out = match from_units(received, pair.decimals_in) {
        Ok(d) => d,
        Err(_) => return Err(ArbError::InvalidAmount),
    };
    let scale = crate::units::pow10_u128(pair.decimals_out);
    let floor: u128 = if acquired == 0 {
        1
    } else {
        acquired
    };
    let price_buy = match committed.checked_mul(scale) {
        Some(x) => {
            let p = x / floor;
            if p > i128::MAX as u128 {
                return Err(ArbError::InvalidAmount);
            }
            p as i128
        },
        None => return Err(ArbError::InvalidAmount),
    };
    let price_sell = match received.checked_mul(scale) {
        Some(x) => {
            let p = x / floor;
            if p > i128::MAX as u128 {
                return Err(ArbError::InvalidAmount);
            }
            p as i128
        },
        None => return Err(ArbError::InvalidAmount),
    };
    let gross = Decimal { mantissa: received as i128 - committed as i128, scale: pair.decimals_in };
    let net = match decimal_sub(gross, params.gas_cost_usdc) {
        Ok(n) => n,
        Err(_) => return Err(ArbError::InvalidAmount),
    };
    Ok(ArbResult {
        dex_buy: dex_buy.clone(),
        dex_sell: dex_sell.clone(),
        usdc_in,
        weth_acquired,
        usdc_out,
        price_buy: Decimal { mantissa: price_buy, scale: pair.decimals_in },
        price_sell: Decimal { mantissa: price_sell, scale: pair.decimals_in },
        gross_profit: gross,
        net_profit: net,
    })
}

/// The outcome of one direction of a tick, from the answers of its two
/// quotes: a failed buy quote fails the direction (the sell quote is then
/// never asked, and `received` is not read), a failed sell quote too, and
/// otherwise the round trip is simulated.
pub open spec fn direction_fails_with(
    acquired: Result<u128, QuoteError>,
    received: Result<u128, QuoteError>,
) -> Option<ArbError> {
    match acquired {
        Err(e) => Some(arb_error_of(e)),
        Ok(_) => match received {
            Err(e) => Some(arb_error_of(e)),
            Ok(_) => None,
        },
    }
}

/// Composes the two legs of one direction from the answers of its quotes.
pub fn direction_outcome(
    dex_buy: &String,
    dex_sell: &String,
    pair: &Pair,
    params: &ArbParams,
    committed: u128,
    acquired: Result<u128, QuoteError>,
    received: Result<u128, QuoteError>,
) -> (r: Result<ArbResult, ArbError>)
    requires
        params.wf(),
    ensures
        direction_fails_with(acquired, received) matches Some(e) ==> r == Err::<ArbResult, ArbError>(e),
        direction_fails_with(acquired, received) is None ==> {
            let a = acquired->Ok_0;
            let b = received->Ok_0;
            &&& (r is Ok <==> roundtrip_fits(*pair, *params, committed, a, b))
            &&& (r matches Err(e) ==> e == ArbError::InvalidAmount)
            &&& (r matches Ok(res) ==> result_of(
                res,
                dex_buy@,
                dex_sell@,
                *pair,
                *params,
                committed,
                a,
                b,
            ))
        },
{
    match acquired {
        Err(e) => Err(quote_failure(e)),
        Ok(a) => match received {
            Err(e) => Err(quote_failure(e)),
            Ok(b) => simulate_roundtrip(dex_buy, dex_sell, pair, params, committed, a, b),
        },
    }
}

/// Net profit never falls as the amount received back grows, all else
/// equal.
pub proof fn lemma_net_profit_grows_with_received(
    pair: Pair,
    params: ArbParams,
    committed: u128,
    received1: u128,
    received2: u128,
)
    requires
        committed <= i128::MAX,
        received1 <= received2 <= i128::MAX,
    ensures
        diff_scale(gross_of(pair, committed, received1), params.gas_cost_usdc) == diff_scale(
            gross_of(pair, committed, received2),
            params.gas_cost_usdc,
        ),
        diff_mantissa(gross_of(pair, committed, received1), params.gas_cost_usdc)
            <= diff_mantissa(gross_of(pair, committed, received2), params.gas_cost_usdc),
{
    let g1 = gross_of(pair, committed, received1);
    let g2 = gross_of(pair, committed, received2);
    let s = diff_scale(g1, params.gas_cost_usdc);
    let k = pow10((s - pair.decimals_in) as nat);
    crate::units::lemma_pow10_pos((s - pair.decimals_in) as nat);
    let x1 = received1 - committed;
    let x2 = received2 - committed;
    assert(x1 * k <= x2 * k) by (nonlinear_arith)
        requires
            x1 <= x2,
            k >= 1,
    ;
    assert(mantissa_at(g1, s) == x1 * k);
    assert(mantissa_at(g2, s) == x2 * k);
}

/// Net profit never falls when the sell leg's venue quotes strictly more
/// for more and the buy leg acquires more: two simulations of one direction
/// that commit the same amount report net profits in the order of the
/// amounts acquired.
pub proof fn lemma_net_profit_monotone(
    res1: ArbResult,
    res2: ArbResult,
    dex_buy: Seq<char>,
    dex_sell: Seq<char>,
    pair: Pair,
    params: ArbParams,
    committed: u128,
    acquired1: u128,
    acquired2: u128,
    received1: u128,
    received2: u128,
    sell_quote: spec_fn(nat) -> nat,
)
    requires
        forall|x: nat, y: nat| x < y ==> #[trigger] sell_quote(x) < #[trigger] sell_quote(y),
        acquired1 <= acquired2,
        received1 == sell_quote(acquired1 as nat),
        received2 == sell_quote(acquired2 as nat),
        roundtrip_fits(pair, params, committed, acquired1, received1),
        roundtrip_fits(pair, params, committed, acquired2, received2),
        result_of(res1, dex_buy, dex_sell, pair, params, committed, acquired1, received1),
        result_of(res2, dex_buy, dex_sell, pair, params, committed, acquired2, received2),
    ensures
        res1.net_profit.scale == res2.net_profit.scale,
        res1.net_profit.mantissa <= res2.net_profit.mantissa,
{
    if acquired1 < acquired2 {
        assert(sell_quote(acquired1 as nat) < sell_quote(acquired2 as nat));
    }
    lemma_net_profit_grows_with_received(pair, params, committed, received1, received2);
}

/// Where one direction of a tick stands.
#[derive(Debug)]
pub enum DirectionState {
    /// The buy venue has been asked to quote `committed` of the quote asset.
    AwaitBuy { committed: u128 },
    /// The buy leg acquired `acquired`; the sell venue has been asked.
    AwaitSell { committed: u128, acquired: u128 },
    /// The direction is over.
    Finished(Result<ArbResult, ArbError>),
}

/// What a direction asks of its driver next.
#[derive(Clone, Debug)]
pub enum DirectionAction {
    /// Ask the buy venue for this quote and hand back its answer.
    AskBuyVenue(LegQuote),
    /// Ask the sell venue for this quote and hand back its answer.
    AskSellVenue(LegQuote),
    /// Nothing more: the state holds the outcome.
    Done,
}

/// Starts one direction: asks the buy venue for the buy leg, or ends at
/// once when the trade size cannot be converted.
pub fn start_direction(pair: &Pair, params: &ArbParams) -> (r: (DirectionState, DirectionAction))
    requires
        params.wf(),
    ensures
        (params.trade_size_usdc.mantissa >= 0 && committed_of(*pair, *params) <= u128::MAX) ==> {
            &&& r.0 matches DirectionState::AwaitBuy { committed } && committed == committed_of(
                *pair,
                *params,
            )
            &&& r.1 matches DirectionAction::AskBuyVenue(q) && q.amount_in == committed_of(
                *pair,
                *params,
            ) && q.path@ == seq![pair.token_in, pair.token_out]
        },
        !(params.trade_size_usdc.mantissa >= 0 && committed_of(*pair, *params) <= u128::MAX) ==> {
            &&& r.0 matches DirectionState::Finished(Err(e)) && e == ArbError::InvalidAmount
            &&& r.1 is Done
        },
{
    match buy_leg(pair, params) {
        Ok(q) => (DirectionState::AwaitBuy { committed: q.amount_in }, DirectionAction::AskBuyVenue(q)),
        Err(e) => (DirectionState::Finished(Err(e)), DirectionAction::Done),
    }
}

/// Advances one direction with the answer of the venue it asked: a failed
/// buy quote ends the direction with its error and the sell venue is never
/// asked; a good one asks the sell venue for the amount acquired; the sell
/// venue's answer ends the direction, failed or simulated.
pub fn on_quote(
    state: DirectionState,
    dex_buy: &String,
    dex_sell: &String,
    pair: &Pair,
    params: &ArbParams,
    answer: Result<u128, QuoteError>,
) -> (r: (DirectionState, DirectionAction))
    requires
        params.wf(),
    ensures
        r.1 is Done <==> r.0 is Finished,
        state matches DirectionState::Finished(o) ==> r.0 == DirectionState::Finished(o),
        state is AwaitBuy ==> match answer {
            Err(e) => r.0 == DirectionState::Finished(Err(arb_error_of(e))),
            Ok(a) => {
                &&& r.0 == DirectionState::AwaitSell { committed: state->AwaitBuy_committed, acquired: a }
                &&& r.1 matches DirectionAction::AskSellVenue(q) && q.amount_in == a && q.path@
                    == seq![pair.token_out, pair.token_in]
            },
        },
        state is AwaitSell ==> match answer {
            Err(e) => r.0 == DirectionState::Finished(Err(arb_error_of(e))),
            Ok(b) => r.0 matches DirectionState::Finished(o) && {
                let c = state->AwaitSell_committed;
                let a = state->AwaitSell_acquired;
                &&& (o is Ok <==> roundtrip_fits(*pair, *params, c, a, b))
                &&& (o matches Err(e) ==> e == ArbError::InvalidAmount)
                &&& (o matches Ok(res) ==> result_of(
                    res,
                    dex_buy@,
                    dex_sell@,
                    *pair,
                    *params,
                    c,
                    a,
                    b,
                ))
            },
        },
{
    match state {
        DirectionState::AwaitBuy { committed } => match answer {
            Err(e) => (DirectionState::Finished(Err(quote_failure(e))), DirectionAction::Done),
            Ok(a) => (
                DirectionState::AwaitSell { committed, acquired: a },
                DirectionAction::AskSellVenue(sell_leg(pair, a)),
            ),
        },
        DirectionState::AwaitSell { committed, acquired } => match answer {
            Err(e) => (DirectionState::Finished(Err(quote_failure(e))), DirectionAction::Done),
            Ok(b) => (
                DirectionState::Finished(
                    simulate_roundtrip(dex_buy, dex_sell, pair, params, committed, acquired, b),
                ),
                DirectionAction::Done,
            ),
        },
        DirectionState::Finished(o) => (DirectionState::Finished(o), DirectionAction::Done),
    }
}

} // verus!
