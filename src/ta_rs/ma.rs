use crate::decimal::{
    all_wf, checked_add, checked_div, checked_mul, checked_sub, difference_of, int_dec,
    product_of, quotient_of, sum_of, Dec,
};
use crate::error::CoreError;
use crate::utils::{create_indicator_cross_vec, cross_of, total_of, total_range};
use vstd::math::min;
use vstd::prelude::*;

verus! {

/// A price series and the period of a moving average over it.
pub struct IMAParams<'a> {
    pub prices: &'a [Dec],
    pub period: u32,
}

/// The mean of the `period` prices that start at `start`.
pub open spec fn window_mean(prices: Seq<Dec>, start: int, period: nat) -> Option<Dec> {
    match total_of(prices.subrange(start, start + period)) {
        Some(t) => quotient_of(t, int_dec(period as int)),
        None => None,
    }
}

/// The simple moving average: one window mean for each start index `i`
/// with `i + period <= len`.
pub open spec fn sma_of(prices: Seq<Dec>, period: nat) -> Result<Seq<Dec>, CoreError> {
    let n = prices.len() - period + 1;
    if period == 0 || period > prices.len() {
        Err(CoreError::InvalidPeriod)
    } else if exists|i: int| 0 <= i < n && #[trigger] window_mean(prices, i, period) is None {
        Err(CoreError::ArithmeticOverflow)
    } else {
        Ok(Seq::new(n as nat, |i: int| window_mean(prices, i, period).unwrap()))
    }
}

/// The smoothing factor `2 / (period + 1)`.
pub open spec fn smoothing_of(period: nat) -> Option<Dec> {
    quotient_of(int_dec(2), int_dec(period + 1 as int))
}

/// One step of the exponential average:
/// `alpha * price + (1 - alpha) * prev`.
pub open spec fn ema_step(price: Dec, alpha: Dec, prev: Dec) -> Option<Dec> {
    match (product_of(alpha, price), difference_of(int_dec(1), alpha)) {
        (Some(x), Some(rest)) => match product_of(rest, prev) {
            Some(y) => sum_of(x, y),
            None => None,
        },
        _ => None,
    }
}

/// The first `k` values of the exponential average: `seed`, then one step
/// for each price from index `period` on.
pub open spec fn ema_trail(prices: Seq<Dec>, period: nat, alpha: Dec, seed: Dec, k: nat) -> Option<
    Seq<Dec>,
>
    decreases k,
{
    if k <= 1 {
        Some(seq![seed])
    } else {
        match ema_trail(prices, period, alpha, seed, (k - 1) as nat) {
            Some(t) => match ema_step(prices[period + k - 2], alpha, t.last()) {
                Some(e) => Some(t.push(e)),
                None => None,
            },
            None => None,
        }
    }
}

/// The exponential moving average, seeded by the mean of the first
/// `period` prices, with `len - period + 1` values.
pub open spec fn ema_of(prices: Seq<Dec>, period: nat) -> Result<Seq<Dec>, CoreError> {
    if period == 0 {
        Err(CoreError::InvalidPeriod)
    } else if prices.len() < period {
        Err(CoreError::InsufficientData)
    } else {
        match (window_mean(prices, 0, period), smoothing_of(period)) {
            (Some(seed), Some(alpha)) => match ema_trail(
                prices,
                period,
                alpha,
                seed,
                (prices.len() - period + 1) as nat,
            ) {
                Some(s) => Ok(s),
                None => Err(CoreError::ArithmeticOverflow),
            },
            _ => Err(CoreError::ArithmeticOverflow),
        }
    }
}

/// The fast average minus the slow one, aligned at their ends.
pub open spec fn ma_cross_of(prices: Seq<Dec>, fast: nat, slow: nat) -> Result<Seq<Dec>, CoreError> {
    match sma_of(prices, fast) {
        Ok(f) => match sma_of(prices, slow) {
            Ok(s) => if fast >= slow {
                Err(CoreError::MismatchedLength)
            } else {
                cross_of(f, s)
            },
            Err(e) => Err(e),
        },
        Err(e) => Err(e),
    }
}

/// The mean of `prices[start..start + period]`.
fn calculate_simple_moving_average(prices: &[Dec], start: usize, period: u32) -> (r: Option<Dec>)
    requires
        0 < period,
        start + period <= prices@.len(),
        all_wf(prices@),
    ensures
        r == window_mean(prices@, start as int, period as nat),
        r matches Some(d) ==> d.wf(),
{
    let n = prices.len();
    match total_range(prices, start, start + period as usize) {
        Some(t) => checked_div(t, Dec::from_u64(period as u64)),
        None => None,
    }
}

/// The simple moving average of `params.prices` over `params.period`.
/// Fails with `InvalidPeriod` when the period is zero or longer than the
/// series.
pub fn simple_moving_average(params: IMAParams) -> (r: Result<Vec<Dec>, CoreError>)
    requires
        all_wf(params.prices@),
    ensures
        match r {
            Ok(v) => sma_of(params.prices@, params.period as nat) == Ok::<Seq<Dec>, CoreError>(v@),
            Err(e) => sma_of(params.prices@, params.period as nat) == Err::<Seq<Dec>, CoreError>(e),
        },
        r matches Ok(v) ==> all_wf(v@) && v@.len() == params.prices@.len() - params.period + 1,
{
    let prices = params.prices;
    let period = params.period;
    let max_length = prices.len();
    if period == 0 || period as usize > max_length {
        return Err(CoreError::InvalidPeriod);
    }
    let p = period as usize;
    let count = max_length - p + 1;
    let mut sma: Vec<Dec> = Vec::new();
    let mut index: usize = 0;
    while index < count
        invariant
            0 < p == period <= max_length == prices@.len(),
            prices == params.prices,
            period == params.period,
            count == max_length - p + 1,
            index <= count,
            all_wf(prices@),
            all_wf(sma@),
            sma@.len() == index,
            forall|i: int|
                0 <= i < index ==> Some(#[trigger] sma@[i]) == window_mean(
                    prices@,
                    i,
                    period as nat,
                ),
        decreases count - index,
    {
        match calculate_simple_moving_average(prices, index, period) {
            Some(value) => {
                sma.push(value);
            },
            None => {
                assert(window_mean(prices@, index as int, period as nat) is None);
                return Err(CoreError::ArithmeticOverflow);
            },
        }
        index = index + 1;
    }
    assert forall|i: int| 0 <= i < count implies !(#[trigger] window_mean(
        prices@,
        i,
        period as nat,
    ) is None) by {
        assert(Some(sma@[i]) == window_mean(prices@, i, period as nat));
    }
    assert(sma@ =~= Seq::new(count as nat, |i: int| window_mean(prices@, i, period as nat).unwrap()));
    Ok(sma)
}

/// One step of the exponential average.
fn calculate_exponential_moving_average(price: Dec, smoothing_factor: Dec, prev_ema: Dec) -> (r:
    Option<Dec>)
    requires
        price.wf(),
        smoothing_factor.wf(),
        prev_ema.wf(),
    ensures
        r == ema_step(price, smoothing_factor, prev_ema),
        r matches Some(d) ==> d.wf(),
{
    match (checked_mul(smoothing_factor, price), checked_sub(Dec::one(), smoothing_factor)) {
        (Some(x), Some(rest)) => match checked_mul(rest, prev_ema) {
            Some(y) => checked_add(x, y),
            None => None,
        },
        _ => None,
    }
}

/// Once a step of the average overflows, every longer trail does.
proof fn lemma_trail_none_extends(
    prices: Seq<Dec>,
    period: nat,
    alpha: Dec,
    seed: Dec,
    k: nat,
    n: nat,
)
    requires
        k <= n,
        ema_trail(prices, period, alpha, seed, k) is None,
    ensures
        ema_trail(prices, period, alpha, seed, n) is None,
    decreases n - k,
{
    if k < n {
        lemma_trail_none_extends(prices, period, alpha, seed, k, (n - 1) as nat);
    }
}

/// The exponential moving average of `params.prices` over `params.period`.
/// Fails with `InvalidPeriod` on a zero period and with `InsufficientData`
/// when the series is shorter than the period.
pub fn exponential_moving_average(params: IMAParams) -> (r: Result<Vec<Dec>, CoreError>)
    requires
        all_wf(params.prices@),
    ensures
        match r {
            Ok(v) => ema_of(params.prices@, params.period as nat) == Ok::<Seq<Dec>, CoreError>(v@),
            Err(e) => ema_of(params.prices@, params.period as nat) == Err::<Seq<Dec>, CoreError>(e),
        },
        r matches Ok(v) ==> all_wf(v@) && v@.len() == params.prices@.len() - params.period + 1,
{
    let prices = params.prices;
    let period = params.period;
    let max_length = prices.len();
    if period == 0 {
        return Err(CoreError::InvalidPeriod);
    }
    if max_length < period as usize {
        return Err(CoreError::InsufficientData);
    }
    let p = period as usize;
    let first_ema = match calculate_simple_moving_average(prices, 0, period) {
        Some(v) => v,
        None => {
            return Err(CoreError::ArithmeticOverflow);
        },
    };
    let smoothing_factor = match checked_div(
        Dec::from_u64(2),
        Dec::from_u64(period as u64 + 1),
    ) {
        Some(v) => v,
        None => {
            return Err(CoreError::ArithmeticOverflow);
        },
    };
    let ghost total: nat = (max_length - p + 1) as nat;
    let mut ema: Vec<Dec> = vec![first_ema];
    let mut prev = first_ema;
    let mut index: usize = p;
    assert(ema@ =~= seq![first_ema]);
    while index < max_length
        invariant
            0 < p == period <= max_length == prices@.len(),
            prices == params.prices,
            period == params.period,
            total == max_length - p + 1,
            p <= index <= max_length,
            all_wf(prices@),
            all_wf(ema@),
            smoothing_factor.wf(),
            smoothing_of(period as nat) == Some(smoothing_factor),
            window_mean(prices@, 0, period as nat) == Some(first_ema),
            ema@.len() == index - p + 1,
            prev == ema@.last(),
            ema_trail(prices@, period as nat, smoothing_factor, first_ema, ema@.len() as nat)
                == Some(ema@),
        decreases max_length - index,
    {
        match calculate_exponential_moving_average(prices[index], smoothing_factor, prev) {
            Some(value) => {
                ema.push(value);
                prev = value;
            },
            None => {
                proof {
                    lemma_trail_none_extends(
                        prices@,
                        period as nat,
                        smoothing_factor,
                        first_ema,
                        (ema@.len() + 1) as nat,
                        total,
                    );
                }
                return Err(CoreError::ArithmeticOverflow);
            },
        }
        index = index + 1;
    }
    Ok(ema)
}

/// Every simple average has one value per window: `len - period + 1`.
pub proof fn lemma_sma_length(prices: Seq<Dec>, period: nat)
    requires
        sma_of(prices, period) is Ok,
    ensures
        0 < period <= prices.len(),
        sma_of(prices, period)->Ok_0.len() == prices.len() - period + 1,
{
}

/// Every exponential average has `len - period + 1` values.
pub proof fn lemma_ema_length(prices: Seq<Dec>, period: nat)
    requires
        ema_of(prices, period) is Ok,
    ensures
        0 < period <= prices.len(),
        ema_of(prices, period)->Ok_0.len() == prices.len() - period + 1,
{
    let alpha = smoothing_of(period)->Some_0;
    let seed = window_mean(prices, 0, period)->Some_0;
    lemma_trail_length(prices, period, alpha, seed, (prices.len() - period + 1) as nat);
}

/// A trail that did not overflow has exactly the values asked for.
proof fn lemma_trail_length(prices: Seq<Dec>, period: nat, alpha: Dec, seed: Dec, k: nat)
    requires
        k >= 1,
        ema_trail(prices, period, alpha, seed, k) is Some,
    ensures
        ema_trail(prices, period, alpha, seed, k)->Some_0.len() == k,
    decreases k,
{
    if k > 1 {
        lemma_trail_length(prices, period, alpha, seed, (k - 1) as nat);
    }
}

/// The moving-average cross has as many values as the shorter of its two
/// averages.
pub proof fn lemma_ma_cross_length(prices: Seq<Dec>, fast: nat, slow: nat)
    requires
        ma_cross_of(prices, fast, slow) is Ok,
    ensures
        sma_of(prices, fast) is Ok,
        sma_of(prices, slow) is Ok,
        ma_cross_of(prices, fast, slow)->Ok_0.len() == min(
            sma_of(prices, fast)->Ok_0.len() as int,
            sma_of(prices, slow)->Ok_0.len() as int,
        ),
{
}

/// The simple average over `fast` minus the one over `slow`, aligned at
/// their last values. Fails with the error of either average, and with
/// `MismatchedLength` when `fast` is not shorter than `slow`.
pub fn get_ma_cross(prices: &[Dec], fast: u32, slow: u32) -> (r: Result<Vec<Dec>, CoreError>)
    requires
        all_wf(prices@),
    ensures
        match r {
            Ok(v) => ma_cross_of(prices@, fast as nat, slow as nat) == Ok::<Seq<Dec>, CoreError>(v@),
            Err(e) => ma_cross_of(prices@, fast as nat, slow as nat) == Err::<Seq<Dec>, CoreError>(e),
        },
        r matches Ok(v) ==> all_wf(v@) && v@.len() == prices@.len() - slow + 1,
{
    let fast_ma = match simple_moving_average(IMAParams { prices, period: fast }) {
        Ok(v) => v,
        Err(e) => {
            return Err(e);
        },
    };
    let slow_ma = match simple_moving_average(IMAParams { prices, period: slow }) {
        Ok(v) => v,
        Err(e) => {
            return Err(e);
        },
    };
    if fast >= slow {
        return Err(CoreError::MismatchedLength);
    }
    create_indicator_cross_vec(fast_ma.as_slice(), slow_ma.as_slice())
}

} // verus!
