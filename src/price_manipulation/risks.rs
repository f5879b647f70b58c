use crate::decimal::{
    all_wf, checked_add, checked_div, checked_powu, checked_sub, difference_of, int_dec, power_of,
    quotient_of, sqrt, sqrt_of, sum_of, Dec,
};
use crate::error::CoreError;
use crate::price_manipulation::return_series::{average_return_of, get_average_return};
use vstd::prelude::*;

verus! {

/// The sum of the squared deviations of `s` from `avg`, added from the left.
pub open spec fn squared_deviation_of(s: Seq<Dec>, avg: Dec) -> Option<Dec>
    decreases s.len(),
{
    if s.len() == 0 {
        Some(int_dec(0))
    } else {
        match squared_deviation_of(s.drop_last(), avg) {
            Some(acc) => match difference_of(s.last(), avg) {
                Some(d) => match power_of(d, 2) {
                    Some(p) => sum_of(acc, p),
                    None => None,
                },
                None => None,
            },
            None => None,
        }
    }
}

/// The mean of the squared deviations from the mean.
pub open spec fn variance_of(series: Seq<Dec>) -> Result<Dec, CoreError> {
    match average_return_of(series) {
        Ok(avg) => match squared_deviation_of(series, avg) {
            Some(t) => match quotient_of(t, int_dec(series.len() as int)) {
                Some(q) => Ok(q),
                None => Err(CoreError::ArithmeticOverflow),
            },
            None => Err(CoreError::ArithmeticOverflow),
        },
        Err(e) => Err(e),
    }
}

/// The square root of the variance, or zero where it has none.
pub open spec fn volatility_of(series: Seq<Dec>) -> Result<Dec, CoreError> {
    match variance_of(series) {
        Ok(v) => Ok(
            match sqrt_of(v) {
                Some(s) => s,
                None => int_dec(0),
            },
        ),
        Err(e) => Err(e),
    }
}

/// The variance of `series`. Fails with `EmptySeries` when there is none.
pub fn get_variance(series: &[Dec]) -> (r: Result<Dec, CoreError>)
    requires
        all_wf(series@),
    ensures
        r == variance_of(series@),
        r matches Ok(d) ==> d.wf(),
{
    let avg_return = match get_average_return(series) {
        Ok(a) => a,
        Err(e) => {
            return Err(e);
        },
    };
    let n = series.len();
    let mut squared_deviation = Dec::zero();
    let mut i: usize = 0;
    while i < n
        invariant
            i <= n == series@.len(),
            all_wf(series@),
            avg_return.wf(),
            average_return_of(series@) == Ok::<Dec, CoreError>(avg_return),
            squared_deviation.wf(),
            squared_deviation_of(series@.subrange(0, i as int), avg_return) == Some(
                squared_deviation,
            ),
        decreases n - i,
    {
        assert(series@.subrange(0, i + 1).drop_last() =~= series@.subrange(0, i as int));
        let step = match checked_sub(series[i], avg_return) {
            Some(d) => match checked_powu(d, 2) {
                Some(p) => checked_add(squared_deviation, p),
                None => None,
            },
            None => None,
        };
        match step {
            Some(s) => {
                squared_deviation = s;
            },
            None => {
                proof {
                    lemma_deviation_none_extends(series@, avg_return, (i + 1) as int);
                }
                return Err(CoreError::ArithmeticOverflow);
            },
        }
        i = i + 1;
    }
    assert(series@.subrange(0, n as int) =~= series@);
    match checked_div(squared_deviation, Dec::from_u64(n as u64)) {
        Some(q) => Ok(q),
        None => Err(CoreError::ArithmeticOverflow),
    }
}

/// Once the squared deviations overflow, they do for the whole series.
proof fn lemma_deviation_none_extends(s: Seq<Dec>, avg: Dec, k: int)
    requires
        0 <= k <= s.len(),
        squared_deviation_of(s.subrange(0, k), avg) is None,
    ensures
        squared_deviation_of(s, avg) is None,
    decreases s.len() - k,
{
    if k < s.len() {
        assert(s.subrange(0, k + 1).drop_last() =~= s.subrange(0, k));
        lemma_deviation_none_extends(s, avg, k + 1);
    } else {
        assert(s.subrange(0, k) =~= s);
    }
}

/// The volatility of `series`: the square root of their variance, or zero
/// where the variance has no square root. The square root is rust_decimal's
/// Newton iteration, which panics if it has not settled after 1000 steps:
/// this function alone is not covered by the library's promise not to
/// panic.
pub fn get_volatility(series: &[Dec]) -> (r: Result<Dec, CoreError>)
    requires
        all_wf(series@),
    ensures
        r == volatility_of(series@),
        r matches Ok(d) ==> !d.is_neg(),
{
    match get_variance(series) {
        Ok(variance) => match sqrt(variance) {
            Some(s) => Ok(s),
            None => Ok(Dec::zero()),
        },
        Err(e) => Err(e),
    }
}

} // verus!
