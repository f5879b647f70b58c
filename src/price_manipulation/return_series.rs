use crate::decimal::{all_wf, int_dec, Dec};
use crate::error::CoreError;
use crate::utils::{calculate_return, changes_of, mean, mean_of};
use vstd::prelude::*;

verus! {

/// The return of each period: `(p[i + 1] - p[i]) / p[i]` for every `i`
/// below `len - 1`, or the first error.
pub open spec fn period_returns_of(prices: Seq<Dec>) -> Result<Seq<Dec>, CoreError> {
    if prices.len() == 0 {
        Ok(Seq::empty())
    } else {
        changes_of(prices, prices.subrange(1, prices.len() as int), (prices.len() - 1) as nat)
    }
}

/// The mean of a return series.
pub open spec fn average_return_of(series: Seq<Dec>) -> Result<Dec, CoreError> {
    mean_of(series, int_dec(series.len() as int))
}

/// The per-period series of a price series. Fails with `DivisionByZero`
/// where a price that a return divides by is zero.
pub fn get_return(prices: &[Dec]) -> (r: Result<Vec<Dec>, CoreError>)
    requires
        all_wf(prices@),
    ensures
        match r {
            Ok(v) => period_returns_of(prices@) == Ok::<Seq<Dec>, CoreError>(v@),
            Err(e) => period_returns_of(prices@) == Err::<Seq<Dec>, CoreError>(e),
        },
        r matches Ok(v) ==> all_wf(v@) && v@.len() == if prices@.len() == 0 {
            0
        } else {
            prices@.len() - 1
        },
{
    let n = prices.len();
    if n == 0 {
        return Ok(Vec::new());
    }
    let mut prices_one_lag: Vec<Dec> = Vec::new();
    let mut i: usize = 1;
    while i < n
        invariant
            1 <= i <= n == prices@.len(),
            all_wf(prices@),
            prices_one_lag@ =~= prices@.subrange(1, i as int),
        decreases n - i,
    {
        prices_one_lag.push(prices[i]);
        i = i + 1;
    }
    let r = calculate_return(prices, prices_one_lag.as_slice(), n - 1);
    proof {
        if r is Ok {
            lemma_changes_length(prices@, prices_one_lag@, (n - 1) as nat);
        }
    }
    r
}

/// A series of changes that did not fail has one value per pair.
proof fn lemma_changes_length(v: Seq<Dec>, w: Seq<Dec>, n: nat)
    requires
        changes_of(v, w, n) is Ok,
    ensures
        changes_of(v, w, n)->Ok_0.len() == n,
    decreases n,
{
    if n > 0 {
        lemma_changes_length(v, w, (n - 1) as nat);
    }
}

/// The mean of `series`. Fails with `EmptySeries` when there is none.
pub fn get_average_return(series: &[Dec]) -> (r: Result<Dec, CoreError>)
    requires
        all_wf(series@),
    ensures
        r == average_return_of(series@),
        r matches Ok(d) ==> d.wf(),
{
    let length = Dec::from_u64(series.len() as u64);
    mean(series, &length)
}

} // verus!
