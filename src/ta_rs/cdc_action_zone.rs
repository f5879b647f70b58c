use crate::decimal::{all_wf, Dec};
use crate::error::CoreError;
use crate::ta_rs::ma::{ema_of, exponential_moving_average, lemma_ema_length, IMAParams};
use crate::utils::{create_indicator_cross_vec, cross_of};
use vstd::math::min;
use vstd::prelude::*;

verus! {

/// Period of the fast exponential average of the action zone.
pub const FAST_PERIOD: u32 = 12;

/// Period of the slow exponential average of the action zone.
pub const SLOW_PERIOD: u32 = 26;

/// The fast exponential average minus the slow one, aligned at their ends.
pub open spec fn cdc_of(prices: Seq<Dec>) -> Result<Seq<Dec>, CoreError> {
    match ema_of(prices, FAST_PERIOD as nat) {
        Ok(fast) => match ema_of(prices, SLOW_PERIOD as nat) {
            Ok(slow) => cross_of(fast, slow),
            Err(e) => Err(e),
        },
        Err(e) => Err(e),
    }
}

/// The CDC action zone: the 12-period exponential average minus the
/// 26-period one. Fails with the error of either average.
pub fn get_cdc_action_zone(prices: &[Dec]) -> (r: Result<Vec<Dec>, CoreError>)
    requires
        all_wf(prices@),
    ensures
        match r {
            Ok(v) => cdc_of(prices@) == Ok::<Seq<Dec>, CoreError>(v@),
            Err(e) => cdc_of(prices@) == Err::<Seq<Dec>, CoreError>(e),
        },
        r matches Ok(v) ==> all_wf(v@) && v@.len() == prices@.len() - SLOW_PERIOD + 1,
{
    let ema_12 = match exponential_moving_average(IMAParams { prices, period: FAST_PERIOD }) {
        Ok(v) => v,
        Err(e) => {
            return Err(e);
        },
    };
    let ema_26 = match exponential_moving_average(IMAParams { prices, period: SLOW_PERIOD }) {
        Ok(v) => v,
        Err(e) => {
            return Err(e);
        },
    };
    create_indicator_cross_vec(ema_12.as_slice(), ema_26.as_slice())
}

/// The action zone has as many values as the shorter of its two averages.
pub proof fn lemma_cdc_length(prices: Seq<Dec>)
    requires
        cdc_of(prices) is Ok,
    ensures
        ema_of(prices, FAST_PERIOD as nat) is Ok,
        ema_of(prices, SLOW_PERIOD as nat) is Ok,
        cdc_of(prices)->Ok_0.len() == min(
            ema_of(prices, FAST_PERIOD as nat)->Ok_0.len() as int,
            ema_of(prices, SLOW_PERIOD as nat)->Ok_0.len() as int,
        ),
{
    lemma_ema_length(prices, FAST_PERIOD as nat);
    lemma_ema_length(prices, SLOW_PERIOD as nat);
}

} // verus!
