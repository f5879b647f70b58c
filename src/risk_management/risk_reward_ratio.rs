use crate::decimal::{checked_div, checked_mul, checked_sub, difference_of, product_of, quotient_of, Dec};
use crate::error::CoreError;
use vstd::prelude::*;

verus! {

/// A planned trade: the capital put at risk and its three prices.
pub struct IRiskRewardParams {
    pub risk_per_trade: Dec,
    pub entry: Dec,
    pub stop_loss: Dec,
    pub take_profit: Dec,
}

/// The sizing of a planned trade.
#[derive(Clone, Copy, Debug, PartialEq, Eq, Structural)]
pub struct IRiskRewardResult {
    pub optimal_quantity: Dec,
    pub risk_reward_ratio: Dec,
    pub value: Dec,
    pub estimate_profit: Dec,
}

impl IRiskRewardParams {
    pub open spec fn wf(&self) -> bool {
        self.risk_per_trade.wf() && self.entry.wf() && self.stop_loss.wf() && self.take_profit.wf()
    }
}

/// `a / b`, failing with `DivisionByZero` on a zero divisor.
pub open spec fn ratio(a: Dec, b: Dec) -> Result<Dec, CoreError> {
    if b.is_zero() {
        Err(CoreError::DivisionByZero)
    } else {
        match quotient_of(a, b) {
            Some(q) => Ok(q),
            None => Err(CoreError::ArithmeticOverflow),
        }
    }
}

/// The quantity whose loss at the stop equals the risk:
/// `risk / (entry - stop_loss)`.
pub open spec fn optimal_quantity_of(risk: Dec, entry: Dec, stop_loss: Dec) -> Result<Dec, CoreError> {
    match difference_of(entry, stop_loss) {
        Some(d) => ratio(risk, d),
        None => Err(CoreError::ArithmeticOverflow),
    }
}

/// The sizing of a planned trade: the optimal quantity, take profit over
/// stop loss, the value of the position and the profit at the target.
pub open spec fn risk_reward_of(p: IRiskRewardParams) -> Result<IRiskRewardResult, CoreError> {
    match optimal_quantity_of(p.risk_per_trade, p.entry, p.stop_loss) {
        Err(e) => Err(e),
        Ok(q) => match ratio(p.take_profit, p.stop_loss) {
            Err(e) => Err(e),
            Ok(rr) => match (product_of(q, p.entry), difference_of(p.take_profit, p.entry)) {
                (Some(value), Some(gain)) => match product_of(q, gain) {
                    Some(profit) => Ok(
                        IRiskRewardResult {
                            optimal_quantity: q,
                            risk_reward_ratio: rr,
                            value,
                            estimate_profit: profit,
                        },
                    ),
                    None => Err(CoreError::ArithmeticOverflow),
                },
                _ => Err(CoreError::ArithmeticOverflow),
            },
        },
    }
}

fn divide(a: Dec, b: Dec) -> (r: Result<Dec, CoreError>)
    requires
        a.wf(),
        b.wf(),
    ensures
        r == ratio(a, b),
        r matches Ok(d) ==> d.wf(),
{
    if b.zero_valued() {
        return Err(CoreError::DivisionByZero);
    }
    match checked_div(a, b) {
        Some(q) => Ok(q),
        None => Err(CoreError::ArithmeticOverflow),
    }
}

fn calculate_optimal_quantity(risk_per_trade: Dec, entry: Dec, stop_loss: Dec) -> (r: Result<
    Dec,
    CoreError,
>)
    requires
        risk_per_trade.wf(),
        entry.wf(),
        stop_loss.wf(),
    ensures
        r == optimal_quantity_of(risk_per_trade, entry, stop_loss),
        r matches Ok(d) ==> d.wf(),
{
    match checked_sub(entry, stop_loss) {
        Some(d) => divide(risk_per_trade, d),
        None => Err(CoreError::ArithmeticOverflow),
    }
}

fn calculate_reward_per_risk(stop_loss: Dec, take_profit: Dec) -> (r: Result<Dec, CoreError>)
    requires
        stop_loss.wf(),
        take_profit.wf(),
    ensures
        r == ratio(take_profit, stop_loss),
{
    divide(take_profit, stop_loss)
}

/// Sizes a planned trade. Fails with `DivisionByZero` when the entry equals
/// the stop loss or the stop loss is zero.
pub fn calculate_risk_reward(params: IRiskRewardParams) -> (r: Result<IRiskRewardResult, CoreError>)
    requires
        params.wf(),
    ensures
        r == risk_reward_of(params),
{
    let optimal_quantity = match calculate_optimal_quantity(
        params.risk_per_trade,
        params.entry,
        params.stop_loss,
    ) {
        Ok(q) => q,
        Err(e) => {
            return Err(e);
        },
    };
    let risk_reward_ratio = match calculate_reward_per_risk(params.stop_loss, params.take_profit) {
        Ok(rr) => rr,
        Err(e) => {
            return Err(e);
        },
    };
    match (checked_mul(optimal_quantity, params.entry), checked_sub(params.take_profit, params.entry)) {
        (Some(value), Some(gain)) => match checked_mul(optimal_quantity, gain) {
            Some(estimate_profit) => Ok(
                IRiskRewardResult { optimal_quantity, risk_reward_ratio, value, estimate_profit },
            ),
            None => Err(CoreError::ArithmeticOverflow),
        },
        _ => Err(CoreError::ArithmeticOverflow),
    }
}

} // verus!
