use crate::backtest::{closed_count, events_wf, negative_values, negatives, positive_values, positives, trade_returns_of, IBackTestingResult};
use crate::decimal::{
    all_wf, checked_add, checked_div, checked_mul, checked_sub, compare, dec_le, dec_lt,
    difference_of, int_dec, product_of, quotient_of, sum_of, Dec,
};
use crate::error::CoreError;
use crate::ta_rs::ma::{ema_of, sma_of};
use crate::utils::{mean, mean_of};
use std::cmp::Ordering;
use vstd::prelude::*;

verus! {

/// Aggregate statistics of the closed trades of a backtest. A statistic
/// that is undefined for the trades at hand holds the error that says why.
#[derive(Debug)]
pub struct IBackTestingSummary {
    pub total_trade: u16,
    pub winning_trade: u16,
    pub losing_trade: u16,
    pub percent_profitable: Result<Dec, CoreError>,
    pub largest_win: Dec,
    pub largest_losing: Dec,
    pub average_win: Result<Dec, CoreError>,
    pub average_losing: Result<Dec, CoreError>,
    pub avg_win_loss_ratio: Result<Dec, CoreError>,
    pub max_consec_win: u16,
    pub max_consec_lose: u16,
    pub profit_factor: Result<Dec, CoreError>,
    pub maximum_drawdown: Result<Dec, CoreError>,
    pub total_return: Result<Dec, CoreError>,
}

/// The returns at or above zero: the winning trades.
pub open spec fn winners(s: Seq<Dec>) -> Seq<Dec> {
    s.filter(|d: Dec| d.mantissa >= 0)
}

/// `wins / total`, undefined without trades.
pub open spec fn percent_of(wins: nat, total: nat) -> Result<Dec, CoreError> {
    if total == 0 {
        Err(CoreError::DivisionByZero)
    } else {
        match quotient_of(int_dec(wins as int), int_dec(total as int)) {
            Some(q) => Ok(q),
            None => Err(CoreError::ArithmeticOverflow),
        }
    }
}

/// The largest win and the largest loss, both starting from zero: a value
/// above the running largest win replaces it, otherwise a value below the
/// running largest loss replaces that.
pub open spec fn extremes_of(s: Seq<Dec>) -> (Dec, Dec)
    decreases s.len(),
{
    if s.len() == 0 {
        (int_dec(0), int_dec(0))
    } else {
        let (w, l) = extremes_of(s.drop_last());
        let v = s.last();
        if dec_lt(w, v) {
            (v, l)
        } else if dec_lt(v, l) {
            (w, v)
        } else {
            (w, l)
        }
    }
}

/// The average win over the magnitude of the average loss.
pub open spec fn ratio_of(average_win: Result<Dec, CoreError>, average_losing: Result<Dec, CoreError>) -> Result<
    Dec,
    CoreError,
> {
    match average_win {
        Err(e) => Err(e),
        Ok(w) => match average_losing {
            Err(e) => Err(e),
            Ok(l) => match product_of(int_dec(-1), l) {
                None => Err(CoreError::ArithmeticOverflow),
                Some(m) => if m.is_zero() {
                    Err(CoreError::DivisionByZero)
                } else {
                    match quotient_of(w, m) {
                        Some(q) => Ok(q),
                        None => Err(CoreError::ArithmeticOverflow),
                    }
                },
            },
        },
    }
}

/// Two neighbouring returns are both wins (`win`) or both losses.
pub open spec fn same_outcome(a: Dec, b: Dec, win: bool) -> bool {
    if win {
        a.is_pos() && b.is_pos()
    } else {
        a.is_neg() && b.is_neg()
    }
}

/// The streak that ends at index `i`: how many neighbouring pairs in a row,
/// up to `i`, have the same outcome.
pub open spec fn streak_at(s: Seq<Dec>, i: int, win: bool) -> nat
    decreases i,
{
    if i <= 0 {
        0
    } else if same_outcome(s[i], s[i - 1], win) {
        streak_at(s, i - 1, win) + 1
    } else {
        0
    }
}

/// The longest streak that ends before index `n`.
pub open spec fn max_streak(s: Seq<Dec>, n: int, win: bool) -> nat
    decreases n,
{
    if n <= 0 {
        0
    } else {
        let a = max_streak(s, n - 1, win);
        let b = streak_at(s, n - 1, win);
        if a >= b {
            a
        } else {
            b
        }
    }
}

/// One step of the equity curve: the portfolio value `pv` grows by the
/// return `r`; the gain goes to the gross profit, a fall to the gross loss.
pub open spec fn equity_step(state: (Dec, Dec, Dec), r: Dec) -> Option<(Dec, Dec, Dec)> {
    let (pv, gp, gl) = state;
    match sum_of(int_dec(1), r) {
        None => None,
        Some(f) => match product_of(pv, f) {
            None => None,
            Some(c) => if dec_le(pv, c) {
                match difference_of(c, pv) {
                    Some(d) => match sum_of(gp, d) {
                        Some(g) => Some((c, g, gl)),
                        None => None,
                    },
                    None => None,
                }
            } else {
                match difference_of(pv, c) {
                    Some(d) => match sum_of(gl, d) {
                        Some(l) => Some((c, gp, l)),
                        None => None,
                    },
                    None => None,
                }
            },
        },
    }
}

/// The equity curve from a portfolio value of one: the final value, the
/// gross profit and the gross loss.
pub open spec fn equity_of(s: Seq<Dec>) -> Option<(Dec, Dec, Dec)>
    decreases s.len(),
{
    if s.len() == 0 {
        Some((int_dec(1), int_dec(0), int_dec(0)))
    } else {
        match equity_of(s.drop_last()) {
            Some(state) => equity_step(state, s.last()),
            None => None,
        }
    }
}

/// Gross profit over gross loss.
pub open spec fn profit_factor_of(s: Seq<Dec>) -> Result<Dec, CoreError> {
    match equity_of(s) {
        None => Err(CoreError::ArithmeticOverflow),
        Some((_pv, gp, gl)) => if gl.is_zero() {
            Err(CoreError::DivisionByZero)
        } else {
            match quotient_of(gp, gl) {
                Some(q) => Ok(q),
                None => Err(CoreError::ArithmeticOverflow),
            }
        },
    }
}

/// The cumulative return: the final portfolio value minus one.
pub open spec fn total_return_of(s: Seq<Dec>) -> Result<Dec, CoreError> {
    match equity_of(s) {
        None => Err(CoreError::ArithmeticOverflow),
        Some((pv, _gp, _gl)) => match difference_of(pv, int_dec(1)) {
            Some(d) => Ok(d),
            None => Err(CoreError::ArithmeticOverflow),
        },
    }
}

/// One step of the drawdown scan over the state (portfolio value, running
/// peak, largest drawdown so far).
pub open spec fn drawdown_step(state: (Dec, Dec, Dec), r: Dec) -> Result<(Dec, Dec, Dec), CoreError> {
    let (pv, peak, worst) = state;
    match sum_of(int_dec(1), r) {
        None => Err(CoreError::ArithmeticOverflow),
        Some(f) => match product_of(pv, f) {
            None => Err(CoreError::ArithmeticOverflow),
            Some(c) => {
                let top = if dec_lt(peak, c) {
                    c
                } else {
                    peak
                };
                if top.is_zero() {
                    Err(CoreError::DivisionByZero)
                } else {
                    match difference_of(top, c) {
                        None => Err(CoreError::ArithmeticOverflow),
                        Some(d) => match quotient_of(d, top) {
                            None => Err(CoreError::ArithmeticOverflow),
                            Some(dd) => Ok(
                                (
                                    c,
                                    top,
                                    if dec_lt(worst, dd) {
                                        dd
                                    } else {
                                        worst
                                    },
                                ),
                            ),
                        },
                    }
                }
            },
        },
    }
}

/// The drawdown scan over all of `s`, from a value and peak of one.
pub open spec fn drawdown_state(s: Seq<Dec>) -> Result<(Dec, Dec, Dec), CoreError>
    decreases s.len(),
{
    if s.len() == 0 {
        Ok((int_dec(1), int_dec(1), int_dec(0)))
    } else {
        match drawdown_state(s.drop_last()) {
            Ok(state) => drawdown_step(state, s.last()),
            Err(e) => Err(e),
        }
    }
}

/// The largest fall from a running peak of the equity curve, relative to
/// that peak.
pub open spec fn drawdown_of(s: Seq<Dec>) -> Result<Dec, CoreError> {
    match drawdown_state(s) {
        Ok((_pv, _peak, worst)) => Ok(worst),
        Err(e) => Err(e),
    }
}

/// Every return of `s` is zero.
pub open spec fn all_zero(s: Seq<Dec>) -> bool {
    forall|i: int| 0 <= i < s.len() ==> (#[trigger] s[i]).is_zero()
}

/// The summary of a series of trade returns.
pub open spec fn summary_of(s: Seq<Dec>) -> IBackTestingSummary {
    let average_win = mean_of(positives(s), int_dec(positives(s).len() as int));
    let average_losing = mean_of(negatives(s), int_dec(negatives(s).len() as int));
    IBackTestingSummary {
        total_trade: s.len() as u16,
        winning_trade: winners(s).len() as u16,
        losing_trade: negatives(s).len() as u16,
        percent_profitable: percent_of(winners(s).len(), s.len()),
        largest_win: extremes_of(s).0,
        largest_losing: extremes_of(s).1,
        average_win,
        average_losing,
        avg_win_loss_ratio: ratio_of(average_win, average_losing),
        max_consec_win: max_streak(s, s.len() as int, true) as u16,
        max_consec_lose: max_streak(s, s.len() as int, false) as u16,
        profit_factor: profit_factor_of(s),
        maximum_drawdown: drawdown_of(s),
        total_return: total_return_of(s),
    }
}

proof fn lemma_streak_bound(s: Seq<Dec>, i: int, win: bool)
    ensures
        streak_at(s, i, win) <= if i <= 0 {
            0
        } else {
            i
        },
    decreases i,
{
    if i > 0 {
        lemma_streak_bound(s, i - 1, win);
    }
}

/// Counts the wins (at or above zero) and the losses (below zero).
fn count_outcomes(series: &[Dec]) -> (r: (u16, u16))
    requires
        series@.len() <= u16::MAX,
    ensures
        r.0 == winners(series@).len(),
        r.1 == negatives(series@).len(),
{
    let mut wins: u16 = 0;
    let mut losses: u16 = 0;
    let mut i: usize = 0;
    proof {
        reveal(Seq::filter);
        assert(series@.subrange(0, 0) =~= Seq::<Dec>::empty());
    }
    while i < series.len()
        invariant
            i <= series@.len() <= u16::MAX,
            wins + losses == i,
            wins == winners(series@.subrange(0, i as int)).len(),
            losses == negatives(series@.subrange(0, i as int)).len(),
        decreases series@.len() - i,
    {
        proof {
            reveal(Seq::filter);
            assert(series@.subrange(0, i + 1).drop_last() =~= series@.subrange(0, i as int));
            assert(series@.subrange(0, i + 1).last() == series@[i as int]);
        }
        if series[i].negative() {
            losses = losses + 1;
        } else {
            wins = wins + 1;
        }
        i = i + 1;
    }
    assert(series@.subrange(0, series@.len() as int) =~= series@);
    (wins, losses)
}

/// The largest win and largest loss, as the scan of `extremes_of` finds
/// them.
fn largest_win_and_loss(series: &[Dec]) -> (r: (Dec, Dec))
    requires
        all_wf(series@),
    ensures
        r == extremes_of(series@),
{
    let mut largest_win = Dec::zero();
    let mut largest_losing = Dec::zero();
    let mut i: usize = 0;
    assert(series@.subrange(0, 0) =~= Seq::<Dec>::empty());
    while i < series.len()
        invariant
            i <= series@.len(),
            all_wf(series@),
            largest_win.wf(),
            largest_losing.wf(),
            extremes_of(series@.subrange(0, i as int)) == (largest_win, largest_losing),
        decreases series@.len() - i,
    {
        assert(series@.subrange(0, i + 1).drop_last() =~= series@.subrange(0, i as int));
        assert(series@.subrange(0, i + 1).last() == series@[i as int]);
        let value = series[i];
        let above = match compare(value, largest_win) {
            Ordering::Greater => true,
            _ => false,
        };
        if above {
            largest_win = value;
        } else {
            let below = match compare(value, largest_losing) {
                Ordering::Less => true,
                _ => false,
            };
            if below {
                largest_losing = value;
            }
        }
        i = i + 1;
    }
    assert(series@.subrange(0, series@.len() as int) =~= series@);
    (largest_win, largest_losing)
}

/// The average win over the magnitude of the average loss.
fn win_loss_ratio(average_win: Result<Dec, CoreError>, average_losing: Result<Dec, CoreError>) -> (r:
    Result<Dec, CoreError>)
    requires
        average_win matches Ok(w) ==> w.wf(),
        average_losing matches Ok(l) ==> l.wf(),
    ensures
        r == ratio_of(average_win, average_losing),
{
    let w = match average_win {
        Err(e) => {
            return Err(e);
        },
        Ok(w) => w,
    };
    let l = match average_losing {
        Err(e) => {
            return Err(e);
        },
        Ok(l) => l,
    };
    match checked_mul(Dec::negative_one(), l) {
        None => Err(CoreError::ArithmeticOverflow),
        Some(m) => if m.zero_valued() {
            Err(CoreError::DivisionByZero)
        } else {
            match checked_div(w, m) {
                Some(q) => Ok(q),
                None => Err(CoreError::ArithmeticOverflow),
            }
        },
    }
}

/// The longest streak of neighbouring wins (`win`) or losses.
fn longest_streak(series: &[Dec], win: bool) -> (r: u16)
    requires
        series@.len() <= u16::MAX,
    ensures
        r == max_streak(series@, series@.len() as int, win),
{
    let n = series.len();
    if n == 0 {
        return 0;
    }
    let mut consecutive: u16 = 0;
    let mut best: u16 = 0;
    let mut index: usize = 1;
    assert(streak_at(series@, 0, win) == 0);
    assert(max_streak(series@, 0, win) == 0);
    assert(max_streak(series@, 1, win) == 0);
    while index < n
        invariant
            1 <= index <= n == series@.len() <= u16::MAX,
            consecutive == streak_at(series@, index - 1, win),
            best == max_streak(series@, index as int, win),
        decreases n - index,
    {
        proof {
            lemma_streak_bound(series@, index as int, win);
        }
        let same = if win {
            series[index].positive() && series[index - 1].positive()
        } else {
            series[index].negative() && series[index - 1].negative()
        };
        if same {
            consecutive = consecutive + 1;
        } else {
            consecutive = 0;
        }
        if consecutive > best {
            best = consecutive;
        }
        index = index + 1;
    }
    best
}

/// The state of the equity curve after one more return.
fn next_equity(pv: Dec, gp: Dec, gl: Dec, r: Dec) -> (out: Option<(Dec, Dec, Dec)>)
    requires
        pv.wf(),
        gp.wf(),
        gl.wf(),
        r.wf(),
    ensures
        out == equity_step((pv, gp, gl), r),
        out matches Some(t) ==> t.0.wf() && t.1.wf() && t.2.wf(),
        pv == int_dec(1) && gp == int_dec(0) && gl == int_dec(0) && r.is_zero() ==> out == Some(
            (int_dec(1), int_dec(0), int_dec(0)),
        ),
{
    let f = match checked_add(Dec::one(), r) {
        Some(f) => f,
        None => {
            return None;
        },
    };
    let compounded = match checked_mul(pv, f) {
        Some(c) => c,
        None => {
            return None;
        },
    };
    let gained = match compare(compounded, pv) {
        Ordering::Less => false,
        _ => true,
    };
    proof {
        if pv == int_dec(1) && r.is_zero() {
            assert(f == int_dec(1));
            assert(compounded == int_dec(1));
            assert(!dec_lt(compounded, pv));
        }
    }
    if gained {
        match checked_sub(compounded, pv) {
            Some(d) => match checked_add(gp, d) {
                Some(g) => Some((compounded, g, gl)),
                None => None,
            },
            None => None,
        }
    } else {
        match checked_sub(pv, compounded) {
            Some(d) => match checked_add(gl, d) {
                Some(l) => Some((compounded, gp, l)),
                None => None,
            },
            None => None,
        }
    }
}

/// The state of the drawdown scan after one more return.
fn next_drawdown(pv: Dec, peak: Dec, worst: Dec, r: Dec) -> (out: Result<(Dec, Dec, Dec), CoreError>)
    requires
        pv.wf(),
        peak.wf(),
        worst.wf(),
        r.wf(),
    ensures
        out == drawdown_step((pv, peak, worst), r),
        out matches Ok(t) ==> t.0.wf() && t.1.wf() && t.2.wf(),
{
    let f = match checked_add(Dec::one(), r) {
        Some(f) => f,
        None => {
            return Err(CoreError::ArithmeticOverflow);
        },
    };
    let compounded = match checked_mul(pv, f) {
        Some(c) => c,
        None => {
            return Err(CoreError::ArithmeticOverflow);
        },
    };
    let top = match compare(peak, compounded) {
        Ordering::Less => compounded,
        _ => peak,
    };
    if top.zero_valued() {
        return Err(CoreError::DivisionByZero);
    }
    match checked_sub(top, compounded) {
        None => Err(CoreError::ArithmeticOverflow),
        Some(d) => match checked_div(d, top) {
            None => Err(CoreError::ArithmeticOverflow),
            Some(dd) => {
                let next_worst = match compare(worst, dd) {
                    Ordering::Less => dd,
                    _ => worst,
                };
                Ok((compounded, top, next_worst))
            },
        },
    }
}

impl IBackTestingSummary {
    /// A summary with every count and value at zero.
    pub fn new() -> (r: IBackTestingSummary)
        ensures
            r.total_trade == 0 && r.winning_trade == 0 && r.losing_trade == 0,
            r.percent_profitable == Ok::<Dec, CoreError>(int_dec(0)),
            r.largest_win == int_dec(0) && r.largest_losing == int_dec(0),
            r.average_win == Ok::<Dec, CoreError>(int_dec(0)),
            r.average_losing == Ok::<Dec, CoreError>(int_dec(0)),
            r.avg_win_loss_ratio == Ok::<Dec, CoreError>(int_dec(0)),
            r.max_consec_win == 0 && r.max_consec_lose == 0,
            r.profit_factor == Ok::<Dec, CoreError>(int_dec(0)),
            r.maximum_drawdown == Ok::<Dec, CoreError>(int_dec(0)),
            r.total_return == Ok::<Dec, CoreError>(int_dec(0)),
    {
        IBackTestingSummary {
            total_trade: 0,
            winning_trade: 0,
            losing_trade: 0,
            percent_profitable: Ok(Dec::zero()),
            largest_win: Dec::zero(),
            largest_losing: Dec::zero(),
            average_win: Ok(Dec::zero()),
            average_losing: Ok(Dec::zero()),
            avg_win_loss_ratio: Ok(Dec::zero()),
            max_consec_win: 0,
            max_consec_lose: 0,
            profit_factor: Ok(Dec::zero()),
            maximum_drawdown: Ok(Dec::zero()),
            total_return: Ok(Dec::zero()),
        }
    }

    /// The number of trades.
    pub fn get_total_trade(series: &[Dec]) -> (r: u16)
        requires
            series@.len() <= u16::MAX,
        ensures
            r == series@.len(),
    {
        series.len() as u16
    }

    /// The share of winning trades. Fails with `DivisionByZero` when there
    /// is no trade.
    pub fn get_percent_profitable(&self) -> (r: Result<Dec, CoreError>)
        ensures
            r == percent_of(self.winning_trade as nat, self.total_trade as nat),
    {
        if self.total_trade == 0 {
            return Err(CoreError::DivisionByZero);
        }
        match checked_div(
            Dec::from_u64(self.winning_trade as u64),
            Dec::from_u64(self.total_trade as u64),
        ) {
            Some(q) => Ok(q),
            None => Err(CoreError::ArithmeticOverflow),
        }
    }

    /// The longest run of neighbouring pairs of returns that are both above
    /// zero.
    pub fn get_max_consective_win(series: &[Dec]) -> (r: u16)
        requires
            series@.len() <= u16::MAX,
        ensures
            r == max_streak(series@, series@.len() as int, true),
    {
        longest_streak(series, true)
    }

    /// The longest run of neighbouring pairs of returns that are both below
    /// zero.
    pub fn get_max_consecutive_loss(series: &[Dec]) -> (r: u16)
        requires
            series@.len() <= u16::MAX,
        ensures
            r == max_streak(series@, series@.len() as int, false),
    {
        longest_streak(series, false)
    }

    /// The final portfolio value, gross profit and gross loss of the equity
    /// curve from a value of one.
    pub fn get_pv_gp_gl(series: &[Dec]) -> (r: Result<[Dec; 3], CoreError>)
        requires
            all_wf(series@),
        ensures
            match r {
                Ok(a) => equity_of(series@) == Some((a[0], a[1], a[2])),
                Err(e) => e == CoreError::ArithmeticOverflow && equity_of(series@) is None,
            },
            r matches Ok(a) ==> a[0].wf() && a[1].wf() && a[2].wf(),
            all_zero(series@) ==> (r matches Ok(a) && a[0] == int_dec(1) && a[1] == int_dec(0)
                && a[2] == int_dec(0)),
    {
        let mut portfolio_value = Dec::one();
        let mut gross_profit = Dec::zero();
        let mut gross_loss = Dec::zero();
        let mut i: usize = 0;
        assert(series@.subrange(0, 0) =~= Seq::<Dec>::empty());
        while i < series.len()
            invariant
                i <= series@.len(),
                all_wf(series@),
                portfolio_value.wf(),
                gross_profit.wf(),
                gross_loss.wf(),
                equity_of(series@.subrange(0, i as int)) == Some(
                    (portfolio_value, gross_profit, gross_loss),
                ),
                all_zero(series@) ==> portfolio_value == int_dec(1) && gross_profit == int_dec(0)
                    && gross_loss == int_dec(0),
            decreases series@.len() - i,
        {
            assert(series@.subrange(0, i + 1).drop_last() =~= series@.subrange(0, i as int));
            assert(series@.subrange(0, i + 1).last() == series@[i as int]);
            match next_equity(portfolio_value, gross_profit, gross_loss, series[i]) {
                Some((pv, gp, gl)) => {
                    portfolio_value = pv;
                    gross_profit = gp;
                    gross_loss = gl;
                },
                None => {
                    proof {
                        lemma_equity_none_extends(series@, i + 1);
                    }
                    return Err(CoreError::ArithmeticOverflow);
                },
            }
            i = i + 1;
        }
        assert(series@.subrange(0, series@.len() as int) =~= series@);
        Ok([portfolio_value, gross_profit, gross_loss])
    }

    /// The largest drawdown of the equity curve: the fall from the running
    /// peak relative to that peak.
    pub fn get_maximum_drawdown(series: &[Dec]) -> (r: Result<Dec, CoreError>)
        requires
            all_wf(series@),
        ensures
            r == drawdown_of(series@),
    {
        let mut portfolio_value = Dec::one();
        let mut peak = Dec::one();
        let mut worst = Dec::zero();
        let mut i: usize = 0;
        assert(series@.subrange(0, 0) =~= Seq::<Dec>::empty());
        while i < series.len()
            invariant
                i <= series@.len(),
                all_wf(series@),
                portfolio_value.wf(),
                peak.wf(),
                worst.wf(),
                drawdown_state(series@.subrange(0, i as int)) == Ok::<(Dec, Dec, Dec), CoreError>(
                    (portfolio_value, peak, worst),
                ),
            decreases series@.len() - i,
        {
            assert(series@.subrange(0, i + 1).drop_last() =~= series@.subrange(0, i as int));
            assert(series@.subrange(0, i + 1).last() == series@[i as int]);
            match next_drawdown(portfolio_value, peak, worst, series[i]) {
                Ok((pv, p, w)) => {
                    portfolio_value = pv;
                    peak = p;
                    worst = w;
                },
                Err(e) => {
                    proof {
                        lemma_drawdown_err_extends(series@, i + 1);
                    }
                    return Err(e);
                },
            }
            i = i + 1;
        }
        assert(series@.subrange(0, series@.len() as int) =~= series@);
        Ok(worst)
    }

    /// The summary of the closed trades of `result`. Fails only where their
    /// returns cannot be computed; each statistic that is undefined for
    /// these trades holds its own error.
    pub fn calculate(result: &IBackTestingResult) -> (r: Result<IBackTestingSummary, CoreError>)
        requires
            events_wf(result.result@),
            closed_count(result.result@) <= u16::MAX,
        ensures
            match r {
                Ok(s) => trade_returns_of(result.result@) matches Ok(rs) && s == summary_of(rs),
                Err(e) => trade_returns_of(result.result@) == Err::<Seq<Dec>, CoreError>(e),
            },
    {
        let series = match result.get_return() {
            Ok(v) => v,
            Err(e) => {
                return Err(e);
            },
        };
        Ok(IBackTestingSummary::summarize(series.as_slice()))
    }

    /// The summary of a series of trade returns.
    pub fn summarize(series: &[Dec]) -> (r: IBackTestingSummary)
        requires
            all_wf(series@),
            series@.len() <= u16::MAX,
        ensures
            r == summary_of(series@),
            all_zero(series@) ==> r.total_return == Ok::<Dec, CoreError>(int_dec(0))
                && r.profit_factor == Err::<Dec, CoreError>(CoreError::DivisionByZero),
    {
        let mut summary = IBackTestingSummary::new();
        summary.total_trade = IBackTestingSummary::get_total_trade(series);
        let (wins, losses) = count_outcomes(series);
        summary.winning_trade = wins;
        summary.losing_trade = losses;
        let (largest_win, largest_losing) = largest_win_and_loss(series);
        summary.largest_win = largest_win;
        summary.largest_losing = largest_losing;
        summary.percent_profitable = summary.get_percent_profitable();

        let positive_return = positive_values(series);
        let negative_return = negative_values(series);
        let average_win = mean(
            positive_return.as_slice(),
            &Dec::from_u64(positive_return.len() as u64),
        );
        let average_losing = mean(
            negative_return.as_slice(),
            &Dec::from_u64(negative_return.len() as u64),
        );
        summary.average_win = average_win;
        summary.average_losing = average_losing;
        summary.avg_win_loss_ratio = win_loss_ratio(average_win, average_losing);

        summary.max_consec_win = IBackTestingSummary::get_max_consective_win(series);
        summary.max_consec_lose = IBackTestingSummary::get_max_consecutive_loss(series);

        match IBackTestingSummary::get_pv_gp_gl(series) {
            Ok(a) => {
                let portfolio_value = a[0];
                let gross_profit = a[1];
                let gross_loss = a[2];
                summary.profit_factor = if gross_loss.zero_valued() {
                    Err(CoreError::DivisionByZero)
                } else {
                    match checked_div(gross_profit, gross_loss) {
                        Some(q) => Ok(q),
                        None => Err(CoreError::ArithmeticOverflow),
                    }
                };
                summary.total_return = match checked_sub(portfolio_value, Dec::one()) {
                    Some(d) => Ok(d),
                    None => Err(CoreError::ArithmeticOverflow),
                };
            },
            Err(e) => {
                summary.profit_factor = Err(e);
                summary.total_return = Err(e);
            },
        }
        summary.maximum_drawdown = IBackTestingSummary::get_maximum_drawdown(series);
        summary
    }
}

/// Once the equity curve overflows, it does for the whole series.
proof fn lemma_equity_none_extends(s: Seq<Dec>, k: int)
    requires
        0 <= k <= s.len(),
        equity_of(s.subrange(0, k)) is None,
    ensures
        equity_of(s) is None,
    decreases s.len() - k,
{
    if k < s.len() {
        assert(s.subrange(0, k + 1).drop_last() =~= s.subrange(0, k));
        lemma_equity_none_extends(s, k + 1);
    } else {
        assert(s.subrange(0, k) =~= s);
    }
}

/// Once the drawdown scan fails, it fails with that error for the whole
/// series.
proof fn lemma_drawdown_err_extends(s: Seq<Dec>, k: int)
    requires
        0 <= k <= s.len(),
        drawdown_state(s.subrange(0, k)) is Err,
    ensures
        drawdown_state(s) == drawdown_state(s.subrange(0, k)),
    decreases s.len() - k,
{
    if k < s.len() {
        assert(s.subrange(0, k + 1).drop_last() =~= s.subrange(0, k));
        lemma_drawdown_err_extends(s, k + 1);
    } else {
        assert(s.subrange(0, k) =~= s);
    }
}

/// Computing an indicator or a summary twice on the same input gives
/// identical results, to the representation of every decimal: each is a
/// function of its input alone.
pub proof fn lemma_recompute_identical(
    prices: Seq<Dec>,
    period: nat,
    series: Seq<Dec>,
    first: (Result<Seq<Dec>, CoreError>, Result<Seq<Dec>, CoreError>, IBackTestingSummary),
    second: (Result<Seq<Dec>, CoreError>, Result<Seq<Dec>, CoreError>, IBackTestingSummary),
)
    requires
        first == (sma_of(prices, period), ema_of(prices, period), summary_of(series)),
        second == (sma_of(prices, period), ema_of(prices, period), summary_of(series)),
    ensures
        first == second,
{
}

} // verus!
