use crate::decimal::{all_wf, Dec};
use crate::error::CoreError;
use crate::backtest::summary::{summary_of, IBackTestingSummary};
use crate::price_manipulation::return_series::{
    average_return_of, get_average_return, get_return, period_returns_of,
};
use crate::ta_rs::cdc_action_zone::{cdc_of, get_cdc_action_zone};
use crate::ta_rs::ma::{get_ma_cross, ma_cross_of};
use crate::utils::{change, change_of};
use vstd::prelude::*;

pub mod summary;

verus! {

/// Period of the fast simple average of the moving-average cross strategy.
pub const MA_FAST_PERIOD: u32 = 14;

/// Period of the slow simple average of the moving-average cross strategy.
pub const MA_SLOW_PERIOD: u32 = 26;

/// What a backtest is asked for: the coin and a period.
pub struct IBackTestingParams<'a> {
    pub coin_id: &'a str,
    pub period: u32,
}

/// One value for each of the two strategies.
#[derive(Debug)]
pub struct IBackTestingIndicator<T> {
    pub cdc: T,
    pub ma_cross: T,
}

/// The series a backtest starts from: the prices, their per-period returns
/// and the indicators of both strategies.
pub struct IPreBacktesting<T, K> {
    pub prices: Vec<T>,
    pub period_returns: Vec<T>,
    pub indicators: IBackTestingIndicator<K>,
}

/// Whether a trade event opens or closes a long position.
#[derive(Clone, Copy, Debug, PartialEq, Eq, Structural)]
pub enum POSITION {
    Long,
    Close,
}

/// One trade event: an action and the price it was taken at.
#[derive(Clone, Copy, Debug, PartialEq, Eq, Structural)]
pub struct IBackTestingSingleResult {
    pub action: POSITION,
    pub price: Dec,
}

/// The trade events of a backtest, in the order they were emitted.
#[derive(Debug)]
pub struct IBackTestingResult {
    pub result: Vec<IBackTestingSingleResult>,
}

/// One closed trade: its entry and closing prices and its return.
#[derive(Clone, Copy, Debug, PartialEq, Eq, Structural)]
pub struct IBacktestingReturn {
    pub entry: Dec,
    pub closing: Dec,
    pub return_rate: Dec,
}

/// A long position is open after `events`.
pub open spec fn holding(events: Seq<IBackTestingSingleResult>) -> bool {
    events.len() > 0 && events.last().action == POSITION::Long
}

/// The events emitted while scanning the first `n` values of a cross
/// series: a `Long` where the series turns from negative to positive while
/// no position is open, a `Close` where it turns from positive to negative
/// while one is. The price of an event at index `i` is `prices[i + gap]`.
pub open spec fn positions_of(cross: Seq<Dec>, prices: Seq<Dec>, gap: int, n: nat) -> Seq<
    IBackTestingSingleResult,
>
    decreases n,
{
    if n <= 1 {
        Seq::empty()
    } else {
        let prev = positions_of(cross, prices, gap, (n - 1) as nat);
        let i = n - 1;
        if cross[i].is_pos() && cross[i - 1].is_neg() && !holding(prev) {
            prev.push(IBackTestingSingleResult { action: POSITION::Long, price: prices[i + gap] })
        } else if cross[i].is_neg() && cross[i - 1].is_pos() && holding(prev) {
            prev.push(IBackTestingSingleResult { action: POSITION::Close, price: prices[i + gap] })
        } else {
            prev
        }
    }
}

/// Events alternate `Long`, `Close`, `Long`, ... starting with `Long`.
pub open spec fn alternating(events: Seq<IBackTestingSingleResult>) -> bool {
    forall|i: int|
        0 <= i < events.len() ==> (#[trigger] events[i]).action == if i % 2 == 0 {
            POSITION::Long
        } else {
            POSITION::Close
        }
}

/// Every price of `events` is well formed.
pub open spec fn events_wf(events: Seq<IBackTestingSingleResult>) -> bool {
    forall|i: int| 0 <= i < events.len() ==> (#[trigger] events[i]).price.wf()
}

/// The closed trades of `events`: each `Close` that directly follows a
/// `Long` pairs with it; the return is the change from entry to closing.
/// A `Long` left open at the end pairs with nothing.
pub open spec fn trades_of(events: Seq<IBackTestingSingleResult>) -> Result<
    Seq<IBacktestingReturn>,
    CoreError,
>
    decreases events.len(),
{
    if events.len() == 0 {
        Ok(Seq::empty())
    } else {
        match trades_of(events.drop_last()) {
            Ok(s) => {
                let n = events.len();
                if events[n - 1].action == POSITION::Close && n >= 2 && events[n - 2].action
                    == POSITION::Long {
                    let entry = events[n - 2].price;
                    let closing = events[n - 1].price;
                    match change_of(entry, closing) {
                        Ok(q) => Ok(s.push(IBacktestingReturn { entry, closing, return_rate: q })),
                        Err(e) => Err(e),
                    }
                } else {
                    Ok(s)
                }
            },
            Err(e) => Err(e),
        }
    }
}

/// The number of `Close` events that directly follow a `Long`: the trades
/// that pairing closes.
pub open spec fn closed_count(events: Seq<IBackTestingSingleResult>) -> nat
    decreases events.len(),
{
    if events.len() == 0 {
        0
    } else {
        let n = events.len();
        let prev = closed_count(events.drop_last());
        if events[n - 1].action == POSITION::Close && n >= 2 && events[n - 2].action
            == POSITION::Long {
            prev + 1
        } else {
            prev
        }
    }
}

/// The returns of the closed trades of `events`, in order.
pub open spec fn trade_returns_of(events: Seq<IBackTestingSingleResult>) -> Result<
    Seq<Dec>,
    CoreError,
> {
    match trades_of(events) {
        Ok(s) => Ok(s.map_values(|t: IBacktestingReturn| t.return_rate)),
        Err(e) => Err(e),
    }
}

/// The returns above zero.
pub open spec fn positives(s: Seq<Dec>) -> Seq<Dec> {
    s.filter(|d: Dec| d.mantissa > 0)
}

/// The returns below zero.
pub open spec fn negatives(s: Seq<Dec>) -> Seq<Dec> {
    s.filter(|d: Dec| d.mantissa < 0)
}

/// The scan keeps events alternating, starting with `Long`.
proof fn lemma_positions_alternate(cross: Seq<Dec>, prices: Seq<Dec>, gap: int, n: nat)
    ensures
        alternating(positions_of(cross, prices, gap, n)),
        holding(positions_of(cross, prices, gap, n)) == (positions_of(cross, prices, gap, n).len()
            % 2 == 1),
    decreases n,
{
    if n > 1 {
        lemma_positions_alternate(cross, prices, gap, (n - 1) as nat);
        let prev = positions_of(cross, prices, gap, (n - 1) as nat);
        let cur = positions_of(cross, prices, gap, n);
        assert forall|i: int| 0 <= i < cur.len() implies (#[trigger] cur[i]).action == if i % 2
            == 0 {
            POSITION::Long
        } else {
            POSITION::Close
        } by {
            if i < prev.len() {
                assert(cur[i] == prev[i]);
            }
        }
    }
}

/// Every event that the scan emits is a `Long` and a `Close` in turn,
/// starting with `Long`: no `Close` without an open `Long`, never two
/// `Long`s in a row.
pub proof fn lemma_positions_strictly_alternate(
    cross: Seq<Dec>,
    prices: Seq<Dec>,
    gap: int,
    n: nat,
)
    ensures
        alternating(positions_of(cross, prices, gap, n)),
{
    lemma_positions_alternate(cross, prices, gap, n);
}

/// The scan never emits more events than the values it reads.
proof fn lemma_positions_length(cross: Seq<Dec>, prices: Seq<Dec>, gap: int, n: nat)
    ensures
        positions_of(cross, prices, gap, n).len() <= n,
    decreases n,
{
    if n > 1 {
        lemma_positions_length(cross, prices, gap, (n - 1) as nat);
    }
}

impl IBackTestingIndicator<Dec> {
    /// Scans a cross series from its second value on and emits the trade
    /// events of a long-only strategy. `gap` is the offset of the cross
    /// series in the price series.
    pub fn get_positions(indicator: Vec<Dec>, prices: &[Dec], gap: usize) -> (r:
        IBackTestingResult)
        requires
            indicator@.len() + gap <= prices@.len(),
            all_wf(prices@),
        ensures
            r.result@ == positions_of(indicator@, prices@, gap as int, indicator@.len()),
            alternating(r.result@),
            events_wf(r.result@),
            r.result@.len() <= indicator@.len(),
    {
        let mut positions = IBackTestingResult { result: Vec::new() };
        let n = indicator.len();
        if n == 0 {
            assert(positions.result@ =~= positions_of(indicator@, prices@, gap as int, 0));
            return positions;
        }
        let plen = prices.len();
        let mut index: usize = 1;
        let mut is_holding = false;
        while index < n
            invariant
                n == indicator@.len(),
                n + gap <= prices@.len(),
                plen == prices@.len(),
                1 <= index <= n,
                all_wf(prices@),
                events_wf(positions.result@),
                positions.result@ == positions_of(indicator@, prices@, gap as int, index as nat),
                is_holding == holding(positions.result@),
            decreases n - index,
        {
            let cur = indicator[index];
            let prev = indicator[index - 1];
            if cur.positive() && prev.negative() && !is_holding {
                positions.result.push(
                    IBackTestingSingleResult { action: POSITION::Long, price: prices[index + gap] },
                );
                is_holding = true;
            } else if cur.negative() && prev.positive() && is_holding {
                positions.result.push(
                    IBackTestingSingleResult { action: POSITION::Close, price: prices[index + gap] },
                );
                is_holding = false;
            }
            index = index + 1;
        }
        proof {
            lemma_positions_alternate(indicator@, prices@, gap as int, n as nat);
            lemma_positions_length(indicator@, prices@, gap as int, n as nat);
        }
        positions
    }
}

/// Pairing yields one trade per `Close` that follows a `Long`, and never
/// more trades than events.
proof fn lemma_trades_length(events: Seq<IBackTestingSingleResult>)
    requires
        trades_of(events) is Ok,
    ensures
        trades_of(events)->Ok_0.len() == closed_count(events),
        closed_count(events) <= events.len(),
    decreases events.len(),
{
    if events.len() > 0 {
        lemma_trades_length(events.drop_last());
    }
}

/// Once pairing fails, it fails with that error for every longer prefix.
proof fn lemma_trades_err_extends(events: Seq<IBackTestingSingleResult>, k: int)
    requires
        0 <= k <= events.len(),
        trades_of(events.subrange(0, k)) is Err,
    ensures
        trades_of(events) == trades_of(events.subrange(0, k)),
    decreases events.len() - k,
{
    if k < events.len() {
        assert(events.subrange(0, k + 1).drop_last() =~= events.subrange(0, k));
        lemma_trades_err_extends(events, k + 1);
    } else {
        assert(events.subrange(0, k) =~= events);
    }
}

/// Keeps the values of `s` that are above zero.
pub(crate) fn positive_values(s: &[Dec]) -> (r: Vec<Dec>)
    requires
        all_wf(s@),
    ensures
        r@ == positives(s@),
        all_wf(r@),
{
    let mut out: Vec<Dec> = Vec::new();
    let mut i: usize = 0;
    proof {
        reveal(Seq::filter);
        assert(s@.subrange(0, 0) =~= Seq::<Dec>::empty());
    }
    while i < s.len()
        invariant
            i <= s@.len(),
            all_wf(s@),
            all_wf(out@),
            out@ == positives(s@.subrange(0, i as int)),
        decreases s@.len() - i,
    {
        proof {
            reveal(Seq::filter);
            assert(s@.subrange(0, i + 1).drop_last() =~= s@.subrange(0, i as int));
            assert(s@.subrange(0, i + 1).last() == s@[i as int]);
        }
        if s[i].positive() {
            out.push(s[i]);
        }
        i = i + 1;
    }
    assert(s@.subrange(0, s@.len() as int) =~= s@);
    out
}

/// Keeps the values of `s` that are below zero.
pub(crate) fn negative_values(s: &[Dec]) -> (r: Vec<Dec>)
    requires
        all_wf(s@),
    ensures
        r@ == negatives(s@),
        all_wf(r@),
{
    let mut out: Vec<Dec> = Vec::new();
    let mut i: usize = 0;
    proof {
        reveal(Seq::filter);
        assert(s@.subrange(0, 0) =~= Seq::<Dec>::empty());
    }
    while i < s.len()
        invariant
            i <= s@.len(),
            all_wf(s@),
            all_wf(out@),
            out@ == negatives(s@.subrange(0, i as int)),
        decreases s@.len() - i,
    {
        proof {
            reveal(Seq::filter);
            assert(s@.subrange(0, i + 1).drop_last() =~= s@.subrange(0, i as int));
            assert(s@.subrange(0, i + 1).last() == s@[i as int]);
        }
        if s[i].negative() {
            out.push(s[i]);
        }
        i = i + 1;
    }
    assert(s@.subrange(0, s@.len() as int) =~= s@);
    out
}

impl IBackTestingResult {
    /// The prices of all events, in order.
    pub fn get_price(&self) -> (r: Vec<Dec>)
        ensures
            r@ == self.result@.map_values(|e: IBackTestingSingleResult| e.price),
    {
        let mut out: Vec<Dec> = Vec::new();
        let mut i: usize = 0;
        while i < self.result.len()
            invariant
                i <= self.result@.len(),
                out@ =~= self.result@.subrange(0, i as int).map_values(
                    |e: IBackTestingSingleResult| e.price,
                ),
            decreases self.result@.len() - i,
        {
            out.push(self.result[i].price);
            i = i + 1;
        }
        assert(self.result@.subrange(0, i as int) =~= self.result@);
        out
    }

    /// Pairs each `Close` with the `Long` right before it and computes the
    /// return of the trade. Fails with `DivisionByZero` on a zero entry
    /// price.
    pub fn get_entry_and_close(&self) -> (r: Result<Vec<IBacktestingReturn>, CoreError>)
        requires
            events_wf(self.result@),
        ensures
            match r {
                Ok(v) => trades_of(self.result@) == Ok::<Seq<IBacktestingReturn>, CoreError>(v@),
                Err(e) => trades_of(self.result@) == Err::<Seq<IBacktestingReturn>, CoreError>(e),
            },
            r matches Ok(v) ==> v@.len() == closed_count(self.result@) && v@.len()
                <= self.result@.len() && forall|i: int|
                0 <= i < v@.len() ==> (#[trigger] v@[i]).return_rate.wf(),
    {
        let events = &self.result;
        let mut store: Vec<IBacktestingReturn> = Vec::new();
        let mut i: usize = 0;
        while i < events.len()
            invariant
                i <= events@.len(),
                events@ == self.result@,
                events_wf(events@),
                forall|j: int| 0 <= j < store@.len() ==> (#[trigger] store@[j]).return_rate.wf(),
                trades_of(events@.subrange(0, i as int)) == Ok::<
                    Seq<IBacktestingReturn>,
                    CoreError,
                >(store@),
            decreases events@.len() - i,
        {
            let ghost pre = events@.subrange(0, i + 1);
            assert(pre.drop_last() =~= events@.subrange(0, i as int));
            assert(pre.len() == i + 1);
            assert(pre[i as int] == events@[i as int]);
            assert(i >= 1 ==> pre[i - 1] == events@[i - 1]);
            if i >= 1 && events[i].action == POSITION::Close && events[i - 1].action
                == POSITION::Long {
                let entry = events[i - 1].price;
                let closing = events[i].price;
                match change(entry, closing) {
                    Ok(q) => {
                        store.push(IBacktestingReturn { entry, closing, return_rate: q });
                    },
                    Err(e) => {
                        proof {
                            lemma_trades_err_extends(events@, i + 1);
                        }
                        return Err(e);
                    },
                }
            }
            i = i + 1;
        }
        proof {
            assert(events@.subrange(0, i as int) =~= events@);
            lemma_trades_length(events@);
        }
        Ok(store)
    }

    /// The returns of the closed trades, in order.
    pub fn get_return(&self) -> (r: Result<Vec<Dec>, CoreError>)
        requires
            events_wf(self.result@),
        ensures
            match r {
                Ok(v) => trade_returns_of(self.result@) == Ok::<Seq<Dec>, CoreError>(v@),
                Err(e) => trade_returns_of(self.result@) == Err::<Seq<Dec>, CoreError>(e),
            },
            r matches Ok(v) ==> all_wf(v@) && v@.len() == closed_count(self.result@),
    {
        let entry_and_close = match self.get_entry_and_close() {
            Ok(v) => v,
            Err(e) => {
                return Err(e);
            },
        };
        let mut out: Vec<Dec> = Vec::new();
        let mut i: usize = 0;
        while i < entry_and_close.len()
            invariant
                i <= entry_and_close@.len(),
                forall|j: int|
                    0 <= j < entry_and_close@.len() ==> (#[trigger] entry_and_close@[j]).return_rate.wf(),
                all_wf(out@),
                out@ =~= entry_and_close@.subrange(0, i as int).map_values(
                    |t: IBacktestingReturn| t.return_rate,
                ),
            decreases entry_and_close@.len() - i,
        {
            out.push(entry_and_close[i].return_rate);
            i = i + 1;
        }
        assert(entry_and_close@.subrange(0, i as int) =~= entry_and_close@);
        Ok(out)
    }

    /// The number of trades that pairing closes: each `Close` directly after
    /// a `Long`.
    pub fn closed_trade_count(&self) -> (r: usize)
        ensures
            r == closed_count(self.result@),
    {
        let mut count: usize = 0;
        let mut i: usize = 0;
        assert(self.result@.subrange(0, 0) =~= Seq::<IBackTestingSingleResult>::empty());
        while i < self.result.len()
            invariant
                i <= self.result@.len(),
                count <= i,
                count == closed_count(self.result@.subrange(0, i as int)),
            decreases self.result@.len() - i,
        {
            let ghost pre = self.result@.subrange(0, i + 1);
            assert(pre.drop_last() =~= self.result@.subrange(0, i as int));
            assert(pre[i as int] == self.result@[i as int]);
            assert(i >= 1 ==> pre[i - 1] == self.result@[i - 1]);
            if i >= 1 && self.result[i].action == POSITION::Close && self.result[i - 1].action
                == POSITION::Long {
                count = count + 1;
            }
            i = i + 1;
        }
        assert(self.result@.subrange(0, i as int) =~= self.result@);
        count
    }

    /// The mean return of the closed trades. Fails with `EmptySeries` when
    /// there is none.
    pub fn get_average_return(&self) -> (r: Result<Dec, CoreError>)
        requires
            events_wf(self.result@),
        ensures
            match trade_returns_of(self.result@) {
                Ok(s) => r == average_return_of(s),
                Err(e) => r == Err::<Dec, CoreError>(e),
            },
    {
        match self.get_return() {
            Ok(v) => get_average_return(v.as_slice()),
            Err(e) => Err(e),
        }
    }

    /// The summary statistics of the closed trades.
    pub fn get_summary(&self) -> (r: Result<IBackTestingSummary, CoreError>)
        requires
            events_wf(self.result@),
            closed_count(self.result@) <= u16::MAX,
        ensures
            match r {
                Ok(s) => trade_returns_of(self.result@) matches Ok(rs) && s == summary_of(rs),
                Err(e) => trade_returns_of(self.result@) == Err::<Seq<Dec>, CoreError>(e),
            },
    {
        IBackTestingSummary::calculate(self)
    }

    /// The returns of the closed trades that are above zero.
    pub fn filter_positive_return(&self) -> (r: Result<Vec<Dec>, CoreError>)
        requires
            events_wf(self.result@),
        ensures
            match r {
                Ok(v) => trade_returns_of(self.result@) matches Ok(s) && v@ == positives(s),
                Err(e) => trade_returns_of(self.result@) == Err::<Seq<Dec>, CoreError>(e),
            },
    {
        match self.get_return() {
            Ok(v) => Ok(positive_values(v.as_slice())),
            Err(e) => Err(e),
        }
    }

    /// The returns of the closed trades that are below zero.
    pub fn filter_negative_return(&self) -> (r: Result<Vec<Dec>, CoreError>)
        requires
            events_wf(self.result@),
        ensures
            match r {
                Ok(v) => trade_returns_of(self.result@) matches Ok(s) && v@ == negatives(s),
                Err(e) => trade_returns_of(self.result@) == Err::<Seq<Dec>, CoreError>(e),
            },
    {
        match self.get_return() {
            Ok(v) => Ok(negative_values(v.as_slice())),
            Err(e) => Err(e),
        }
    }
}

/// The per-period returns, the action zone and the moving-average cross
/// of a price series, or the first error among them.
pub open spec fn pre_backtest_of(prices: Seq<Dec>) -> Result<(Seq<Dec>, Seq<Dec>, Seq<Dec>), CoreError> {
    match period_returns_of(prices) {
        Err(e) => Err(e),
        Ok(r) => match cdc_of(prices) {
            Err(e) => Err(e),
            Ok(c) => match ma_cross_of(prices, MA_FAST_PERIOD as nat, MA_SLOW_PERIOD as nat) {
                Err(e) => Err(e),
                Ok(m) => Ok((r, c, m)),
            },
        },
    }
}

/// Computes what both strategies start from.
pub fn pre_backtest(prices: Vec<Dec>) -> (r: Result<IPreBacktesting<Dec, Vec<Dec>>, CoreError>)
    requires
        all_wf(prices@),
    ensures
        match r {
            Ok(pre) => pre.prices@ == prices@ && pre_backtest_of(prices@) == Ok::<
                (Seq<Dec>, Seq<Dec>, Seq<Dec>),
                CoreError,
            >((pre.period_returns@, pre.indicators.cdc@, pre.indicators.ma_cross@)),
            Err(e) => pre_backtest_of(prices@) == Err::<(Seq<Dec>, Seq<Dec>, Seq<Dec>), CoreError>(e),
        },
        r matches Ok(pre) ==> all_wf(pre.indicators.cdc@) && all_wf(pre.indicators.ma_cross@)
            && pre.indicators.cdc@.len() <= prices@.len() && pre.indicators.ma_cross@.len()
            <= prices@.len(),
{
    let period_returns = match get_return(prices.as_slice()) {
        Ok(v) => v,
        Err(e) => {
            return Err(e);
        },
    };
    let cdc = match get_cdc_action_zone(prices.as_slice()) {
        Ok(v) => v,
        Err(e) => {
            return Err(e);
        },
    };
    let ma_cross = match get_ma_cross(prices.as_slice(), MA_FAST_PERIOD, MA_SLOW_PERIOD) {
        Ok(v) => v,
        Err(e) => {
            return Err(e);
        },
    };
    Ok(IPreBacktesting { prices, period_returns, indicators: IBackTestingIndicator { cdc, ma_cross } })
}

/// Runs both strategies over a price series: the trade events of the action
/// zone and of the moving-average cross, each read at prices aligned by the
/// offset of its indicator. Fails with the error of either indicator.
pub fn backtest_prices(prices: Vec<Dec>) -> (r: Result<IBackTestingIndicator<IBackTestingResult>, CoreError>)
    requires
        all_wf(prices@),
    ensures
        match r {
            Ok(out) => cdc_of(prices@) matches Ok(c) && ma_cross_of(
                prices@,
                MA_FAST_PERIOD as nat,
                MA_SLOW_PERIOD as nat,
            ) matches Ok(m) && out.cdc.result@ == positions_of(
                c,
                prices@,
                prices@.len() - c.len(),
                c.len(),
            ) && out.ma_cross.result@ == positions_of(m, prices@, prices@.len() - m.len(), m.len()),
            Err(e) => match cdc_of(prices@) {
                Err(c) => e == c,
                Ok(_) => ma_cross_of(prices@, MA_FAST_PERIOD as nat, MA_SLOW_PERIOD as nat) == Err::<
                    Seq<Dec>,
                    CoreError,
                >(e),
            },
        },
{
    let cdc = match get_cdc_action_zone(prices.as_slice()) {
        Ok(v) => v,
        Err(e) => {
            return Err(e);
        },
    };
    let ma_cross = match get_ma_cross(prices.as_slice(), MA_FAST_PERIOD, MA_SLOW_PERIOD) {
        Ok(v) => v,
        Err(e) => {
            return Err(e);
        },
    };
    let cdc_gap = prices.len() - cdc.len();
    let ma_gap = prices.len() - ma_cross.len();
    let cdc = IBackTestingIndicator::get_positions(cdc, prices.as_slice(), cdc_gap);
    let ma_cross = IBackTestingIndicator::get_positions(ma_cross, prices.as_slice(), ma_gap);
    Ok(IBackTestingIndicator { cdc, ma_cross })
}

} // verus!
