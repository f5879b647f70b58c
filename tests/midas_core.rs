use midas_core::backtest::summary::IBackTestingSummary;
use midas_core::backtest::{
    backtest_prices, pre_backtest, IBackTestingIndicator, IBackTestingResult,
    IBackTestingSingleResult, POSITION,
};
use midas_core::decimal::Dec;
use midas_core::error::CoreError;
use midas_core::get_price::historical_price::IHistoricalResponse;
use midas_core::price_manipulation::return_series::{get_average_return, get_return};
use midas_core::price_manipulation::risks::{get_variance, get_volatility};
use midas_core::risk_management::risk_reward_ratio::{calculate_risk_reward, IRiskRewardParams};
use midas_core::ta_rs::cdc_action_zone::get_cdc_action_zone;
use midas_core::ta_rs::ma::{
    exponential_moving_average, get_ma_cross, simple_moving_average, IMAParams,
};
use midas_core::utils::{
    calculate_return, create_indicator_cross_vec, mean, median, remove_same_values_in_slice,
};
use rust_decimal::prelude::MathematicalOps;
use rust_decimal::Decimal;

fn dec(s: &str) -> Dec {
    let d = Decimal::from_str_exact(s).unwrap();
    Dec { mantissa: d.mantissa(), scale: d.scale() }
}

fn decs(values: &[&str]) -> Vec<Dec> {
    values.iter().map(|s| dec(s)).collect()
}

fn val(d: &Dec) -> Decimal {
    Decimal::from_i128_with_scale(d.mantissa, d.scale)
}

fn vals(v: &[Dec]) -> Vec<Decimal> {
    v.iter().map(val).collect()
}

fn exact(s: &str) -> Decimal {
    Decimal::from_str_exact(s).unwrap()
}

fn exacts(values: &[&str]) -> Vec<Decimal> {
    values.iter().map(|s| exact(s)).collect()
}

fn ma_prices() -> Vec<Dec> {
    decs(&["2", "4", "6", "8", "12", "14", "16", "18", "20"])
}

fn market_prices() -> Vec<Dec> {
    decs(&["59.65", "67.08", "59.16", "57.05", "55.22", "54.11"])
}

fn trade_returns() -> Vec<Dec> {
    decs(&["0.1", "-0.05", "0.2", "-0.1", "-0.02"])
}

#[test]
fn ma_test_simple_moving_average() {
    let prices = ma_prices();
    let result = exacts(&["3", "5", "7", "10", "13", "15", "17", "19"]);
    match simple_moving_average(IMAParams { prices: &prices, period: 2 }) {
        Ok(value) => assert!(vals(&value) == result),
        Err(_) => panic!("Failed"),
    }
}

#[test]
fn ma_test_exponential_moving_average() {
    let prices = ma_prices();
    let result = exacts(&[
        "3",
        "5.0000000000000000000000000001",
        "7.0000000000000000000000000001",
        "10.333333333333333333333333333",
        "12.777777777777777777777777778",
        "14.925925925925925925925925926",
        "16.975308641975308641975308642",
        "18.991769547325102880658436214",
    ]);
    match exponential_moving_average(IMAParams { prices: &prices, period: 2 }) {
        Ok(value) => {
            println!("{:?}", value);
            assert_eq!(vals(&value), result);
        }
        Err(_) => panic!("Failed"),
    }
}

#[test]
fn ema_seed_is_mean_of_first_window() {
    let prices = ma_prices();
    let value = exponential_moving_average(IMAParams { prices: &prices, period: 2 }).unwrap();
    assert_eq!(val(&value[0]), exact("3"));
    assert_eq!(val(&value[1]).round_dp(20), exact("5"));
    assert_eq!(value.len(), prices.len() - 2 + 1);
}

#[test]
fn sma_length_is_len_minus_period_plus_one() {
    let prices = ma_prices();
    for period in 1..=9u32 {
        let value = simple_moving_average(IMAParams { prices: &prices, period }).unwrap();
        assert_eq!(value.len(), prices.len() - period as usize + 1);
    }
    let single = simple_moving_average(IMAParams { prices: &prices, period: 9 }).unwrap();
    assert_eq!(val(&single[0]).round_dp(20), exact("11.11111111111111111111"));
}

#[test]
fn sma_rejects_invalid_period() {
    let prices = ma_prices();
    assert_eq!(
        simple_moving_average(IMAParams { prices: &prices, period: 0 }).unwrap_err(),
        CoreError::InvalidPeriod
    );
    assert_eq!(
        simple_moving_average(IMAParams { prices: &prices, period: 10 }).unwrap_err(),
        CoreError::InvalidPeriod
    );
    let empty: Vec<Dec> = Vec::new();
    assert_eq!(
        simple_moving_average(IMAParams { prices: &empty, period: 1 }).unwrap_err(),
        CoreError::InvalidPeriod
    );
}

#[test]
fn ema_rejects_zero_period_and_short_series() {
    let prices = ma_prices();
    assert_eq!(
        exponential_moving_average(IMAParams { prices: &prices, period: 0 }).unwrap_err(),
        CoreError::InvalidPeriod
    );
    assert_eq!(
        exponential_moving_average(IMAParams { prices: &prices, period: 10 }).unwrap_err(),
        CoreError::InsufficientData
    );
}

#[test]
fn ma_cross_is_fast_minus_slow_at_the_tail() {
    let prices = ma_prices();
    let cross = get_ma_cross(&prices, 2, 3).unwrap();
    let fast = simple_moving_average(IMAParams { prices: &prices, period: 2 }).unwrap();
    let slow = simple_moving_average(IMAParams { prices: &prices, period: 3 }).unwrap();
    assert_eq!(cross.len(), fast.len().min(slow.len()));
    assert_eq!(cross.len(), 7);
    // SMA(2)[1] = 5, SMA(3)[0] = 4
    assert_eq!(val(&cross[0]), exact("1"));
    for i in 0..cross.len() {
        assert_eq!(val(&cross[i]), val(&fast[i + 1]) - val(&slow[i]));
    }
}

#[test]
fn ma_cross_rejects_fast_not_shorter_than_slow() {
    let prices = ma_prices();
    assert_eq!(get_ma_cross(&prices, 3, 3).unwrap_err(), CoreError::MismatchedLength);
    assert_eq!(get_ma_cross(&prices, 4, 2).unwrap_err(), CoreError::MismatchedLength);
    assert_eq!(get_ma_cross(&prices, 0, 2).unwrap_err(), CoreError::InvalidPeriod);
}

#[test]
fn cross_vec_aligns_tails() {
    let v1 = decs(&["1", "2", "3", "4"]);
    let v2 = decs(&["1", "1"]);
    let crossed = create_indicator_cross_vec(&v1, &v2).unwrap();
    assert_eq!(vals(&crossed), exacts(&["2", "3"]));
    let reversed = create_indicator_cross_vec(&v2, &v1).unwrap();
    assert_eq!(vals(&reversed), exacts(&["-2", "-3"]));
    assert_eq!(create_indicator_cross_vec(&v1, &[]).unwrap_err(), CoreError::MismatchedLength);
}

#[test]
fn cdc_action_zone_length_and_values() {
    let prices: Vec<Dec> = (1..=40).map(|i| Dec { mantissa: (i * i) as i128, scale: 0 }).collect();
    let zone = get_cdc_action_zone(&prices).unwrap();
    let fast = exponential_moving_average(IMAParams { prices: &prices, period: 12 }).unwrap();
    let slow = exponential_moving_average(IMAParams { prices: &prices, period: 26 }).unwrap();
    assert_eq!(zone.len(), fast.len().min(slow.len()));
    assert_eq!(zone.len(), 15);
    let off = fast.len() - slow.len();
    for i in 0..zone.len() {
        assert_eq!(val(&zone[i]), val(&fast[i + off]) - val(&slow[i]));
    }
    // a rising series keeps the fast average above the slow one
    assert!(zone.iter().all(|d| d.mantissa > 0));
    let short = decs(&["1", "2", "3"]);
    assert_eq!(get_cdc_action_zone(&short).unwrap_err(), CoreError::InsufficientData);
}

#[test]
fn test_calculate_return() {
    let prices = market_prices();
    assert!(
        vals(&get_return(&prices).unwrap())
            == exacts(&[
                "0.124559932942162615255658005",
                "-0.1180679785330948121645796064",
                "-0.0356659905341446923597025017",
                "-0.0320771253286590709903593339",
                "-0.020101412531691416153567548",
            ])
    )
}

#[test]
fn period_returns_edge_cases() {
    let empty: Vec<Dec> = Vec::new();
    assert!(get_return(&empty).unwrap().is_empty());
    assert!(get_return(&decs(&["5"])).unwrap().is_empty());
    assert_eq!(get_return(&decs(&["0", "5"])).unwrap_err(), CoreError::DivisionByZero);
    let lagged = calculate_return(&decs(&["2", "4"]), &decs(&["3", "5"]), 2).unwrap();
    assert_eq!(vals(&lagged), exacts(&["0.5", "0.25"]));
}

#[test]
fn test_get_average_return() {
    let series = get_return(&market_prices()).unwrap();
    assert!(val(&get_average_return(&series).unwrap()) == exact("-0.0162705147970854752825101970"));
}

#[test]
fn average_of_nothing_is_empty_series() {
    let empty: Vec<Dec> = Vec::new();
    assert_eq!(get_average_return(&empty).unwrap_err(), CoreError::EmptySeries);
    assert_eq!(get_variance(&empty).unwrap_err(), CoreError::EmptySeries);
    assert_eq!(get_volatility(&empty).unwrap_err(), CoreError::EmptySeries);
}

#[test]
fn test_get_variance() {
    let series = get_return(&market_prices()).unwrap();
    assert!(val(&get_variance(&series).unwrap()) == exact("0.0061673295653075877308743126"));
}

#[test]
fn test_get_volatility() {
    let series = get_return(&market_prices()).unwrap();
    assert!(
        val(&get_volatility(&series).unwrap())
            == exact("0.0061673295653075877308743126").sqrt().unwrap()
    );
}

#[test]
fn test_mean() {
    let slices_of_dec = decs(&["10", "20", "30"]);
    let average = mean(&slices_of_dec, &Dec::from_u64(slices_of_dec.len() as u64)).unwrap();
    assert!(val(&average) == exact("20"));
    assert_eq!(mean(&slices_of_dec, &Dec::zero()).unwrap_err(), CoreError::EmptySeries);
}

#[test]
fn test_median() {
    let mut slices_of_dec = decs(&["10", "20", "30", "40"]);
    assert!(val(&median(&mut slices_of_dec).unwrap()) == exact("25"));
}

#[test]
fn median_sorts_and_picks_middle() {
    let mut odd = decs(&["3", "1.5", "2"]);
    assert_eq!(val(&median(&mut odd).unwrap()), exact("2"));
    assert_eq!(vals(&odd), exacts(&["1.5", "2", "3"]));
    let mut empty: Vec<Dec> = Vec::new();
    assert_eq!(median(&mut empty).unwrap_err(), CoreError::EmptySeries);
}

#[test]
fn remove_same_values_keeps_values_missing_from_second() {
    let v1 = decs(&["1", "2", "2.0", "3", "4"]);
    let v2 = decs(&["3.00", "5"]);
    let out = remove_same_values_in_slice(&v1, &v2);
    let mut got = vals(&out);
    got.sort();
    assert_eq!(got, exacts(&["1", "2", "4"]));
}

#[test]
fn test_calculate_risk_reward() {
    let calc = calculate_risk_reward(IRiskRewardParams {
        risk_per_trade: dec("10"),
        entry: dec("0.12"),
        stop_loss: dec("0.09"),
        take_profit: dec("0.67"),
    })
    .unwrap();
    assert!(val(&calc.optimal_quantity) == exact("333.33333333333333333333333333"));
    assert!(val(&calc.risk_reward_ratio) == exact("7.4444444444444444444444444444"));
    assert!(val(&calc.value) == exact("40"));
    assert!(val(&calc.estimate_profit) == exact("183.33333333333333333333333333"));
}

#[test]
fn risk_reward_with_entry_at_stop_is_division_by_zero() {
    let calc = calculate_risk_reward(IRiskRewardParams {
        risk_per_trade: dec("10"),
        entry: dec("0.12"),
        stop_loss: dec("0.12"),
        take_profit: dec("0.67"),
    });
    assert_eq!(calc.unwrap_err(), CoreError::DivisionByZero);
}

#[test]
fn positions_follow_sign_flips() {
    let cross = decs(&["-1", "1", "1", "-1", "-1", "1"]);
    let prices = decs(&["10", "11", "12", "13", "14", "15", "16"]);
    let result = IBackTestingIndicator::get_positions(cross.clone(), &prices, 0);
    let actions: Vec<POSITION> = result.result.iter().map(|e| e.action).collect();
    assert_eq!(actions, vec![POSITION::Long, POSITION::Close, POSITION::Long]);
    assert_eq!(vals(&result.get_price()), exacts(&["11", "13", "15"]));
    let again = IBackTestingIndicator::get_positions(cross, &prices, 0);
    assert_eq!(again.result, result.result);
}

#[test]
fn positions_read_prices_at_gap() {
    let cross = decs(&["-1", "1", "-1"]);
    let prices = decs(&["10", "11", "12", "13", "14"]);
    let result = IBackTestingIndicator::get_positions(cross, &prices, 2);
    assert_eq!(vals(&result.get_price()), exacts(&["13", "14"]));
}

#[test]
fn positions_never_close_without_long_nor_repeat_long() {
    let cross = decs(&["1", "-1", "0", "1", "0", "-1", "1", "-1"]);
    let prices = decs(&["1", "2", "3", "4", "5", "6", "7", "8"]);
    let result = IBackTestingIndicator::get_positions(cross, &prices, 0);
    let actions: Vec<POSITION> = result.result.iter().map(|e| e.action).collect();
    assert_eq!(actions, vec![POSITION::Long, POSITION::Close]);
    assert_eq!(vals(&result.get_price()), exacts(&["7", "8"]));
}

#[test]
fn entry_and_close_pairs_long_with_next_close() {
    let events = IBackTestingResult {
        result: vec![
            IBackTestingSingleResult { action: POSITION::Long, price: dec("11") },
            IBackTestingSingleResult { action: POSITION::Close, price: dec("13") },
            IBackTestingSingleResult { action: POSITION::Long, price: dec("15") },
        ],
    };
    assert_eq!(events.closed_trade_count(), 1);
    let pairs = events.get_entry_and_close().unwrap();
    assert_eq!(pairs.len(), 1);
    assert_eq!(val(&pairs[0].entry), exact("11"));
    assert_eq!(val(&pairs[0].closing), exact("13"));
    assert_eq!(val(&pairs[0].return_rate).round_dp(10), exact("0.1818181818"));
    let series = events.get_return().unwrap();
    assert_eq!(series.len(), 1);
    assert_eq!(events.filter_positive_return().unwrap().len(), 1);
    assert!(events.filter_negative_return().unwrap().is_empty());
}

#[test]
fn zero_entry_price_is_division_by_zero() {
    let events = IBackTestingResult {
        result: vec![
            IBackTestingSingleResult { action: POSITION::Long, price: dec("0") },
            IBackTestingSingleResult { action: POSITION::Close, price: dec("1") },
        ],
    };
    assert_eq!(events.get_return().unwrap_err(), CoreError::DivisionByZero);
    assert_eq!(IBackTestingSummary::calculate(&events).unwrap_err(), CoreError::DivisionByZero);
}

#[test]
fn summary_of_five_trades() {
    let summary = IBackTestingSummary::summarize(&trade_returns());
    assert_eq!(summary.total_trade, 5);
    assert_eq!(summary.winning_trade, 2);
    assert_eq!(summary.losing_trade, 3);
    assert_eq!(val(&summary.percent_profitable.unwrap()), exact("0.4"));
    assert_eq!(val(&summary.largest_win), exact("0.2"));
    assert_eq!(val(&summary.largest_losing), exact("-0.1"));
    assert_eq!(val(&summary.average_win.unwrap()), exact("0.15"));
    assert_eq!(val(&summary.average_losing.unwrap()).round_dp(10), exact("-0.0566666667"));
    assert_eq!(val(&summary.avg_win_loss_ratio.unwrap()).round_dp(10), exact("2.6470588235"));
    assert_eq!(summary.max_consec_win, 0);
    assert_eq!(summary.max_consec_lose, 1);
    assert_eq!(val(&summary.profit_factor.unwrap()).round_dp(10), exact("1.5223774708"));
    assert_eq!(val(&summary.total_return.unwrap()), exact("0.106028"));
    assert_eq!(val(&summary.maximum_drawdown.unwrap()), exact("0.118"));
}

#[test]
fn equity_curve_of_five_trades() {
    let [pv, gp, gl] = IBackTestingSummary::get_pv_gp_gl(&trade_returns()).unwrap();
    assert_eq!(val(&pv), exact("1.106028"));
    assert_eq!(val(&gp), exact("0.309"));
    assert_eq!(val(&gl), exact("0.202972"));
}

#[test]
fn zero_returns_give_no_return_and_undefined_profit_factor() {
    let zeros = decs(&["0", "0.00", "0", "0.0"]);
    let summary = IBackTestingSummary::summarize(&zeros);
    assert_eq!(val(&summary.total_return.unwrap()), exact("0"));
    assert_eq!(summary.profit_factor.unwrap_err(), CoreError::DivisionByZero);
    assert_eq!(summary.winning_trade, 4);
    assert_eq!(summary.average_win.unwrap_err(), CoreError::EmptySeries);
    assert_eq!(summary.avg_win_loss_ratio.unwrap_err(), CoreError::EmptySeries);
}

#[test]
fn empty_backtest_summary() {
    let empty: Vec<Dec> = Vec::new();
    let summary = IBackTestingSummary::summarize(&empty);
    assert_eq!(summary.total_trade, 0);
    assert_eq!(summary.percent_profitable.unwrap_err(), CoreError::DivisionByZero);
    assert_eq!(summary.max_consec_win, 0);
    assert_eq!(val(&summary.largest_losing), exact("0"));
    assert_eq!(val(&summary.total_return.unwrap()), exact("0"));
}

#[test]
fn all_winning_backtest() {
    let wins = decs(&["0.1", "0.2", "0.3"]);
    let summary = IBackTestingSummary::summarize(&wins);
    assert_eq!(summary.max_consec_win, 2);
    assert_eq!(val(&summary.largest_losing), exact("0"));
    assert_eq!(summary.average_losing.unwrap_err(), CoreError::EmptySeries);
    assert_eq!(summary.profit_factor.unwrap_err(), CoreError::DivisionByZero);
    assert_eq!(val(&summary.maximum_drawdown.unwrap()), exact("0"));
    assert_eq!(IBackTestingSummary::get_max_consecutive_loss(&wins), 0);
}

#[test]
fn recomputing_gives_identical_results() {
    let prices = ma_prices();
    let a = simple_moving_average(IMAParams { prices: &prices, period: 3 }).unwrap();
    let b = simple_moving_average(IMAParams { prices: &prices, period: 3 }).unwrap();
    assert_eq!(a, b);
    let c = exponential_moving_average(IMAParams { prices: &prices, period: 3 }).unwrap();
    let d = exponential_moving_average(IMAParams { prices: &prices, period: 3 }).unwrap();
    assert_eq!(c, d);
    let s1 = IBackTestingSummary::summarize(&trade_returns());
    let s2 = IBackTestingSummary::summarize(&trade_returns());
    assert_eq!(format!("{:?}", s1), format!("{:?}", s2));
}

#[test]
fn percent_profitable_from_counts() {
    let mut summary = IBackTestingSummary::new();
    assert_eq!(summary.get_percent_profitable().unwrap_err(), CoreError::DivisionByZero);
    summary.total_trade = 4;
    summary.winning_trade = 1;
    assert_eq!(val(&summary.get_percent_profitable().unwrap()), exact("0.25"));
    assert_eq!(IBackTestingSummary::get_total_trade(&trade_returns()), 5);
}

#[test]
fn backtest_over_prices_runs_both_strategies() {
    let prices: Vec<Dec> = (0..80)
        .map(|i: i128| Dec { mantissa: 100 + if (i / 10) % 2 == 0 { i } else { -i }, scale: 0 })
        .collect();
    let pre = pre_backtest(prices.clone()).unwrap();
    assert_eq!(pre.indicators.cdc.len(), prices.len() - 25);
    assert_eq!(pre.indicators.ma_cross.len(), prices.len() - 25);
    let out = backtest_prices(prices.clone()).unwrap();
    let gap = prices.len() - pre.indicators.cdc.len();
    let expected = IBackTestingIndicator::get_positions(pre.indicators.cdc.clone(), &prices, gap);
    assert_eq!(out.cdc.result, expected.result);
    for (i, e) in out.ma_cross.result.iter().enumerate() {
        let want = if i % 2 == 0 { POSITION::Long } else { POSITION::Close };
        assert_eq!(e.action, want);
    }
    assert_eq!(backtest_prices(decs(&["1", "2"])).unwrap_err(), CoreError::InsufficientData);
    let mut with_zero = prices.clone();
    with_zero[40] = Dec::zero();
    assert!(backtest_prices(with_zero).is_ok());
}

#[test]
fn extract_prices_fills_missing_values() {
    let response = IHistoricalResponse {
        prices: vec![
            [Some(dec("1")), None],
            [Some(dec("2")), Some(dec("5"))],
            [Some(dec("3")), None],
            [Some(dec("4")), None],
        ],
        market_caps: vec![[Some(dec("1")), Some(dec("7"))]],
        total_volumes: vec![],
    };
    assert_eq!(vals(&response.extract_prices()), exacts(&["0", "5", "5", "0"]));
    assert_eq!(vals(&response.extract_market_caps()), exacts(&["7"]));
    assert!(response.extract_volumes().is_empty());
}

#[test]
fn dec_new_checks_range() {
    assert!(Dec::new(1, 29).is_none());
    assert!(Dec::new(0x1_0000_0000_0000_0000_0000_0000, 0).is_none());
    assert_eq!(Dec::new(-5, 2), Some(dec("-0.05")));
}
