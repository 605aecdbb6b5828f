use marketeer::calendar::{day_before, day_text, MAX_DAY, MIN_DAY};
use marketeer::country::Country;
use marketeer::feeds::{
    finish_fred, fred_yoy, is_year_known, parse_frankfurter, parse_fred, parse_lbma, series_url,
    some_data, with_history, Dated, FredSeries, LbmaEntry, RateDay,
};
use marketeer::kraken::{
    candles_of, kraken_candle_url, kraken_pair, kraken_tick_urls, kraken_ticker_url, live_price, merge_ticks,
    parse_kraken_ohlc, parse_kraken_ohlc_ts, read_candles, read_ticker, Close, RawTick,
};
use marketeer::order::{dedup, sort};
use marketeer::range::Range;
use marketeer::registry::{registry, yahoo_intraday_ticker, Source};
use marketeer::scalar::Scalar;
use marketeer::series::{first_from, load_rows, save_rows, Chart, Obs, Row, Series, Tick};
use marketeer::yahoo::{
    daily_prices, read_chart, yahoo_daily_url, yahoo_history_ticker, yahoo_intraday_url, Timed,
};

fn num(v: f64) -> Scalar {
    Scalar::from_bits(v.to_bits())
}

fn val(s: Scalar) -> f64 {
    f64::from_bits(s.to_bits())
}

fn obs(day: i32, value: f64) -> Obs {
    Obs { day, value: num(value) }
}

fn tick(at: f64, value: f64) -> Tick {
    Tick { at: num(at), value: num(value) }
}

fn series(obs: Vec<Obs>) -> Series {
    Series {
        title: "T".to_string(),
        unit: "USD".to_string(),
        source_name: "S".to_string(),
        obs,
        intraday: Vec::new(),
        error: None,
    }
}

// 2024-01-01
const NEW_YEAR: i32 = 738_886;

#[test]
fn days_are_written() {
    assert_eq!(day_text(1).as_deref(), Some("0001-01-01"));
    assert_eq!(day_text(719_163).as_deref(), Some("1970-01-01"));
    assert_eq!(day_text(NEW_YEAR).as_deref(), Some("2024-01-01"));
    assert_eq!(day_text(NEW_YEAR + 59).as_deref(), Some("2024-02-29"));
    assert_eq!(day_text(MIN_DAY).as_deref(), Some("-262143-01-01"));
    assert_eq!(day_text(MAX_DAY).as_deref(), Some("+262142-12-31"));
    assert_eq!(day_text(MIN_DAY - 1), None);
    assert_eq!(day_text(MAX_DAY + 1), None);
}

#[test]
fn days_are_counted_back() {
    assert_eq!(day_before(NEW_YEAR, 30), NEW_YEAR - 30);
    assert_eq!(day_before(NEW_YEAR, 0), NEW_YEAR);
    assert_eq!(day_before(MIN_DAY + 5, 6), MIN_DAY);
    assert_eq!(day_before(0, u32::MAX), 1);
}

#[test]
fn stored_observations_come_back() {
    let all = vec![obs(NEW_YEAR, 1.5), obs(NEW_YEAR + 1, -2.0), obs(MIN_DAY, 0.0), obs(MAX_DAY, f64::NAN)];
    let rows = save_rows(&all);
    assert_eq!(rows[0].date, "2024-01-01");
    assert_eq!(load_rows(&rows), all);
}

#[test]
fn rows_without_a_day_are_left_out() {
    let rows = vec![
        Row { date: "2024-01-01".to_string(), value: num(1.0) },
        Row { date: "soon".to_string(), value: num(2.0) },
        Row { date: "2024-02-30".to_string(), value: num(3.0) },
        Row { date: "2024-1-2".to_string(), value: num(4.0) },
    ];
    assert_eq!(load_rows(&rows), vec![obs(NEW_YEAR, 1.0), obs(NEW_YEAR + 1, 4.0)]);
}

#[test]
fn numbers_are_compared_by_their_patterns() {
    let v = [f64::NEG_INFINITY, -2.5, -0.0, 0.0, 1e-300, 1.0, 1e300, f64::INFINITY];
    for a in v {
        for b in v {
            assert_eq!(num(a).lt(num(b)), a < b);
            assert_eq!(num(a).ge(num(b)), a >= b);
        }
        assert_eq!(num(a).is_zero(), a == 0.0);
        assert_eq!(num(a).is_positive(), a > 0.0);
        assert!(!num(a).nan());
        assert!(!num(a).lt(num(f64::NAN)) && !num(f64::NAN).ge(num(a)));
    }
    assert!(num(f64::NAN).nan() && num(-f64::NAN).nan());
    assert!(!num(f64::NAN).is_positive() && !num(f64::NAN).is_zero());
}

#[test]
fn sorting_keeps_the_order_of_equals() {
    let v = vec![obs(3, 1.0), obs(1, 2.0), obs(3, 3.0), obs(2, 4.0), obs(1, 5.0)];
    let s = sort(&v);
    assert_eq!(s, vec![obs(1, 2.0), obs(1, 5.0), obs(2, 4.0), obs(3, 1.0), obs(3, 3.0)]);
    assert_eq!(dedup(&s), vec![obs(1, 2.0), obs(2, 4.0), obs(3, 1.0)]);
    assert_eq!(sort(&s), s);
    assert_eq!(sort(&Vec::<Obs>::new()), Vec::new());
}

#[test]
fn the_last_value_is_found() {
    let s = series(vec![obs(10, 1.0), obs(11, 2.0)]);
    assert_eq!(s.latest(), Some(num(2.0)));
    assert_eq!(s.latest_date(), Some(11));
    assert_eq!(series(Vec::new()).latest(), None);
    assert_eq!(series(Vec::new()).latest_date(), None);
}

#[test]
fn a_change_is_measured_from_the_first_day_of_the_range() {
    let s = series(vec![obs(10, 1.0), obs(20, 2.0), obs(30, 4.0), obs(40, 8.0)]);
    let over = |days: u32| s.change_pct(days, 40).map(|c| (val(c.base), val(c.last)));
    assert_eq!(over(0), Some((1.0, 8.0)));
    assert_eq!(over(20), Some((2.0, 8.0)));
    assert_eq!(over(21), Some((2.0, 8.0)));
    assert_eq!(over(15), Some((4.0, 8.0)));
    assert_eq!(over(1000), Some((1.0, 8.0)));
    // All observations are older than the range.
    assert_eq!(s.change_pct(5, 100), None);
    assert_eq!(series(vec![obs(1, 1.0)]).change_pct(0, 1), None);
    assert_eq!(series(vec![obs(1, 0.0), obs(2, 1.0)]).change_pct(0, 1), None);
}

#[test]
fn the_change_of_a_day_is_measured() {
    let s = series(vec![obs(1, 5.0), obs(2, 4.0), obs(3, 6.0)]);
    assert_eq!(s.day_change_pct().map(|c| (val(c.base), val(c.last))), Some((4.0, 6.0)));
    assert_eq!(series(vec![obs(1, 5.0)]).day_change_pct(), None);
    assert_eq!(series(vec![obs(1, 0.0), obs(2, 5.0)]).day_change_pct(), None);
}

#[test]
fn the_first_day_from_another_on_is_found() {
    let v = vec![obs(10, 1.0), obs(20, 1.0), obs(20, 2.0), obs(30, 1.0)];
    assert_eq!(first_from(&v, 5), 0);
    assert_eq!(first_from(&v, 10), 0);
    assert_eq!(first_from(&v, 11), 1);
    assert_eq!(first_from(&v, 20), 1);
    assert_eq!(first_from(&v, 21), 3);
    assert_eq!(first_from(&v, 31), 4);
    assert_eq!(first_from(&Vec::new(), 0), 0);
}

#[test]
fn a_change_starts_where_its_range_starts() {
    let lists = vec![
        vec![obs(10, 1.0), obs(20, 2.0), obs(30, 4.0), obs(40, 8.0)],
        // Not by rising day.
        vec![obs(40, 8.0), obs(10, 1.0), obs(30, 0.0), obs(20, 2.0), obs(35, 3.0)],
        vec![obs(30, 4.0), obs(5, 6.0)],
    ];
    for list in lists {
        let s = series(list.clone());
        for days in 0..50 {
            let shown = &list[s.range_start(days, 42)..];
            let expected = match shown.first() {
                Some(o) if val(o.value) != 0.0 => Some((val(o.value), val(list[list.len() - 1].value))),
                _ => None,
            };
            assert_eq!(s.change_pct(days, 42).map(|c| (val(c.base), val(c.last))), expected);
        }
    }
    // The search goes by halves: behind day 20, then before day 35.
    let v = vec![obs(40, 8.0), obs(10, 1.0), obs(20, 2.0), obs(35, 3.0)];
    assert_eq!(first_from(&v, 30), 3);
}

#[test]
fn the_figures_of_a_year_are_found() {
    let mut v = Vec::new();
    for i in 0..100 {
        v.push(obs(i, f64::from((i * 37) % 100)));
    }
    let s = series(v).year_stats().unwrap();
    assert_eq!(
        (val(s.low), val(s.lower), val(s.median), val(s.upper), val(s.high)),
        (0.0, 25.0, 50.0, 75.0, 99.0)
    );
    let few: Vec<Obs> = (0..29).map(|i| obs(i, 1.0)).collect();
    assert_eq!(series(few).year_stats(), None);
    // Only the last 365 values count.
    let mut long = vec![obs(-1, 1e9)];
    for i in 0..365 {
        long.push(obs(i, f64::from(i)));
    }
    let t = series(long).year_stats().unwrap();
    assert_eq!((val(t.low), val(t.high)), (0.0, 364.0));
}

#[test]
fn a_point_is_taken_in_once_a_day() {
    let mut s = series(vec![obs(10, 1.0)]);
    s.take_point(obs(10, 2.0));
    assert_eq!(s.obs, vec![obs(10, 2.0)]);
    s.take_point(obs(11, 3.0));
    assert_eq!(s.obs, vec![obs(10, 2.0), obs(11, 3.0)]);
    s.take_point(obs(9, 4.0));
    assert_eq!(s.obs, vec![obs(10, 2.0), obs(11, 3.0)]);
    s.take_point(obs(11, 3.0));
    assert_eq!(s.obs, vec![obs(10, 2.0), obs(11, 3.0)]);
    let mut e = series(Vec::new());
    e.take_point(obs(1, 1.0));
    assert_eq!(e.obs, vec![obs(1, 1.0)]);
}

fn days(c: Chart) -> usize {
    match c {
        Chart::Days(n) => n,
        other => panic!("{:?}", other),
    }
}

#[test]
fn a_card_draws_the_days_of_its_range() {
    let s = series(vec![obs(10, 1.0), obs(20, 2.0), obs(30, 4.0), obs(40, 8.0)]);
    assert_eq!(days(s.chart(Range::Max, 40, num(0.0))), 0);
    assert_eq!(days(s.chart(Range::M1, 45, num(0.0))), 1);
    // Fewer than two days in the range: the last two are drawn.
    assert_eq!(days(s.chart(Range::W1, 40, num(0.0))), 2);
    assert_eq!(days(s.chart(Range::M1, 400, num(0.0))), 2);
}

#[test]
fn a_card_draws_the_hours_of_a_short_range() {
    let mut s = series(vec![obs(10, 1.0), obs(20, 2.0)]);
    s.intraday = vec![tick(1.0, 5.0), tick(2.0, 6.0), tick(3.0, 7.0)];
    match s.chart(Range::D1, 20, num(2.0)) {
        Chart::Ticks(t) => assert_eq!(t, vec![tick(2.0, 6.0), tick(3.0, 7.0)]),
        other => panic!("{:?}", other),
    }
    assert_eq!(days(s.chart(Range::M1, 20, num(2.0))), 0);
}

#[test]
fn a_card_without_data_says_why() {
    let mut s = series(vec![obs(1, 1.0)]);
    assert!(matches!(s.chart(Range::Y1, 20, num(0.0)), Chart::Loading));
    s.error = Some("no data returned".to_string());
    match s.chart(Range::Y1, 20, num(0.0)) {
        Chart::Failure(e) => assert_eq!(e, "no data returned"),
        other => panic!("{:?}", other),
    }
}

#[test]
fn a_card_has_a_caption() {
    assert_eq!(series(vec![obs(NEW_YEAR, 1.0)]).caption(), "2024-01-01  ·  S");
    assert_eq!(series(Vec::new()).caption(), "no date  ·  S");
}

#[test]
fn a_series_is_made_of_its_entry() {
    let specs = registry(Country::Australia);
    let s = Series::of_spec(&specs[4], vec![obs(1, 1.0)], Vec::new());
    assert_eq!((s.title.as_str(), s.unit.as_str(), s.source_name.as_str()), ("Gold (LBMA PM)", "USD/oz", "LBMA"));
    assert_eq!(s.obs.len(), 1);
    assert!(s.error.is_none());
}

#[test]
fn symbols_are_unique_and_tickers_known() {
    let specs = registry(Country::Usa);
    assert_eq!(specs.len(), 10);
    for i in 0..specs.len() {
        for j in 0..i {
            assert_ne!(specs[i].symbol, specs[j].symbol);
        }
    }
    assert_eq!(specs[0].symbol, "AUDUSD");
    assert_eq!(specs[9].source, Source::Fred);
    assert!(specs[9].yoy && !specs[8].yoy);
    assert_eq!(yahoo_intraday_ticker("SP500"), Some("^GSPC"));
    assert_eq!(yahoo_intraday_ticker("GOLD"), Some("GC=F"));
    assert_eq!(yahoo_intraday_ticker("btcusd"), None);
}

fn dated(date: &str, value: Option<f64>) -> Dated {
    Dated { date: date.to_string(), value: value.map(num) }
}

#[test]
fn observations_of_fred_are_read() {
    let v = vec![dated("2024-01-01", Some(4.35)), dated("2024-01-02", None), dated("x", Some(1.0)), dated("2024-01-03", Some(4.5))];
    assert_eq!(parse_fred(&v), vec![obs(NEW_YEAR, 4.35), obs(NEW_YEAR + 2, 4.5)]);
}

#[test]
fn metal_prices_are_read() {
    let v = vec![
        LbmaEntry { d: "2024-01-01".to_string(), v: vec![Some(num(2000.0)), Some(num(1500.0))] },
        LbmaEntry { d: "2024-01-02".to_string(), v: vec![None, Some(num(1500.0))] },
        LbmaEntry { d: "2024-01-03".to_string(), v: Vec::new() },
        LbmaEntry { d: "bad".to_string(), v: vec![Some(num(1.0))] },
    ];
    assert_eq!(parse_lbma(&v), vec![obs(NEW_YEAR, 2000.0)]);
}

#[test]
fn exchange_rates_are_read_in_any_order() {
    let day = |d: &str, rates: Vec<(&str, f64)>| RateDay {
        date: d.to_string(),
        rates: rates.into_iter().map(|(k, v)| (k.to_string(), num(v))).collect(),
    };
    let v = vec![
        day("2024-01-03", vec![("EUR", 0.6), ("USD", 0.67)]),
        day("2024-01-01", vec![("USD", 0.68)]),
        day("2024-01-02", vec![("EUR", 0.6)]),
        day("?", vec![("USD", 0.1)]),
    ];
    assert_eq!(parse_frankfurter(&v, "USD"), vec![obs(NEW_YEAR, 0.68), obs(NEW_YEAR + 2, 0.67)]);
    assert_eq!(parse_frankfurter(&v, "JPY"), Vec::new());
}

#[test]
fn candles_are_read_from_a_reply() {
    let text = "{\"last\":1,\"XXBTZUSD\":[[1704067200,\"1\",\"2\",\"3\",\"42000.5\",\"5\"],[1,2],\"x\",[\"t\",0,0,0,\"1\"],[1704067201,0,0,0,7]],\"Z\":[[1,0,0,0,\"2\"]]}";
    let c = read_candles(text);
    assert_eq!(c.len(), 1);
    assert_eq!((c[0].time, c[0].close.as_str()), (1_704_067_200, "42000.5"));
    assert!(read_candles("{\"last\":1}").is_empty());
    assert!(read_candles("[]").is_empty());
    assert!(read_candles("oops").is_empty());
    assert!(candles_of(&marketeer::json::Json::Null).is_empty());
}

#[test]
fn the_last_close_of_a_day_stays() {
    let c = |time: u64, price: Option<f64>| Close { time, price: price.map(num) };
    let v = vec![
        c(1_704_067_200, Some(1.0)),
        c(1_704_070_800, Some(2.0)),
        c(1_704_153_600, None),
        c(1_704_153_600, Some(3.0)),
        c(u64::MAX, Some(4.0)),
        c(u64::MAX / 2, Some(5.0)),
    ];
    // A time beyond the signed numbers counts from their end; one that is too large has no day.
    assert_eq!(parse_kraken_ohlc(&v), vec![obs(NEW_YEAR, 2.0), obs(NEW_YEAR + 1, 3.0), obs(719_162, 4.0)]);
}

#[test]
fn ticks_of_several_replies_are_merged() {
    let raw = vec![
        RawTick { at: num(1.0), value: Some(num(10.0)) },
        RawTick { at: num(2.0), value: None },
        RawTick { at: num(3.0), value: Some(num(30.0)) },
    ];
    let mut all = parse_kraken_ohlc_ts(&raw);
    assert_eq!(all, vec![tick(1.0, 10.0), tick(3.0, 30.0)]);
    all.push(tick(0.5, 5.0));
    all.push(tick(3.0, 31.0));
    assert_eq!(merge_ticks(&all), vec![tick(0.5, 5.0), tick(1.0, 10.0), tick(3.0, 30.0)]);
}

#[test]
fn the_price_of_a_ticker_is_read() {
    assert_eq!(read_ticker("{\"X\":{\"c\":[\"65000.1\",\"0.1\"]}}").as_deref(), Some("65000.1"));
    assert_eq!(read_ticker("{\"X\":{\"c\":[1]}}"), None);
    assert_eq!(read_ticker("{\"X\":{}}"), None);
    assert_eq!(read_ticker("{}"), None);
    assert_eq!(read_ticker("[1]"), None);
    assert_eq!(read_ticker("-"), None);
    assert_eq!(live_price(Some(num(1.0))), Ok(num(1.0)));
    assert_eq!(live_price(None), Err("no ticker data".to_string()));
}

#[test]
fn charts_are_read() {
    let body = "{\"chart\":{\"result\":[{\"timestamp\":[100,200,300,400],\"indicators\":{\"quote\":[{\"close\":[1.5,null,3]}]}}]}}";
    let p = read_chart(body).unwrap();
    let pairs: Vec<(&str, &str)> = p.iter().map(|p| (p.time.as_str(), p.close.as_str())).collect();
    assert_eq!(pairs, vec![("100", "1.5"), ("300", "3")]);
}

#[test]
fn what_a_chart_lacks_is_told() {
    let error = |body: &str| read_chart(body).err().unwrap();
    assert_eq!(error("{\"chart\":{\"result\":null}}"), "no result");
    assert_eq!(error("{\"chart\":{\"result\":[]}}"), "no result");
    assert_eq!(error("{\"chart\":{\"result\":[{}]}}"), "no timestamps");
    assert_eq!(error("{\"chart\":{\"result\":[{\"timestamp\":[]}]}}"), "no closes");
    assert_eq!(
        error("{\"chart\":{\"result\":[{\"timestamp\":[],\"indicators\":{\"quote\":[]}}]}}"),
        "no closes"
    );
    assert_eq!(error(""), "EOF while parsing a value at line 1 column 0");
}

#[test]
fn prices_are_put_on_their_days() {
    let t = |seconds: i64, price: f64| Timed { seconds, price: num(price) };
    let v = vec![t(1_704_153_600, 2.0), t(1_704_067_200, 1.0), t(1_704_067_300, 9.0), t(-1, 0.5), t(i64::MAX, 7.0)];
    assert_eq!(
        daily_prices(&v),
        vec![obs(719_162, 0.5), obs(NEW_YEAR, 1.0), obs(NEW_YEAR + 1, 2.0)]
    );
}

#[test]
fn a_value_is_compared_with_that_of_a_year_ago() {
    let v = vec![obs(1000, 100.0), obs(1090, 101.0), obs(1180, 102.0), obs(1270, 103.0), obs(1365, 104.0), obs(1455, 105.0)];
    assert!(is_year_known(&v));
    let p = fred_yoy(&v);
    let all: Vec<(i32, f64, f64)> = p.iter().map(|p| (p.day, val(p.base), val(p.value))).collect();
    assert_eq!(all, vec![(1365, 100.0, 104.0), (1455, 101.0, 105.0)]);
    assert!(fred_yoy(&vec![obs(0, 0.0), obs(400, 1.0)]).is_empty());
    assert!(!is_year_known(&vec![obs(MIN_DAY + 299, 1.0)]));
    assert!(!is_year_known(&vec![obs(MAX_DAY + 1, 1.0)]));
}

#[test]
fn a_history_adds_only_older_days() {
    let known = vec![obs(10, 1.0), obs(11, 2.0)];
    let history = vec![obs(8, 0.1), obs(12, 9.0), obs(10, 9.0), obs(9, 0.2)];
    assert_eq!(with_history(&known, &history), vec![obs(8, 0.1), obs(9, 0.2), obs(10, 1.0), obs(11, 2.0)]);
}

#[test]
fn no_data_is_an_error() {
    assert_eq!(some_data(Vec::new()), Err("no data returned".to_string()));
    assert_eq!(some_data(vec![obs(1, 1.0)]), Ok(vec![obs(1, 1.0)]));
    assert_eq!(finish_fred(Vec::new(), true).unwrap_err(), "no data returned");
    assert_eq!(finish_fred(vec![obs(1, 1.0)], true).unwrap_err(), "no data after YoY transform");
    let two = vec![obs(0, 1.0), obs(400, 2.0)];
    match finish_fred(two.clone(), true) {
        Ok(FredSeries::Yearly(p)) => assert_eq!(p, fred_yoy(&two)),
        other => panic!("{:?}", other),
    }
    match finish_fred(two.clone(), false) {
        Ok(FredSeries::Levels(v)) => assert_eq!(v, two),
        other => panic!("{:?}", other),
    }
}

#[test]
fn sources_are_asked_at_their_addresses() {
    let specs = registry(Country::Australia);
    let url = |i: usize| series_url(&specs[i], " abc ", 2015);
    assert_eq!(url(0).unwrap(), "https://api.frankfurter.app/2015-01-01..?from=AUD&to=USD");
    assert_eq!(
        url(1).unwrap(),
        "https://api.stlouisfed.org/fred/series/observations?series_id=SP500&api_key=abc&file_type=json&observation_start=2015-01-01"
    );
    assert_eq!(url(4).unwrap(), "https://prices.lbma.org.uk/json/gold_pm.json");
    assert_eq!(url(5).unwrap(), "https://prices.lbma.org.uk/json/silver.json");
    assert_eq!(url(6).unwrap(), "https://api.kraken.com/0/public/OHLC?pair=BTCUSD&interval=1440&since=0");
    assert_eq!(series_url(&specs[1], "  ", 2015), Err("FRED API key not set (Settings)".to_string()));
    assert!(series_url(&specs[0], "", 2015).is_ok());
}

#[test]
fn prices_are_asked_for_at_their_addresses() {
    assert_eq!(kraken_pair("xmrusd"), "XMRUSD");
    assert_eq!(kraken_pair("straße"), "STRASSE");
    assert_eq!(kraken_candle_url("XMRUSD", 60, 7), "https://api.kraken.com/0/public/OHLC?pair=XMRUSD&interval=60&since=7");
    assert_eq!(
        kraken_tick_urls("XMRUSD"),
        vec![kraken_candle_url("XMRUSD", 5, 0), kraken_candle_url("XMRUSD", 60, 0)]
    );
    assert_eq!(kraken_ticker_url("AUDUSD"), "https://api.kraken.com/0/public/Ticker?pair=AUDUSD");
    assert_eq!(yahoo_history_ticker("btcusd"), "BTC-USD");
    assert_eq!(yahoo_history_ticker("usdusd"), "-USD");
    assert_eq!(
        yahoo_intraday_url("^GSPC"),
        "https://query2.finance.yahoo.com/v8/finance/chart/^GSPC?range=7d&interval=60m"
    );
    assert_eq!(
        yahoo_daily_url("BTC-USD"),
        "https://query2.finance.yahoo.com/v8/finance/chart/BTC-USD?range=max&interval=1d"
    );
}

#[test]
fn ranges_are_labelled() {
    let all = [Range::D1, Range::W1, Range::M1, Range::M6, Range::Y1, Range::Y5];
    for r in all {
        assert_eq!(Range::from_label(r.label()), r);
    }
    assert_eq!(Range::from_label("Max"), Range::Y1);
    assert_eq!(Range::from_label(""), Range::Y1);
    assert_eq!(Range::Max.label(), "Max");
    assert_eq!(Range::M6.days(), 183);
    assert_eq!(Range::Max.days(), 0);
}
