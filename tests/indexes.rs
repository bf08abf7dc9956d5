use weather_index::indexes::{
    handle_query, parse_limit, parse_query, populate_indexes, QueryParamError, WeatherIndexes,
    WeatherQuery,
};
use weather_index::weather_data::{Date, Reading, WeatherEntry, WeatherKind};

fn ymd(y: i32, m: u32, d: u32) -> Date {
    Date::from_ymd_opt(y, m, d).unwrap()
}

fn entry(y: i32, m: u32, d: u32, wind: f32, weather: WeatherKind) -> WeatherEntry {
    WeatherEntry {
        date: ymd(y, m, d),
        precipitation: Reading { bits: 0.0f32.to_bits() },
        temp_min: Reading { bits: 9.4f32.to_bits() },
        temp_max: Reading { bits: 17.2f32.to_bits() },
        wind: Reading { bits: wind.to_bits() },
        weather,
    }
}

fn two_days() -> (WeatherEntry, WeatherEntry, WeatherIndexes) {
    let sun = entry(2012, 6, 3, 2.9, WeatherKind::Sun);
    let rain = entry(2012, 6, 4, 3.1, WeatherKind::Rain);
    (sun, rain, populate_indexes(vec![sun, rain]))
}

fn week() -> Vec<WeatherEntry> {
    vec![
        entry(2012, 6, 1, 1.0, WeatherKind::Rain),
        entry(2012, 6, 2, 2.0, WeatherKind::Sun),
        entry(2012, 6, 3, 3.0, WeatherKind::Rain),
        entry(2012, 6, 4, 4.0, WeatherKind::Fog),
        entry(2012, 6, 5, 5.0, WeatherKind::Rain),
        entry(2012, 6, 6, 6.0, WeatherKind::Sun),
        entry(2012, 6, 7, 7.0, WeatherKind::Rain),
    ]
}

fn query(limit: Option<usize>, date: Option<Date>, weather: Option<WeatherKind>) -> WeatherQuery {
    WeatherQuery { limit, date, weather }
}

#[test]
fn date_query_returns_that_day_only() {
    let (sun, _, idx) = two_days();
    assert_eq!(handle_query(&idx, &query(None, Some(ymd(2012, 6, 3)), None)), vec![sun]);
}

#[test]
fn date_query_with_other_kind_is_empty() {
    let (_, _, idx) = two_days();
    let q = query(None, Some(ymd(2012, 6, 3)), Some(WeatherKind::Rain));
    assert_eq!(handle_query(&idx, &q), vec![]);
}

#[test]
fn date_query_with_same_kind_keeps_the_entry() {
    let (sun, _, idx) = two_days();
    let q = query(Some(5), Some(ymd(2012, 6, 3)), Some(WeatherKind::Sun));
    assert_eq!(handle_query(&idx, &q), vec![sun]);
}

#[test]
fn kind_query_returns_entries_of_that_kind() {
    let (_, rain, idx) = two_days();
    assert_eq!(handle_query(&idx, &query(None, None, Some(WeatherKind::Rain))), vec![rain]);
}

#[test]
fn limit_one_returns_the_earliest_day() {
    let (sun, _, idx) = two_days();
    assert_eq!(handle_query(&idx, &query(Some(1), None, None)), vec![sun]);
}

#[test]
fn limit_zero_returns_nothing() {
    let (_, _, idx) = two_days();
    assert_eq!(handle_query(&idx, &query(Some(0), None, None)), vec![]);
    let q = query(Some(0), Some(ymd(2012, 6, 3)), Some(WeatherKind::Sun));
    assert_eq!(handle_query(&idx, &q), vec![]);
    assert_eq!(handle_query(&idx, &query(Some(0), None, Some(WeatherKind::Sun))), vec![]);
}

#[test]
fn unknown_date_returns_nothing() {
    let (_, _, idx) = two_days();
    assert_eq!(handle_query(&idx, &query(None, Some(ymd(2099, 1, 1)), None)), vec![]);
}

#[test]
fn every_date_finds_its_entry() {
    let data = week();
    let idx = populate_indexes(data.clone());
    for e in &data {
        assert_eq!(idx.lookup_date(e.date), Some(*e));
    }
    assert_eq!(idx.lookup_date(ymd(2012, 6, 8)), None);
}

#[test]
fn kind_lookup_is_the_ordered_subsequence() {
    let data = week();
    let idx = populate_indexes(data.clone());
    for k in WeatherKind::all() {
        let expected: Vec<WeatherEntry> = data.iter().copied().filter(|e| e.weather == k).collect();
        assert_eq!(idx.lookup_kind(k), expected);
    }
    assert_eq!(idx.lookup_kind(WeatherKind::Snow), vec![]);
    assert_eq!(idx.lookup_kind(WeatherKind::Rain).len(), 4);
}

#[test]
fn same_query_twice_gives_same_result() {
    let idx = populate_indexes(week());
    let q = query(Some(2), None, Some(WeatherKind::Rain));
    assert_eq!(handle_query(&idx, &q), handle_query(&idx, &q));
}

#[test]
fn limit_keeps_the_front_in_date_order() {
    let data = week();
    let idx = populate_indexes(data.clone());
    let rain = handle_query(&idx, &query(Some(2), None, Some(WeatherKind::Rain)));
    assert_eq!(rain, vec![data[0], data[2]]);
    let all_rain = handle_query(&idx, &query(Some(100), None, Some(WeatherKind::Rain)));
    assert_eq!(all_rain, vec![data[0], data[2], data[4], data[6]]);
    assert_eq!(handle_query(&idx, &query(Some(3), None, None)), data[..3].to_vec());
    assert_eq!(handle_query(&idx, &query(Some(7), None, None)), data);
    assert_eq!(handle_query(&idx, &query(Some(usize::MAX), None, None)), data);
    assert_eq!(handle_query(&idx, &query(Some(1), Some(ymd(2012, 6, 4)), None)), vec![data[3]]);
}

#[test]
fn full_scan_returns_everything_in_order() {
    let data = week();
    let idx = populate_indexes(data.clone());
    assert_eq!(handle_query(&idx, &query(None, None, None)), data);
}

#[test]
fn empty_dataset_answers_every_query_with_nothing() {
    let idx = populate_indexes(vec![]);
    assert_eq!(handle_query(&idx, &query(None, None, None)), vec![]);
    assert_eq!(handle_query(&idx, &query(Some(3), None, Some(WeatherKind::Sun))), vec![]);
    assert_eq!(handle_query(&idx, &query(None, Some(ymd(2012, 6, 3)), None)), vec![]);
}

#[test]
fn repeated_date_keeps_the_last_entry() {
    let first = entry(2012, 6, 3, 1.0, WeatherKind::Sun);
    let second = entry(2012, 6, 3, 2.0, WeatherKind::Fog);
    let idx = populate_indexes(vec![first, second]);
    assert_eq!(idx.lookup_date(ymd(2012, 6, 3)), Some(second));
    assert_eq!(handle_query(&idx, &query(None, None, None)), vec![first, second]);
}

#[test]
fn query_parameters_are_validated() {
    assert_eq!(parse_limit("10"), Some(10));
    assert_eq!(parse_limit("+0"), Some(0));
    assert_eq!(parse_limit("18446744073709551615"), Some(usize::MAX));
    assert_eq!(parse_limit("18446744073709551616"), None);
    assert_eq!(parse_limit("-1"), None);
    assert_eq!(parse_limit("1x"), None);
    assert_eq!(parse_limit(""), None);
    assert_eq!(parse_limit("+"), None);

    let q = parse_query(Some("2"), Some("2012-06-03"), Some("Rain")).unwrap();
    assert_eq!(q.limit, Some(2));
    assert_eq!(q.date, Some(ymd(2012, 6, 3)));
    assert_eq!(q.weather, Some(WeatherKind::Rain));

    let none = parse_query(None, None, None).unwrap();
    assert_eq!((none.limit, none.date, none.weather), (None, None, None));

    assert_eq!(
        parse_query(Some("x"), Some("bad"), Some("hail")).unwrap_err(),
        QueryParamError::InvalidLimit
    );
    assert_eq!(
        parse_query(None, Some("2012-13-01"), Some("hail")).unwrap_err(),
        QueryParamError::InvalidDate
    );
    assert_eq!(
        parse_query(None, None, Some("hail")).unwrap_err(),
        QueryParamError::InvalidWeather
    );
}
