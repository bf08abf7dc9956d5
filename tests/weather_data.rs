use weather_index::weather_data::{
    parse_date, parse_weather_file_contents, parse_weather_kind, parse_weather_row,
    weather_entries, Date, Reading, RowError, WeatherEntry, WeatherEntryParseError, WeatherKind,
};

fn reading(x: f32) -> Reading {
    Reading { bits: x.to_bits() }
}

fn ymd(y: i32, m: u32, d: u32) -> Date {
    Date::from_ymd_opt(y, m, d).unwrap()
}

#[test]
fn test_date_parse() {
    assert_eq!(ymd(2034, 12, 23), parse_date("2034-12-23").unwrap())
}

#[test]
fn test_parse_entry() {
    assert_eq!(
        WeatherEntry {
            date: ymd(2012, 6, 3),
            precipitation: reading(0.),
            temp_min: reading(9.4),
            temp_max: reading(17.2),
            wind: reading(2.9),
            weather: WeatherKind::Sun
        },
        parse_weather_row("2012-06-03,0.0,17.2,9.4,2.9,sun").unwrap()
    )
}

#[test]
fn test_parse_all_entries_happy() {
    assert_eq!(
        parse_weather_file_contents(
            "date,precipitation,temp_max,temp_min,wind,weather\n\
            2012-06-03,0.0,17.2,9.4,2.9,sun\n\
            2012-06-04,1.3,12.8,8.9,3.1,rain"
        ),
        vec![
            Ok(WeatherEntry {
                date: ymd(2012, 6, 3),
                precipitation: reading(0.),
                temp_min: reading(9.4),
                temp_max: reading(17.2),
                wind: reading(2.9),
                weather: WeatherKind::Sun
            }),
            Ok(WeatherEntry {
                date: ymd(2012, 6, 4),
                precipitation: reading(1.3),
                temp_min: reading(8.9),
                temp_max: reading(12.8),
                wind: reading(3.1),
                weather: WeatherKind::Rain
            }),
        ]
    )
}

#[test]
fn test_parse_all_entries_with_error() {
    let results = parse_weather_file_contents(
        "date,precipitation,temp_max,temp_min,wind,weather\n\
        2012-06-03,Oops,17.2,9.4,2.9,sun\n\
        2012-06-04,1.3,12.8,8.9,3.1,rain",
    );

    assert!(matches!(
        results[0],
        Err(WeatherEntryParseError { line_num: 2, .. })
    ));

    assert_eq!(
        results[1],
        Ok(WeatherEntry {
            date: ymd(2012, 6, 4),
            precipitation: reading(1.3),
            temp_min: reading(8.9),
            temp_max: reading(12.8),
            wind: reading(3.1),
            weather: WeatherKind::Rain
        })
    );
}

#[test]
fn day_numbers_count_from_the_common_era() {
    assert_eq!(ymd(1, 1, 1).days_from_ce, 1);
    assert_eq!(ymd(1, 1, 2).days_from_ce, 2);
    assert!(ymd(2012, 6, 3).days_from_ce + 1 == ymd(2012, 6, 4).days_from_ce);
}

#[test]
fn impossible_dates_are_refused() {
    assert_eq!(Date::from_ymd_opt(2012, 2, 30), None);
    assert_eq!(Date::from_ymd_opt(2011, 2, 29), None);
    assert!(Date::from_ymd_opt(2012, 2, 29).is_some());
    assert_eq!(Date::from_ymd_opt(2012, 13, 1), None);
    assert_eq!(Date::from_ymd_opt(2012, 0, 1), None);
    assert_eq!(Date::from_ymd_opt(262143, 1, 1), None);
    assert!(Date::from_ymd_opt(262142, 12, 31).is_some());
    assert_eq!(parse_date("2012-02-30"), None);
}

#[test]
fn date_parse_reads_a_prefix_and_signs() {
    assert_eq!(parse_date("2012-06-03,rest"), Some(ymd(2012, 6, 3)));
    assert_eq!(parse_date("+2012-6-3"), Some(ymd(2012, 6, 3)));
    assert_eq!(parse_date("-44-03-15"), Some(ymd(-44, 3, 15)));
    assert_eq!(parse_date("2012/06/03"), None);
    assert_eq!(parse_date("-2012"), None);
    assert_eq!(parse_date(""), None);
    assert_eq!(parse_date("99999999999-01-01"), None);
}

#[test]
fn weather_names_ignore_case() {
    assert_eq!(parse_weather_kind(b"SUN"), Some(WeatherKind::Sun));
    assert_eq!(parse_weather_kind(b"Drizzle"), Some(WeatherKind::Drizzle));
    assert_eq!(parse_weather_kind(b"fog"), Some(WeatherKind::Fog));
    assert_eq!(parse_weather_kind(b"snoW"), Some(WeatherKind::Snow));
    assert_eq!(parse_weather_kind(b"rain "), None);
    assert_eq!(parse_weather_kind(b"hail"), None);
    assert_eq!(WeatherKind::Rain.name(), b"rain".to_vec());
    assert_eq!(WeatherKind::all().len(), 5);
}

#[test]
fn row_errors_name_the_failing_field() {
    assert_eq!(parse_weather_row("2012-02-30,0.0,17.2,9.4,2.9,sun"), Err(RowError::InvalidDate));
    assert_eq!(parse_weather_row("2012-06-03;0.0,17.2,9.4,2.9,sun"), Err(RowError::InvalidDate));
    assert_eq!(parse_weather_row("2012-06-03,0.0,17.2x,9.4,2.9,sun"), Err(RowError::InvalidReading));
    assert_eq!(parse_weather_row("2012-06-03,0.0,17.2,9.4,2.9"), Err(RowError::InvalidReading));
    assert_eq!(parse_weather_row("2012-06-03,0.0,17.2,9.4,2.9,hail"), Err(RowError::UnknownWeather));
}

#[test]
fn readings_keep_their_exact_value() {
    let e = parse_weather_row("2012-06-03,-1.5e1,17.2,9.4,2.9,SUN").unwrap();
    assert_eq!(f32::from_bits(e.precipitation.bits), -15.0);
    assert_eq!(f32::from_bits(e.temp_max.bits), 17.2);
    assert_eq!(f32::from_bits(e.temp_min.bits), 9.4);
    assert_eq!(e.weather, WeatherKind::Sun);
}

#[test]
fn blank_lines_and_carriage_returns() {
    let results = parse_weather_file_contents(
        "header\r\n2012-06-03,0.0,17.2,9.4,2.9,sun\r\n\r\n2012-06-05,0.0,1.0,2.0,3.0,fog\n",
    );
    assert_eq!(results.len(), 2);
    assert_eq!(results[1].as_ref().unwrap().weather, WeatherKind::Fog);
    let failed = parse_weather_file_contents("header\n\nbad line\n");
    assert_eq!(
        failed,
        vec![Err(WeatherEntryParseError {
            line_num: 3,
            line: b"bad line".to_vec(),
            parse_error: RowError::InvalidDate,
        })]
    );
    assert!(parse_weather_file_contents("").is_empty());
    assert!(parse_weather_file_contents("header only").is_empty());
}

#[test]
fn dataset_is_sorted_by_date() {
    let entries = weather_entries(
        "date,precipitation,temp_max,temp_min,wind,weather\n\
        2012-06-05,0.0,1.0,2.0,3.0,fog\n\
        2012-06-03,0.0,17.2,9.4,2.9,sun\n\
        2012-06-04,1.3,12.8,8.9,3.1,rain",
    )
    .unwrap();
    let dates: Vec<Date> = entries.iter().map(|e| e.date).collect();
    assert_eq!(dates, vec![ymd(2012, 6, 3), ymd(2012, 6, 4), ymd(2012, 6, 5)]);
}

#[test]
fn empty_dataset_is_not_an_error() {
    assert_eq!(weather_entries("date,precipitation,temp_max,temp_min,wind,weather\n"), Ok(vec![]));
}

#[test]
fn any_failed_row_fails_the_dataset() {
    let failures = weather_entries(
        "date,precipitation,temp_max,temp_min,wind,weather\n\
        2012-06-03,Oops,17.2,9.4,2.9,sun\n\
        2012-06-04,1.3,12.8,8.9,3.1,rain\n\
        2012-06-05,1.3,12.8,8.9,3.1,hail",
    )
    .unwrap_err();
    assert_eq!(failures.len(), 2);
    assert_eq!(failures[0].line_num, 2);
    assert_eq!(failures[0].parse_error, RowError::InvalidReading);
    assert_eq!(failures[1].line_num, 4);
    assert_eq!(failures[1].line, b"2012-06-05,1.3,12.8,8.9,3.1,hail".to_vec());
    assert_eq!(failures[1].parse_error, RowError::UnknownWeather);
}
