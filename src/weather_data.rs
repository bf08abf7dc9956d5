use vstd::prelude::*;
use vstd::string::StringSliceAdditionalSpecFns;

use crate::indexes::sorted_by_date;

verus! {

/// The kinds of weather an observation can report. More kinds may be added,
/// so callers should not rely on this list being complete.
#[non_exhaustive]
#[derive(Debug, PartialEq, Eq, Structural, Hash, Clone, Copy)]
pub enum WeatherKind {
    Drizzle,
    Rain,
    Snow,
    Sun,
    Fog,
}

/// A calendar date of the proleptic Gregorian calendar, held as its day
/// number counted from the first day of the common era (day 1 is 0001-01-01).
/// Later dates have larger day numbers.
#[derive(Debug, PartialEq, Eq, Structural, Hash, Clone, Copy)]
pub struct Date {
    pub days_from_ce: i32,
}

/// A measured value, held as the bit pattern of a 32-bit IEEE-754 float.
#[derive(Debug, PartialEq, Eq, Structural, Hash, Clone, Copy)]
pub struct Reading {
    pub bits: u32,
}

/// One row of the weather table.
#[derive(Debug, PartialEq, Eq, Structural, Clone, Copy)]
pub struct WeatherEntry {
    /// Date of the entry
    pub date: Date,
    /// Amount of precipitation
    pub precipitation: Reading,
    /// Daily low temperature in degrees Celsius
    pub temp_min: Reading,
    /// Daily high temperature in degrees Celsius
    pub temp_max: Reading,
    /// Average wind speed over the day
    pub wind: Reading,
    /// Human weather description
    pub weather: WeatherKind,
}

/// The earliest year that chrono's dates reach.
pub const MIN_YEAR: i32 = -262143;

/// The latest year that chrono's dates reach.
pub const MAX_YEAR: i32 = 262142;

/// Leap years of the proleptic Gregorian calendar.
pub open spec fn is_leap_year(y: int) -> bool {
    (y % 4 == 0 && y % 100 != 0) || y % 400 == 0
}

/// The number of days in month `m` of year `y`.
pub open spec fn days_in_month(y: int, m: int) -> int {
    if m == 2 {
        if is_leap_year(y) { 29 } else { 28 }
    } else if m == 4 || m == 6 || m == 9 || m == 11 {
        30
    } else {
        31
    }
}

/// Whether year, month and day name a day that chrono can represent.
pub open spec fn valid_calendar_date(year: i32, month: u32, day: u32) -> bool {
    &&& MIN_YEAR <= year <= MAX_YEAR
    &&& 1 <= month <= 12
    &&& 1 <= day <= days_in_month(year as int, month as int)
}

/// The day number, counted from 0001-01-01 as day 1, of a valid calendar date.
pub uninterp spec fn ce_day_number(year: i32, month: u32, day: u32) -> i32;

/// Relies on chrono's `NaiveDate::from_ymd_opt`, which gives `None` exactly
/// for a day missing from the proleptic Gregorian calendar or outside chrono's
/// years, and on `Datelike::num_days_from_ce` for the day number.
#[verifier::external_body]
fn ce_day_number_of(year: i32, month: u32, day: u32) -> (r: Option<i32>)
    ensures
        r == (if valid_calendar_date(year, month, day) {
            Some(ce_day_number(year, month, day))
        } else {
            None
        }),
{
    chrono::NaiveDate::from_ymd_opt(year, month, day).map(
        |d| chrono::Datelike::num_days_from_ce(&d),
    )
}

impl Date {
    /// The date with the given year, month and day, if it exists.
    pub fn from_ymd_opt(year: i32, month: u32, day: u32) -> (r: Option<Date>)
        ensures
            r == (if valid_calendar_date(year, month, day) {
                Some(Date { days_from_ce: ce_day_number(year, month, day) })
            } else {
                None
            }),
    {
        match ce_day_number_of(year, month, day) {
            Some(n) => Some(Date { days_from_ce: n }),
            None => None,
        }
    }
}

/// An ASCII decimal digit.
pub open spec fn is_digit(c: u8) -> bool {
    48 <= c <= 57
}

/// The end of the run of decimal digits that starts at `i`.
pub open spec fn digits_end(b: Seq<u8>, i: int) -> int
    decreases b.len() - i,
{
    if 0 <= i < b.len() && is_digit(b[i]) {
        digits_end(b, i + 1)
    } else {
        i
    }
}

/// The value of the decimal digits `b[i..j]`.
pub open spec fn digits_value(b: Seq<u8>, i: int, j: int) -> int
    decreases j - i,
{
    if j <= i {
        0
    } else {
        digits_value(b, i, j - 1) * 10 + (b[j - 1] - 48)
    }
}

/// An unsigned 32-bit number at `i`: one digit or more, and where it ends.
pub open spec fn unsigned_at(b: Seq<u8>, i: int) -> Option<(u32, int)> {
    let e = digits_end(b, i);
    if e == i || digits_value(b, i, e) > u32::MAX {
        None
    } else {
        Some((digits_value(b, i, e) as u32, e))
    }
}

/// A signed 32-bit number at `i`: an optional `+` or `-`, then one digit or
/// more, and where it ends.
pub open spec fn signed_at(b: Seq<u8>, i: int) -> Option<(i32, int)> {
    let neg = 0 <= i < b.len() && b[i] == 45;
    let start = if 0 <= i < b.len() && (b[i] == 45 || b[i] == 43) { i + 1 } else { i };
    let e = digits_end(b, start);
    let v = if neg { -digits_value(b, start, e) } else { digits_value(b, start, e) };
    if e == start || v < i32::MIN || v > i32::MAX {
        None
    } else {
        Some((v as i32, e))
    }
}

/// A date written `year-month-day` at the start of `b`, and where it ends.
pub open spec fn date_prefix(b: Seq<u8>) -> Option<(Date, int)> {
    match signed_at(b, 0) {
        None => None,
        Some((y, year_end)) => if !(year_end < b.len() && b[year_end] == 45) {
            None
        } else {
            match unsigned_at(b, year_end + 1) {
                None => None,
                Some((m, month_end)) => if !(month_end < b.len() && b[month_end] == 45) {
                    None
                } else {
                    match unsigned_at(b, month_end + 1) {
                        None => None,
                        Some((d, day_end)) => if valid_calendar_date(y, m, d) {
                            Some((Date { days_from_ce: ce_day_number(y, m, d) }, day_end))
                        } else {
                            None
                        },
                    }
                },
            }
        },
    }
}

/// Reads the run of digits at `start`: where it ends, and its value if that
/// is at most `cap`.
pub(crate) fn scan_digits(b: &[u8], start: usize, cap: u64) -> (r: (usize, Option<u64>))
    requires
        start <= b@.len(),
    ensures
        start <= r.0 <= b@.len(),
        r.0 == digits_end(b@, start as int),
        digits_value(b@, start as int, r.0 as int) >= 0,
        r.1 == (if digits_value(b@, start as int, r.0 as int) <= cap {
            Some(digits_value(b@, start as int, r.0 as int) as u64)
        } else {
            None
        }),
{
    let mut j: usize = start;
    let mut value: u64 = 0;
    let mut over = false;
    while j < b.len() && 48 <= b[j] && b[j] <= 57
        invariant
            start <= j <= b@.len(),
            digits_end(b@, j as int) == digits_end(b@, start as int),
            value <= cap,
            !over ==> value == digits_value(b@, start as int, j as int),
            over ==> digits_value(b@, start as int, j as int) > cap,
            digits_value(b@, start as int, j as int) >= 0,
        decreases b@.len() - j,
    {
        let d = (b[j] - 48) as u64;
        if !over {
            if d <= cap && value <= (cap - d) / 10 {
                assert(value * 10 + d <= cap);
                value = value * 10 + d;
            } else {
                assert(value * 10 + d > cap);
                over = true;
            }
        }
        j += 1;
    }
    if over {
        (j, None)
    } else {
        (j, Some(value))
    }
}

/// Reads an unsigned 32-bit number at `i`.
fn unsigned_at_exec(b: &[u8], i: usize) -> (r: Option<(u32, usize)>)
    requires
        i <= b@.len(),
    ensures
        match r {
            Some((v, e)) => unsigned_at(b@, i as int) == Some((v, e as int)) && e <= b@.len(),
            None => unsigned_at(b@, i as int).is_none(),
        },
{
    let (e, v) = scan_digits(b, i, 0xffff_ffffu64);
    match v {
        Some(v) => if e == i { None } else { Some((v as u32, e)) },
        None => None,
    }
}

/// Reads a signed 32-bit number at `i`.
fn signed_at_exec(b: &[u8], i: usize) -> (r: Option<(i32, usize)>)
    requires
        i <= b@.len(),
    ensures
        match r {
            Some((v, e)) => signed_at(b@, i as int) == Some((v, e as int)) && e <= b@.len(),
            None => signed_at(b@, i as int).is_none(),
        },
{
    let neg = i < b.len() && b[i] == 45;
    let start = if i < b.len() && (b[i] == 45 || b[i] == 43) { i + 1 } else { i };
    let cap: u64 = if neg { 0x8000_0000 } else { 0x7fff_ffff };
    let (e, v) = scan_digits(b, start, cap);
    match v {
        Some(v) => if e == start {
            None
        } else if neg {
            Some(((0 - (v as i64)) as i32, e))
        } else {
            Some((v as i32, e))
        },
        None => None,
    }
}

/// Reads a date at the start of `b`.
fn date_prefix_exec(b: &[u8]) -> (r: Option<(Date, usize)>)
    ensures
        match r {
            Some((v, e)) => date_prefix(b@) == Some((v, e as int)) && e <= b@.len(),
            None => date_prefix(b@).is_none(),
        },
{
    let (y, year_end) = match signed_at_exec(b, 0) {
        Some(x) => x,
        None => return None,
    };
    if !(year_end < b.len() && b[year_end] == 45) {
        return None;
    }
    let (m, month_end) = match unsigned_at_exec(b, year_end + 1) {
        Some(x) => x,
        None => return None,
    };
    if !(month_end < b.len() && b[month_end] == 45) {
        return None;
    }
    let (d, day_end) = match unsigned_at_exec(b, month_end + 1) {
        Some(x) => x,
        None => return None,
    };
    match Date::from_ymd_opt(y, m, d) {
        Some(date) => Some((date, day_end)),
        None => None,
    }
}

/// Parses a date written `year-month-day` at the start of `date_str`; what
/// follows the date is left alone.
pub fn parse_date(date_str: &str) -> (r: Option<Date>)
    ensures
        r == (match date_prefix(date_str.spec_bytes()) {
            Some((d, _)) => Some(d),
            None => None,
        }),
{
    let b = date_str.as_bytes();
    match date_prefix_exec(b) {
        Some((d, _)) => Some(d),
        None => None,
    }
}

/// Why one row of the table could not be read.
#[derive(Debug, PartialEq, Eq, Structural, Clone, Copy)]
pub enum RowError {
    /// The row does not start with a valid `year-month-day` date and a comma.
    InvalidDate,
    /// One of the four readings is not a number followed by a comma.
    InvalidReading,
    /// The last field names no known kind of weather.
    UnknownWeather,
}

/// The lowercase name of a kind of weather, as ASCII bytes.
pub open spec fn kind_name(k: WeatherKind) -> Seq<u8> {
    match k {
        WeatherKind::Drizzle => seq![100u8, 114, 105, 122, 122, 108, 101],
        WeatherKind::Rain => seq![114u8, 97, 105, 110],
        WeatherKind::Snow => seq![115u8, 110, 111, 119],
        WeatherKind::Sun => seq![115u8, 117, 110],
        WeatherKind::Fog => seq![102u8, 111, 103],
    }
}

/// An ASCII letter in lower case; other bytes are kept.
pub open spec fn lower_ascii(c: u8) -> u8 {
    if 65 <= c <= 90 {
        (c + 32) as u8
    } else {
        c
    }
}

/// Whether `text` spells `name` with ASCII letters in any case.
pub open spec fn name_matches(text: Seq<u8>, name: Seq<u8>) -> bool {
    &&& text.len() == name.len()
    &&& forall|i: int| 0 <= i < text.len() ==> lower_ascii(text[i]) == name[i]
}

/// The kind of weather that `text` names, ignoring ASCII case.
pub open spec fn kind_of_name(text: Seq<u8>) -> Option<WeatherKind> {
    if name_matches(text, kind_name(WeatherKind::Drizzle)) {
        Some(WeatherKind::Drizzle)
    } else if name_matches(text, kind_name(WeatherKind::Rain)) {
        Some(WeatherKind::Rain)
    } else if name_matches(text, kind_name(WeatherKind::Snow)) {
        Some(WeatherKind::Snow)
    } else if name_matches(text, kind_name(WeatherKind::Sun)) {
        Some(WeatherKind::Sun)
    } else if name_matches(text, kind_name(WeatherKind::Fog)) {
        Some(WeatherKind::Fog)
    } else {
        None
    }
}

impl WeatherKind {
    /// The lowercase name of this kind of weather.
    pub fn name(&self) -> (r: Vec<u8>)
        ensures
            r@ == kind_name(*self),
    {
        let r = match self {
            WeatherKind::Drizzle => vec![100u8, 114, 105, 122, 122, 108, 101],
            WeatherKind::Rain => vec![114u8, 97, 105, 110],
            WeatherKind::Snow => vec![115u8, 110, 111, 119],
            WeatherKind::Sun => vec![115u8, 117, 110],
            WeatherKind::Fog => vec![102u8, 111, 103],
        };
        assert(r@ =~= kind_name(*self));
        r
    }

    /// Every kind of weather.
    pub fn all() -> (r: Vec<WeatherKind>)
        ensures
            r@ == seq![
                WeatherKind::Drizzle,
                WeatherKind::Rain,
                WeatherKind::Snow,
                WeatherKind::Sun,
                WeatherKind::Fog,
            ],
    {
        let r = vec![
            WeatherKind::Drizzle,
            WeatherKind::Rain,
            WeatherKind::Snow,
            WeatherKind::Sun,
            WeatherKind::Fog,
        ];
        assert(r@ =~= seq![
            WeatherKind::Drizzle,
            WeatherKind::Rain,
            WeatherKind::Snow,
            WeatherKind::Sun,
            WeatherKind::Fog,
        ]);
        r
    }
}

/// Whether `text` spells `name` in any ASCII case.
fn name_matches_exec(text: &[u8], name: &Vec<u8>) -> (r: bool)
    ensures
        r == name_matches(text@, name@),
{
    if text.len() != name.len() {
        return false;
    }
    let mut i: usize = 0;
    while i < text.len()
        invariant
            i <= text@.len(),
            text@.len() == name@.len(),
            forall|t: int| 0 <= t < i ==> lower_ascii(text@[t]) == name@[t],
        decreases text@.len() - i,
    {
        let c = text[i];
        let lower = if 65 <= c && c <= 90 { c + 32 } else { c };
        if lower != name[i] {
            return false;
        }
        i += 1;
    }
    true
}

/// Reads a kind of weather from its name, in any ASCII case.
pub fn parse_weather_kind(text: &[u8]) -> (r: Option<WeatherKind>)
    ensures
        r == kind_of_name(text@),
{
    let kinds = WeatherKind::all();
    let mut i: usize = 0;
    while i < kinds.len()
        invariant
            kinds@ == seq![
                WeatherKind::Drizzle,
                WeatherKind::Rain,
                WeatherKind::Snow,
                WeatherKind::Sun,
                WeatherKind::Fog,
            ],
            i <= 5,
            forall|t: int| 0 <= t < i ==> !name_matches(text@, kind_name(#[trigger] kinds@[t])),
        decreases 5 - i,
    {
        let k = kinds[i];
        if name_matches_exec(text, &k.name()) {
            return Some(k);
        }
        i += 1;
    }
    assert(!name_matches(text@, kind_name(kinds@[0])));
    assert(!name_matches(text@, kind_name(kinds@[1])));
    assert(!name_matches(text@, kind_name(kinds@[2])));
    assert(!name_matches(text@, kind_name(kinds@[3])));
    assert(!name_matches(text@, kind_name(kinds@[4])));
    None
}

/// What nom's float parser reads at the start of `text`: how many bytes it
/// leaves unread, and the bit pattern of the 32-bit float it reads.
pub uninterp spec fn float_parse(text: Seq<u8>) -> Option<(usize, u32)>;

/// Relies on nom's `number::complete::float`: it reads a decimal number
/// (sign, digits, fraction, exponent, or `nan` / `inf`) at the start of `text`,
/// and hands back what it left unread, which here is kept as its length.
#[verifier::external_body]
fn float_parse_exec(text: &[u8]) -> (r: Option<(usize, u32)>)
    ensures
        r == float_parse(text@),
{
    nom::number::complete::float::<&[u8], nom::error::Error<&[u8]>>(text).ok().map(
        |(rest, f)| (rest.len(), f.to_bits()),
    )
}

/// A reading that takes up all of `text`.
pub open spec fn reading_of(text: Seq<u8>) -> Option<Reading> {
    match float_parse(text) {
        Some((rest, bits)) => if rest == 0 { Some(Reading { bits }) } else { None },
        None => None,
    }
}

/// The position of the first comma at or after `i`, or the length of `b`.
pub open spec fn comma_from(b: Seq<u8>, i: int) -> int
    decreases b.len() - i,
{
    if i < 0 || i >= b.len() {
        b.len() as int
    } else if b[i] == 44 {
        i
    } else {
        comma_from(b, i + 1)
    }
}

/// A reading at `i` followed by a comma, and where the next field starts.
pub open spec fn reading_field(b: Seq<u8>, i: int) -> Option<(Reading, int)> {
    let c = comma_from(b, i);
    if c < b.len() {
        match reading_of(b.subrange(i, c)) {
            Some(r) => Some((r, c + 1)),
            None => None,
        }
    } else {
        None
    }
}

/// One row of the table: `date,precipitation,temp_max,temp_min,wind,weather`.
pub open spec fn row_of(b: Seq<u8>) -> Result<WeatherEntry, RowError> {
    match date_prefix(b) {
        None => Err(RowError::InvalidDate),
        Some((date, date_end)) => if !(date_end < b.len() && b[date_end] == 44) {
            Err(RowError::InvalidDate)
        } else {
            match reading_field(b, date_end + 1) {
                None => Err(RowError::InvalidReading),
                Some((precipitation, precipitation_end)) => match reading_field(b, precipitation_end) {
                    None => Err(RowError::InvalidReading),
                    Some((temp_max, temp_max_end)) => match reading_field(b, temp_max_end) {
                        None => Err(RowError::InvalidReading),
                        Some((temp_min, temp_min_end)) => match reading_field(b, temp_min_end) {
                            None => Err(RowError::InvalidReading),
                            Some((wind, wind_end)) => match kind_of_name(b.subrange(wind_end, b.len() as int)) {
                                None => Err(RowError::UnknownWeather),
                                Some(weather) => Ok(
                                    WeatherEntry {
                                        date,
                                        precipitation,
                                        temp_min,
                                        temp_max,
                                        wind,
                                        weather,
                                    },
                                ),
                            },
                        },
                    },
                },
            }
        },
    }
}

/// Reads a reading at `i` that a comma ends.
fn reading_field_exec(b: &[u8], i: usize) -> (r: Option<(Reading, usize)>)
    requires
        i <= b@.len(),
    ensures
        match r {
            Some((x, e)) => reading_field(b@, i as int) == Some((x, e as int)) && e <= b@.len(),
            None => reading_field(b@, i as int).is_none(),
        },
{
    let mut c: usize = i;
    while c < b.len() && b[c] != 44
        invariant
            i <= c <= b@.len(),
            comma_from(b@, c as int) == comma_from(b@, i as int),
        decreases b@.len() - c,
    {
        c += 1;
    }
    if c == b.len() {
        return None;
    }
    let field = vstd::slice::slice_subrange(b, i, c);
    match float_parse_exec(field) {
        Some((rest, bits)) => if rest == 0 { Some((Reading { bits }, c + 1)) } else { None },
        None => None,
    }
}

/// Reads one row of the table from its bytes.
fn parse_row_bytes(b: &[u8]) -> (r: Result<WeatherEntry, RowError>)
    ensures
        r == row_of(b@),
{
    let (date, date_end) = match date_prefix_exec(b) {
        Some(x) => x,
        None => return Err(RowError::InvalidDate),
    };
    if !(date_end < b.len() && b[date_end] == 44) {
        return Err(RowError::InvalidDate);
    }
    let (precipitation, precipitation_end) = match reading_field_exec(b, date_end + 1) {
        Some(x) => x,
        None => return Err(RowError::InvalidReading),
    };
    let (temp_max, temp_max_end) = match reading_field_exec(b, precipitation_end) {
        Some(x) => x,
        None => return Err(RowError::InvalidReading),
    };
    let (temp_min, temp_min_end) = match reading_field_exec(b, temp_max_end) {
        Some(x) => x,
        None => return Err(RowError::InvalidReading),
    };
    let (wind, wind_end) = match reading_field_exec(b, temp_min_end) {
        Some(x) => x,
        None => return Err(RowError::InvalidReading),
    };
    let rest = vstd::slice::slice_subrange(b, wind_end, b.len());
    match parse_weather_kind(rest) {
        Some(weather) => Ok(WeatherEntry { date, precipitation, temp_min, temp_max, wind, weather }),
        None => Err(RowError::UnknownWeather),
    }
}

/// Reads one row of the table: `date,precipitation,temp_max,temp_min,wind,weather`,
/// with the weather named in any ASCII case.
pub fn parse_weather_row(weather_entry_str: &str) -> (r: Result<WeatherEntry, RowError>)
    ensures
        r == row_of(weather_entry_str.spec_bytes()),
{
    let b = weather_entry_str.as_bytes();
    parse_row_bytes(b)
}

/// A row that could not be read: its 1-based line number in the file, its
/// text and why it failed.
#[derive(Debug, PartialEq, Eq)]
pub struct WeatherEntryParseError {
    pub line_num: usize,
    pub line: Vec<u8>,
    pub parse_error: RowError,
}

/// The position of the first newline at or after `i`, or the length of `b`.
pub open spec fn newline_from(b: Seq<u8>, i: int) -> int
    decreases b.len() - i,
{
    if i < 0 || i >= b.len() {
        b.len() as int
    } else if b[i] == 10 {
        i
    } else {
        newline_from(b, i + 1)
    }
}

/// Where the line that starts at `i` ends: before its newline, and before a
/// carriage return just ahead of that newline.
pub open spec fn line_end(b: Seq<u8>, i: int) -> int {
    let n = newline_from(b, i);
    if i < n < b.len() && b[n - 1] == 13 {
        n - 1
    } else {
        n
    }
}

/// A newline search ends between its start and the end of the text.
proof fn lemma_newline_from_bounds(b: Seq<u8>, i: int)
    requires
        0 <= i <= b.len(),
    ensures
        i <= newline_from(b, i) <= b.len(),
    decreases b.len() - i,
{
    if i < b.len() && b[i] != 10 {
        lemma_newline_from_bounds(b, i + 1);
    }
}

/// The lines of `b` from position `i` on, as `(start, end)` spans. Text after
/// the last newline is a line when it is not empty. (A newline is never found
/// before where the search starts; the test of that only shows termination.)
pub open spec fn lines_from(b: Seq<u8>, i: int) -> Seq<(int, int)>
    decreases b.len() - i,
{
    if i < 0 || i >= b.len() || newline_from(b, i) < i {
        Seq::empty()
    } else if newline_from(b, i) >= b.len() {
        seq![(i, line_end(b, i))]
    } else {
        seq![(i, line_end(b, i))] + lines_from(b, newline_from(b, i) + 1)
    }
}

/// What a failed or read row gives, with the row's line number and text.
pub open spec fn line_outcome(line: Seq<u8>, line_num: int) -> Result<
    WeatherEntry,
    (int, Seq<u8>, RowError),
> {
    match row_of(line) {
        Ok(e) => Ok(e),
        Err(k) => Err((line_num, line, k)),
    }
}

/// The outcomes of the lines `spans`, the first of which has 0-based index
/// `idx` in the file. The header (index 0) and empty lines give none.
pub open spec fn outcomes(b: Seq<u8>, spans: Seq<(int, int)>, idx: int) -> Seq<
    Result<WeatherEntry, (int, Seq<u8>, RowError)>,
>
    decreases spans.len(),
{
    if spans.len() == 0 {
        Seq::empty()
    } else {
        let rest = outcomes(b, spans.drop_first(), idx + 1);
        if idx == 0 || spans[0].0 == spans[0].1 {
            rest
        } else {
            seq![line_outcome(b.subrange(spans[0].0, spans[0].1), idx + 1)] + rest
        }
    }
}

/// The outcome of every row of a file with a header line.
pub open spec fn file_outcomes(b: Seq<u8>) -> Seq<Result<WeatherEntry, (int, Seq<u8>, RowError)>> {
    outcomes(b, lines_from(b, 0), 0)
}

/// An outcome as plain values.
pub open spec fn outcome_view(r: Result<WeatherEntry, WeatherEntryParseError>) -> Result<
    WeatherEntry,
    (int, Seq<u8>, RowError),
> {
    match r {
        Ok(e) => Ok(e),
        Err(x) => Err((x.line_num as int, x.line@, x.parse_error)),
    }
}

/// Reads every row of a file whose first line is a header. Empty lines are
/// passed over; each other line gives its entry or an error that carries its
/// line number and text.
pub fn parse_weather_file_contents(raw_weather_data: &str) -> (r: Vec<
    Result<WeatherEntry, WeatherEntryParseError>,
>)
    ensures
        r@.map_values(|x| outcome_view(x)) == file_outcomes(raw_weather_data.spec_bytes()),
{
    let b = raw_weather_data.as_bytes();
    let ghost total = file_outcomes(b@);
    let mut r: Vec<Result<WeatherEntry, WeatherEntryParseError>> = Vec::new();
    let mut i: usize = 0;
    let mut idx: usize = 0;
    while i < b.len()
        invariant
            i <= b@.len(),
            idx <= i,
            r@.map_values(|x| outcome_view(x)) + outcomes(b@, lines_from(b@, i as int), idx as int)
                == total,
        decreases b@.len() - i,
    {
        let mut n: usize = i;
        while n < b.len() && b[n] != 10
            invariant
                i <= n <= b@.len(),
                newline_from(b@, n as int) == newline_from(b@, i as int),
            decreases b@.len() - n,
        {
            n += 1;
        }
        let end: usize = if i < n && n < b.len() && b[n - 1] == 13 { n - 1 } else { n };
        let ghost before = r@.map_values(|x| outcome_view(x));
        let ghost spans = lines_from(b@, i as int);
        proof {
            lemma_newline_from_bounds(b@, i as int);
        }
        assert(spans =~= seq![(i as int, end as int)] + lines_from(b@, n + 1));
        assert(spans.drop_first() =~= lines_from(b@, n + 1));
        if idx != 0 && i != end {
            let line = vstd::slice::slice_subrange(b, i, end);
            let outcome = match parse_row_bytes(line) {
                Ok(e) => Ok(e),
                Err(k) => Err(
                    WeatherEntryParseError {
                        line_num: idx + 1,
                        line: vstd::slice::slice_to_vec(line),
                        parse_error: k,
                    },
                ),
            };
            r.push(outcome);
            assert(r@.map_values(|x| outcome_view(x)) =~= before + seq![
                line_outcome(b@.subrange(i as int, end as int), idx + 1),
            ]);
        }
        i = if n < b.len() { n + 1 } else { n };
        idx = idx + 1;
    }
    r
}

/// The entries that the rows gave, in file order.
pub open spec fn entries_read(outs: Seq<Result<WeatherEntry, (int, Seq<u8>, RowError)>>) -> Seq<
    WeatherEntry,
>
    decreases outs.len(),
{
    if outs.len() == 0 {
        Seq::empty()
    } else {
        match outs.last() {
            Ok(e) => entries_read(outs.drop_last()).push(e),
            Err(_) => entries_read(outs.drop_last()),
        }
    }
}

/// The rows that failed, in file order.
pub open spec fn rows_failed(outs: Seq<Result<WeatherEntry, (int, Seq<u8>, RowError)>>) -> Seq<
    (int, Seq<u8>, RowError),
>
    decreases outs.len(),
{
    if outs.len() == 0 {
        Seq::empty()
    } else {
        match outs.last() {
            Ok(_) => rows_failed(outs.drop_last()),
            Err(x) => rows_failed(outs.drop_last()).push(x),
        }
    }
}

/// A failed row as plain values.
pub open spec fn failure_view(x: WeatherEntryParseError) -> (int, Seq<u8>, RowError) {
    (x.line_num as int, x.line@, x.parse_error)
}

/// Relies on std's `slice::sort_by_key`: it reorders the entries so that
/// their day numbers ascend.
#[verifier::external_body]
fn sort_by_date(v: &mut Vec<WeatherEntry>)
    ensures
        final(v)@.to_multiset() == old(v)@.to_multiset(),
        sorted_by_date(final(v)@),
{
    v.sort_by_key(|e| e.date.days_from_ce)
}

/// Loads the dataset from the text of a file with a header line. When every
/// row reads, the result is those entries sorted by date; when any row fails,
/// the result is every failed row, in file order, and no entry.
pub fn weather_entries(raw_weather_data: &str) -> (r: Result<Vec<WeatherEntry>, Vec<WeatherEntryParseError>>)
    ensures
        ({
            let outs = file_outcomes(raw_weather_data.spec_bytes());
            match r {
                Ok(v) => rows_failed(outs).len() == 0 && sorted_by_date(v@) && v@.to_multiset()
                    == entries_read(outs).to_multiset(),
                Err(es) => rows_failed(outs).len() > 0 && es@.map_values(|x| failure_view(x))
                    == rows_failed(outs),
            }
        }),
{
    let results = parse_weather_file_contents(raw_weather_data);
    let ghost outs = file_outcomes(raw_weather_data.spec_bytes());
    let mut entries: Vec<WeatherEntry> = Vec::new();
    let mut errors: Vec<WeatherEntryParseError> = Vec::new();
    let mut i: usize = 0;
    while i < results.len()
        invariant
            i <= results@.len(),
            results@.map_values(|x| outcome_view(x)) == outs,
            entries@ == entries_read(outs.take(i as int)),
            errors@.map_values(|x| failure_view(x)) == rows_failed(outs.take(i as int)),
        decreases results@.len() - i,
    {
        let ghost before = errors@.map_values(|x| failure_view(x));
        assert(outs.take(i + 1).drop_last() =~= outs.take(i as int));
        assert(outs[i as int] == outcome_view(results@[i as int]));
        match &results[i] {
            Ok(e) => {
                entries.push(*e);
            },
            Err(x) => {
                let line = x.line.clone();
                assert(line@ =~= x.line@);
                errors.push(WeatherEntryParseError { line_num: x.line_num, line, parse_error: x.parse_error });
                assert(errors@.map_values(|x| failure_view(x)) =~= before.push(failure_view(*x)));
            },
        }
        i += 1;
    }
    assert(outs.take(results@.len() as int) =~= outs);
    if errors.len() > 0 {
        return Err(errors);
    }
    sort_by_date(&mut entries);
    Ok(entries)
}

} // verus!
