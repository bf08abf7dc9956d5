use std::collections::HashMap;
use vstd::prelude::*;

use vstd::string::StringSliceAdditionalSpecFns;

use crate::weather_data::{
    date_prefix, digits_end, digits_value, kind_of_name, parse_date, parse_weather_kind,
    scan_digits, Date, WeatherEntry, WeatherKind,
};

verus! {

broadcast use vstd::std_specs::hash::group_hash_axioms;

/// A validated query. Every constraint that is present must hold of a
/// returned entry.
#[derive(Debug, Clone, Copy)]
pub struct WeatherQuery {
    /// Optional limit on the number of items to return
    pub limit: Option<usize>,
    /// Optional date for which we want to return the weather
    pub date: Option<Date>,
    /// Optional kind of weather that returned days must have
    pub weather: Option<WeatherKind>,
}

/// Which query parameter was not valid.
#[derive(Debug, PartialEq, Eq, Structural, Clone, Copy)]
pub enum QueryParamError {
    /// The limit is not a non-negative integer that fits in `usize`.
    InvalidLimit,
    /// The date does not start with a valid `year-month-day` date.
    InvalidDate,
    /// The weather names no known kind of weather.
    InvalidWeather,
}

/// A limit written as an optional `+` and then decimal digits only.
pub open spec fn limit_of(b: Seq<u8>) -> Option<usize> {
    let start: int = if b.len() > 0 && b[0] == 43 { 1 } else { 0 };
    let e = digits_end(b, start);
    if e == start || e != b.len() || digits_value(b, start, e) > usize::MAX {
        None
    } else {
        Some(digits_value(b, start, e) as usize)
    }
}

/// The bytes of an optional text.
pub open spec fn bytes_of(text: Option<&str>) -> Option<Seq<u8>> {
    match text {
        Some(t) => Some(t.spec_bytes()),
        None => None,
    }
}

/// The query that raw parameters give, or the first of limit, date and
/// weather that is not valid. Only what a date parameter starts with is read.
pub open spec fn query_of(
    limit: Option<Seq<u8>>,
    date: Option<Seq<u8>>,
    weather: Option<Seq<u8>>,
) -> Result<WeatherQuery, QueryParamError> {
    if limit.is_some() && limit_of(limit.unwrap()).is_none() {
        Err(QueryParamError::InvalidLimit)
    } else if date.is_some() && date_prefix(date.unwrap()).is_none() {
        Err(QueryParamError::InvalidDate)
    } else if weather.is_some() && kind_of_name(weather.unwrap()).is_none() {
        Err(QueryParamError::InvalidWeather)
    } else {
        Ok(
            WeatherQuery {
                limit: if limit.is_some() { limit_of(limit.unwrap()) } else { None },
                date: if date.is_some() { Some(date_prefix(date.unwrap()).unwrap().0) } else { None },
                weather: if weather.is_some() { kind_of_name(weather.unwrap()) } else { None },
            },
        )
    }
}

/// Reads a limit: an optional `+` and then decimal digits only.
pub fn parse_limit(text: &str) -> (r: Option<usize>)
    ensures
        r == limit_of(text.spec_bytes()),
{
    let b = text.as_bytes();
    let start: usize = if b.len() > 0 && b[0] == 43 { 1 } else { 0 };
    let (e, v) = scan_digits(b, start, usize::MAX as u64);
    if e == start || e != b.len() {
        return None;
    }
    match v {
        Some(v) => Some(v as usize),
        None => None,
    }
}

/// Turns raw query parameters into a validated query. The limit, then the
/// date, then the weather is checked, and the first that is not valid is
/// reported.
pub fn parse_query(limit: Option<&str>, date: Option<&str>, weather: Option<&str>) -> (r: Result<
    WeatherQuery,
    QueryParamError,
>)
    ensures
        r == query_of(bytes_of(limit), bytes_of(date), bytes_of(weather)),
{
    let limit = match limit {
        Some(text) => match parse_limit(text) {
            Some(n) => Some(n),
            None => return Err(QueryParamError::InvalidLimit),
        },
        None => None,
    };
    let date = match date {
        Some(text) => match parse_date(text) {
            Some(d) => Some(d),
            None => return Err(QueryParamError::InvalidDate),
        },
        None => None,
    };
    let weather = match weather {
        Some(text) => match parse_weather_kind(text.as_bytes()) {
            Some(k) => Some(k),
            None => return Err(QueryParamError::InvalidWeather),
        },
        None => None,
    };
    Ok(WeatherQuery { limit, date, weather })
}

/// The predicate "has weather of kind `k`".
pub open spec fn has_kind(k: WeatherKind) -> spec_fn(WeatherEntry) -> bool {
    |e: WeatherEntry| e.weather == k
}

/// The entries of `s` with weather of kind `k`, in their order in `s`.
pub open spec fn entries_of_kind(s: Seq<WeatherEntry>, k: WeatherKind) -> Seq<WeatherEntry> {
    s.filter(has_kind(k))
}

/// The last entry of `s` on date `d`, if there is one. Where dates are
/// unique it is the only one.
pub open spec fn last_on_date(s: Seq<WeatherEntry>, d: Date) -> Option<WeatherEntry>
    decreases s.len(),
{
    if s.len() == 0 {
        None
    } else if s.last().date == d {
        Some(s.last())
    } else {
        last_on_date(s.drop_last(), d)
    }
}

/// The front of `s` that a limit lets through.
pub open spec fn first_n(s: Seq<WeatherEntry>, limit: Option<usize>) -> Seq<WeatherEntry> {
    match limit {
        Some(n) => if n < s.len() { s.take(n as int) } else { s },
        None => s,
    }
}

/// Whether an entry meets an optional kind constraint.
pub open spec fn kind_allows(weather: Option<WeatherKind>, e: WeatherEntry) -> bool {
    match weather {
        Some(k) => e.weather == k,
        None => true,
    }
}

/// What a query returns over the dataset `s`: a zero limit returns nothing;
/// else a date picks the entry of that date (if it meets the kind); else a
/// kind picks the entries of that kind; else the whole dataset. The limit
/// keeps the front of what the kind or the whole dataset gives.
pub open spec fn query_result(s: Seq<WeatherEntry>, q: WeatherQuery) -> Seq<WeatherEntry> {
    if q.limit == Some(0usize) {
        Seq::empty()
    } else if let Some(d) = q.date {
        match last_on_date(s, d) {
            Some(e) => if kind_allows(q.weather, e) { seq![e] } else { Seq::empty() },
            None => Seq::empty(),
        }
    } else if let Some(k) = q.weather {
        first_n(entries_of_kind(s, k), q.limit)
    } else {
        first_n(s, q.limit)
    }
}

/// Whether the dates of `s` ascend (equal dates allowed).
pub open spec fn sorted_by_date(s: Seq<WeatherEntry>) -> bool {
    forall|i: int, j: int|
        0 <= i <= j < s.len() ==> s[i].date.days_from_ce <= s[j].date.days_from_ce
}

/// Whether no two entries of `s` share a date.
pub open spec fn unique_dates(s: Seq<WeatherEntry>) -> bool {
    forall|i: int, j: int| 0 <= i < j < s.len() ==> s[i].date != s[j].date
}

/// The positions of the entries of one kind of weather.
struct KindGroup {
    kind: WeatherKind,
    positions: Vec<usize>,
}

/// The dataset together with its two lookup structures: a date index from
/// each date to the position of its entry, and a kind index from each kind of
/// weather to the positions of its entries in dataset order. Both hold
/// positions into the one dataset, never copies.
pub struct WeatherIndexes {
    entries: Vec<WeatherEntry>,
    by_date: HashMap<i32, usize>,
    by_kind: Vec<KindGroup>,
}

impl WeatherIndexes {
    /// The dataset, in the order it was given.
    pub closed spec fn dataset(&self) -> Seq<WeatherEntry> {
        self.entries@
    }

    /// The date index of `s`: it holds a date exactly where `s` does, at the
    /// position of the last entry of that date.
    spec fn date_index_of(by_date: Map<i32, usize>, s: Seq<WeatherEntry>) -> bool {
        forall|d: Date|
            match #[trigger] last_on_date(s, d) {
                Some(e) => by_date.contains_key(d.days_from_ce) && by_date[d.days_from_ce] < s.len()
                    && s[by_date[d.days_from_ce] as int] == e,
                None => !by_date.contains_key(d.days_from_ce),
            }
    }

    /// The kind index of `s` over a dataset `all` whose front is `s`: one
    /// group per kind, each listing the positions of that kind in order.
    spec fn kind_index_of(groups: Seq<KindGroup>, s: Seq<WeatherEntry>, all: Seq<WeatherEntry>) -> bool {
        &&& forall|a: int, b: int|
            0 <= a < b < groups.len() ==> groups[a].kind != groups[b].kind
        &&& forall|a: int|
            0 <= a < groups.len() ==> {
                &&& forall|j: int|
                    0 <= j < groups[a].positions@.len() ==> groups[a].positions@[j] < s.len()
                &&& groups[a].positions@.map_values(|p: usize| all[p as int])
                    == entries_of_kind(s, groups[a].kind)
            }
        &&& forall|k: WeatherKind|
            (forall|a: int| 0 <= a < groups.len() ==> groups[a].kind != k)
                ==> #[trigger] entries_of_kind(s, k).len() == 0
    }

    /// The invariant that ties the two indexes to the dataset.
    pub closed spec fn wf(&self) -> bool {
        &&& Self::date_index_of(self.by_date@, self.entries@)
        &&& Self::kind_index_of(self.by_kind@, self.entries@, self.entries@)
    }
}

/// Appending an entry makes it the last one on its date.
proof fn lemma_last_on_date_push(s: Seq<WeatherEntry>, e: WeatherEntry, d: Date)
    ensures
        last_on_date(s.push(e), d) == (if e.date == d { Some(e) } else { last_on_date(s, d) }),
{
    assert(s.push(e).drop_last() =~= s);
}

/// Appending an entry appends it to the entries of its kind only.
proof fn lemma_kind_push(s: Seq<WeatherEntry>, e: WeatherEntry, k: WeatherKind)
    ensures
        entries_of_kind(s.push(e), k) == (if e.weather == k {
            entries_of_kind(s, k).push(e)
        } else {
            entries_of_kind(s, k)
        }),
{
    reveal(Seq::filter);
    assert(s.push(e).drop_last() =~= s);
}

/// Builds both indexes over `entries` in one pass each. The dataset is taken
/// by value, so the indexes are built once and cannot change afterwards.
pub fn populate_indexes(entries: Vec<WeatherEntry>) -> (r: WeatherIndexes)
    ensures
        r.wf(),
        r.dataset() == entries@,
{
    let mut by_date: HashMap<i32, usize> = HashMap::new();
    let mut i: usize = 0;
    while i < entries.len()
        invariant
            i <= entries.len(),
            WeatherIndexes::date_index_of(by_date@, entries@.take(i as int)),
        decreases entries.len() - i,
    {
        let e = entries[i];
        by_date.insert(e.date.days_from_ce, i);
        proof {
            let s0 = entries@.take(i as int);
            let s1 = entries@.take(i + 1);
            assert(s1 =~= s0.push(e));
            assert forall|d: Date|
                match #[trigger] last_on_date(s1, d) {
                    Some(x) => by_date@.contains_key(d.days_from_ce) && by_date@[d.days_from_ce]
                        < s1.len() && s1[by_date@[d.days_from_ce] as int] == x,
                    None => !by_date@.contains_key(d.days_from_ce),
                } by {
                lemma_last_on_date_push(s0, e, d);
                match last_on_date(s0, d) {
                    Some(x) => {},
                    None => {},
                }
            }
        }
        i += 1;
    }
    assert(entries@.take(entries.len() as int) =~= entries@);

    let mut by_kind: Vec<KindGroup> = Vec::new();
    let mut i: usize = 0;
    while i < entries.len()
        invariant
            i <= entries.len(),
            WeatherIndexes::kind_index_of(by_kind@, entries@.take(i as int), entries@),
        decreases entries.len() - i,
    {
        let e = entries[i];
        let mut j: usize = 0;
        while j < by_kind.len() && by_kind[j].kind != e.weather
            invariant
                j <= by_kind.len(),
                forall|a: int| 0 <= a < j ==> by_kind@[a].kind != e.weather,
            decreases by_kind.len() - j,
        {
            j += 1;
        }
        let ghost s0 = entries@.take(i as int);
        let ghost s1 = entries@.take(i + 1);
        let ghost old_kind = by_kind@;
        assert(s1 =~= s0.push(e));
        if j < by_kind.len() {
            by_kind[j].positions.push(i);
            proof {
                assert forall|a: int| 0 <= a < by_kind@.len() implies {
                    &&& forall|t: int|
                        0 <= t < by_kind@[a].positions@.len() ==> by_kind@[a].positions@[t] < s1.len()
                    &&& by_kind@[a].positions@.map_values(|p: usize| entries@[p as int])
                        == entries_of_kind(s1, by_kind@[a].kind)
                } by {
                    lemma_kind_push(s0, e, by_kind@[a].kind);
                    if a == j {
                        assert(by_kind@[a].positions@.map_values(|p: usize| entries@[p as int])
                            =~= old_kind[a].positions@.map_values(|p: usize| entries@[p as int]).push(e));
                    } else {
                        assert(by_kind@[a] == old_kind[a]);
                    }
                }
                assert forall|k: WeatherKind|
                    (forall|a: int| 0 <= a < by_kind@.len() ==> by_kind@[a].kind != k)
                    implies #[trigger] entries_of_kind(s1, k).len() == 0 by {
                    lemma_kind_push(s0, e, k);
                    assert(by_kind@[j as int].kind != k);
                    assert forall|a: int| 0 <= a < old_kind.len() implies old_kind[a].kind != k by {
                        assert(by_kind@[a].kind == old_kind[a].kind);
                    }
                }
            }
        } else {
            let mut positions: Vec<usize> = Vec::new();
            positions.push(i);
            by_kind.push(KindGroup { kind: e.weather, positions });
            proof {
                assert forall|a: int| 0 <= a < by_kind@.len() implies {
                    &&& forall|t: int|
                        0 <= t < by_kind@[a].positions@.len() ==> by_kind@[a].positions@[t] < s1.len()
                    &&& by_kind@[a].positions@.map_values(|p: usize| entries@[p as int])
                        == entries_of_kind(s1, by_kind@[a].kind)
                } by {
                    lemma_kind_push(s0, e, by_kind@[a].kind);
                    if a == j {
                        assert(entries_of_kind(s0, e.weather).len() == 0);
                        assert(by_kind@[a].positions@.map_values(|p: usize| entries@[p as int])
                            =~= entries_of_kind(s0, e.weather).push(e));
                    } else {
                        assert(by_kind@[a] == old_kind[a]);
                    }
                }
                assert forall|k: WeatherKind|
                    (forall|a: int| 0 <= a < by_kind@.len() ==> by_kind@[a].kind != k)
                    implies #[trigger] entries_of_kind(s1, k).len() == 0 by {
                    lemma_kind_push(s0, e, k);
                    assert(by_kind@[j as int].kind != k);
                    assert forall|a: int| 0 <= a < old_kind.len() implies old_kind[a].kind != k by {
                        assert(by_kind@[a] == old_kind[a]);
                    }
                }
            }
        }
        i += 1;
    }
    assert(entries@.take(entries.len() as int) =~= entries@);
    WeatherIndexes { entries, by_date, by_kind }
}

impl WeatherIndexes {
    /// Looks a date up in the date index.
    pub fn lookup_date(&self, date: Date) -> (r: Option<WeatherEntry>)
        requires
            self.wf(),
        ensures
            r == last_on_date(self.dataset(), date),
    {
        match self.by_date.get(&date.days_from_ce) {
            Some(p) => Some(self.entries[*p]),
            None => None,
        }
    }

    /// The front of the entries of one kind, through the kind index.
    fn kind_front(&self, kind: WeatherKind, limit: Option<usize>) -> (r: Vec<WeatherEntry>)
        requires
            self.wf(),
        ensures
            r@ == first_n(entries_of_kind(self.dataset(), kind), limit),
    {
        let mut j: usize = 0;
        while j < self.by_kind.len() && self.by_kind[j].kind != kind
            invariant
                j <= self.by_kind.len(),
                forall|a: int| 0 <= a < j ==> self.by_kind@[a].kind != kind,
            decreases self.by_kind.len() - j,
        {
            j += 1;
        }
        let mut r: Vec<WeatherEntry> = Vec::new();
        if j == self.by_kind.len() {
            assert(entries_of_kind(self.entries@, kind).len() == 0);
            assert(r@ =~= first_n(entries_of_kind(self.dataset(), kind), limit));
            return r;
        }
        let positions = &self.by_kind[j].positions;
        let ghost whole = positions@.map_values(|p: usize| self.entries@[p as int]);
        assert(whole == entries_of_kind(self.entries@, kind));
        let n: usize = match limit {
            Some(m) => if m < positions.len() { m } else { positions.len() },
            None => positions.len(),
        };
        let mut t: usize = 0;
        while t < n
            invariant
                n <= positions@.len(),
                t <= n,
                whole == positions@.map_values(|p: usize| self.entries@[p as int]),
                forall|x: int| 0 <= x < positions@.len() ==> positions@[x] < self.entries@.len(),
                r@ == whole.take(t as int),
            decreases n - t,
        {
            r.push(self.entries[positions[t]]);
            t += 1;
            assert(r@ =~= whole.take(t as int));
        }
        assert(r@ =~= first_n(entries_of_kind(self.dataset(), kind), limit));
        r
    }

    /// Looks a kind of weather up in the kind index: all entries of that
    /// kind, in dataset order.
    pub fn lookup_kind(&self, kind: WeatherKind) -> (r: Vec<WeatherEntry>)
        requires
            self.wf(),
        ensures
            r@ == entries_of_kind(self.dataset(), kind),
    {
        self.kind_front(kind, None)
    }
}

/// Answers a query that has a date and a limit other than zero, through the
/// date index. The kind, if given, must match the entry found.
fn handle_date_query(indexes: &WeatherIndexes, date: &Date, query: &WeatherQuery) -> (r: Vec<
    WeatherEntry,
>)
    requires
        indexes.wf(),
    ensures
        r@ == (match last_on_date(indexes.dataset(), *date) {
            Some(e) => if kind_allows(query.weather, e) { seq![e] } else { Seq::empty() },
            None => Seq::<WeatherEntry>::empty(),
        }),
{
    let mut r: Vec<WeatherEntry> = Vec::new();
    if let Some(single_result) = indexes.lookup_date(*date) {
        let matches = match query.weather {
            Some(weather) => weather == single_result.weather,
            None => true,
        };
        if matches {
            r.push(single_result);
        }
    }
    assert(r@ =~= (match last_on_date(indexes.dataset(), *date) {
        Some(e) => if kind_allows(query.weather, e) { seq![e] } else { Seq::empty() },
        None => Seq::<WeatherEntry>::empty(),
    }));
    r
}

/// Answers a query with a kind, no date and a limit other than zero, through
/// the kind index.
fn handle_kind_query(indexes: &WeatherIndexes, kind: WeatherKind, query: &WeatherQuery) -> (r: Vec<
    WeatherEntry,
>)
    requires
        indexes.wf(),
    ensures
        r@ == first_n(entries_of_kind(indexes.dataset(), kind), query.limit),
{
    indexes.kind_front(kind, query.limit)
}

/// Answers a query with neither date nor kind: the front of the dataset.
fn full_scan(indexes: &WeatherIndexes, query: &WeatherQuery) -> (r: Vec<WeatherEntry>)
    ensures
        r@ == first_n(indexes.dataset(), query.limit),
{
    let entries = &indexes.entries;
    let n: usize = match query.limit {
        Some(m) => if m < entries.len() { m } else { entries.len() },
        None => entries.len(),
    };
    let mut r: Vec<WeatherEntry> = Vec::new();
    let mut t: usize = 0;
    while t < n
        invariant
            n <= entries@.len(),
            t <= n,
            r@ == entries@.take(t as int),
        decreases n - t,
    {
        r.push(entries[t]);
        t += 1;
        assert(r@ =~= entries@.take(t as int));
    }
    assert(r@ =~= first_n(indexes.dataset(), query.limit));
    r
}

/// Answers a query, choosing the most selective path: a zero limit returns
/// nothing; a date goes through the date index; a kind goes through the kind
/// index; anything else scans the dataset from the front.
pub fn handle_query(indexes: &WeatherIndexes, query: &WeatherQuery) -> (r: Vec<WeatherEntry>)
    requires
        indexes.wf(),
    ensures
        r@ == query_result(indexes.dataset(), *query),
{
    if query.limit == Some(0usize) {
        Vec::new()
    } else if let Some(date_v) = &query.date {
        handle_date_query(indexes, date_v, query)
    } else if let Some(weather_kind) = query.weather {
        handle_kind_query(indexes, weather_kind, query)
    } else {
        full_scan(indexes, query)
    }
}

/// Where no two entries share a date, looking up the date of any entry finds
/// exactly that entry.
pub proof fn lemma_date_lookup_finds_entry(s: Seq<WeatherEntry>, i: int)
    requires
        unique_dates(s),
        0 <= i < s.len(),
    ensures
        last_on_date(s, s[i].date) == Some(s[i]),
    decreases s.len(),
{
    if i < s.len() - 1 {
        assert(s[i].date != s[s.len() - 1].date);
        assert(unique_dates(s.drop_last()));
        lemma_date_lookup_finds_entry(s.drop_last(), i);
        assert(s.drop_last()[i] == s[i]);
    }
}

/// Looking up a kind gives exactly the subsequence of the dataset with that
/// kind: each entry it holds has the kind, each entry of the dataset with the
/// kind is in it, and cutting the dataset anywhere cuts the result in the same
/// place, so the dataset's order is kept.
pub proof fn lemma_kind_lookup_is_subsequence(s: Seq<WeatherEntry>, k: WeatherKind)
    ensures
        forall|i: int|
            0 <= i < entries_of_kind(s, k).len() ==> (#[trigger] entries_of_kind(s, k)[i]).weather
                == k,
        forall|i: int| 0 <= i < s.len() && s[i].weather == k ==> entries_of_kind(s, k).contains(#[trigger] s[i]),
        forall|n: int|
            0 <= n <= s.len() ==> entries_of_kind(s, k) == entries_of_kind(#[trigger] s.take(n), k)
                + entries_of_kind(s.skip(n), k),
{
    assert forall|i: int| 0 <= i < entries_of_kind(s, k).len() implies (
    #[trigger] entries_of_kind(s, k)[i]).weather == k by {
        s.lemma_filter_pred(has_kind(k), i);
    }
    assert forall|i: int| 0 <= i < s.len() && s[i].weather == k implies entries_of_kind(
        s,
        k,
    ).contains(#[trigger] s[i]) by {
        s.lemma_filter_contains(has_kind(k), i);
    }
    assert forall|n: int| 0 <= n <= s.len() implies entries_of_kind(s, k) == entries_of_kind(
        #[trigger] s.take(n),
        k,
    ) + entries_of_kind(s.skip(n), k) by {
        assert(s =~= s.take(n) + s.skip(n));
        Seq::filter_distributes_over_add(s.take(n), s.skip(n), has_kind(k));
    }
}

/// A query's result is a function of the dataset and the query alone: two
/// runs of one query over one built index give equal results.
pub proof fn lemma_query_deterministic(
    indexes: &WeatherIndexes,
    query: WeatherQuery,
    first: Seq<WeatherEntry>,
    second: Seq<WeatherEntry>,
)
    requires
        first == query_result(indexes.dataset(), query),
        second == query_result(indexes.dataset(), query),
    ensures
        first == second,
{
}

/// With a limit of `n`, a query returns `min(n, m)` entries, where `m` is the
/// number that the same query without a limit returns; a limit of zero always
/// returns nothing.
pub proof fn lemma_limit_semantics(s: Seq<WeatherEntry>, query: WeatherQuery, n: usize)
    requires
        query.limit == Some(n),
    ensures
        ({
            let unlimited = query_result(s, WeatherQuery { limit: None, ..query });
            let m = unlimited.len();
            query_result(s, query).len() == if n < m { n as int } else { m as int }
        }),
        n == 0 ==> query_result(s, query).len() == 0,
{
}

/// A query with a date that the dataset has, and a kind other than the kind of
/// that date's entry, returns nothing.
pub proof fn lemma_date_with_other_kind_is_empty(s: Seq<WeatherEntry>, query: WeatherQuery, i: int)
    requires
        unique_dates(s),
        0 <= i < s.len(),
        query.date == Some(s[i].date),
        query.weather.is_some(),
        query.weather != Some(s[i].weather),
    ensures
        query_result(s, query).len() == 0,
{
    lemma_date_lookup_finds_entry(s, i);
}

/// A query with no date, no kind and no limit returns the whole dataset, so
/// a dataset sorted by date comes back sorted by date.
pub proof fn lemma_full_scan_is_dataset(s: Seq<WeatherEntry>)
    ensures
        query_result(s, WeatherQuery { limit: None, date: None, weather: None }) == s,
        sorted_by_date(s) ==> sorted_by_date(
            query_result(s, WeatherQuery { limit: None, date: None, weather: None }),
        ),
{
}

} // verus!
