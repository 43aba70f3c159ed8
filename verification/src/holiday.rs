//! Public-holiday tables: the type of every day of a year, workday counts per
//! month, the built-in schedule for years without network data.

use crate::date;
use crate::date::{
    add_days, days_between, days_in_month, parse_ymd, weekday_from_monday, Date, MAX_YEAR,
    MIN_YEAR,
};
use std::collections::HashMap;
use vstd::prelude::*;
use vstd::string::*;

verus! {

broadcast use vstd::std_specs::hash::group_hash_axioms;

/// Day type: ordinary workday.
pub const DAY_WORK: u8 = 0;

/// Day type: weekend.
pub const DAY_WEEKEND: u8 = 1;

/// Day type: make-up workday (a weekend day that is worked).
pub const DAY_MAKEUP: u8 = 2;

/// Day type: public holiday.
pub const DAY_HOLIDAY: u8 = 3;

/// Integer key of a date: `yyyymmdd` (years keep their sign).
pub open spec fn date_key(d: Date) -> i64 {
    (d.year * 10000 + d.month * 100 + d.day) as i64
}

/// Types 0 (workday) and 2 (make-up workday) are worked.
pub open spec fn is_work_type(t: u8) -> bool {
    t == DAY_WORK || t == DAY_MAKEUP
}

pub fn key_of(d: Date) -> (r: i64)
    requires
        d.wf(),
    ensures
        r == date_key(d),
{
    d.year as i64 * 10000 + d.month as i64 * 100 + d.day as i64
}

/// Distinct valid dates have distinct keys.
pub proof fn lemma_date_key_injective(a: Date, b: Date)
    requires
        a.wf(),
        b.wf(),
        date_key(a) == date_key(b),
    ensures
        a == b,
{
    let ra = a.month * 100 + a.day;
    let rb = b.month * 100 + b.day;
    assert(a.year * 10000 + ra == b.year * 10000 + rb);
    assert(a.year == b.year) by (nonlinear_arith)
        requires
            a.year * 10000 + ra == b.year * 10000 + rb,
            100 <= ra < 10000,
            100 <= rb < 10000,
    ;
    assert(a.month == b.month);
}

/// Type of every day of a year, plus where the data came from.
#[derive(Debug)]
pub struct HolidayCache {
    pub year: i32,
    /// Unix seconds of the network fetch; 0 = not from the network.
    pub fetched_at: i64,
    /// Day type by `date_key`.
    pub days: HashMap<i64, u8>,
}

/// The type recorded for a date, if any.
pub open spec fn type_in(days: Map<i64, u8>, d: Date) -> Option<u8> {
    if days.contains_key(date_key(d)) {
        Some(days[date_key(d)])
    } else {
        None
    }
}

/// Worked days among days `1..=k` of month `m` of year `y`.
pub open spec fn workdays_upto(days: Map<i64, u8>, y: int, m: int, k: int) -> nat
    decreases k,
{
    if k <= 0 {
        0
    } else {
        workdays_upto(days, y, m, k - 1) + match type_in(
            days,
            Date { year: y as i32, month: m as u32, day: k as u32 },
        ) {
            Some(t) => if is_work_type(t) { 1nat } else { 0nat },
            None => 0nat,
        }
    }
}

/// At most `k` of the first `k` days are worked.
pub proof fn lemma_workdays_upto_le(days: Map<i64, u8>, y: int, m: int, k: int)
    ensures
        workdays_upto(days, y, m, k) <= if k > 0 { k } else { 0 },
    decreases k,
{
    if k > 0 {
        lemma_workdays_upto_le(days, y, m, k - 1);
    }
}

/// Monday-to-Friday days among days `1..=k` of month `m` of year `y`.
pub open spec fn weekdays_upto(y: int, m: int, k: int) -> nat
    decreases k,
{
    if k <= 0 {
        0
    } else {
        weekdays_upto(y, m, k - 1) + if date::weekday_index(
            Date { year: y as i32, month: m as u32, day: k as u32 },
        ) < 5 {
            1nat
        } else {
            0nat
        }
    }
}

/// Month and year a table may be asked about.
pub open spec fn countable_month(y: int, m: int) -> bool {
    &&& MIN_YEAR <= y <= MAX_YEAR
    &&& 1 <= m <= 12
    &&& !(y == MAX_YEAR && m == 12)
}

impl HolidayCache {
    /// Recorded type of a date (0 workday, 1 weekend, 2 make-up workday, 3 holiday).
    pub fn day_type(&self, date: Date) -> (r: Option<u8>)
        requires
            date.wf(),
        ensures
            r == type_in(self.days@, date),
    {
        match self.days.get(&key_of(date)) {
            Some(t) => Some(*t),
            None => None,
        }
    }

    /// Whether a date is worked (workday or make-up day); `None` when unknown.
    pub fn is_workday(&self, date: Date) -> (r: Option<bool>)
        requires
            date.wf(),
        ensures
            r == (match type_in(self.days@, date) {
                Some(t) => Some(is_work_type(t)),
                None => None::<bool>,
            }),
    {
        match self.day_type(date) {
            Some(t) => Some(t == DAY_WORK || t == DAY_MAKEUP),
            None => None,
        }
    }

    /// Worked days of a month; `None` for another year, an empty table or a zero count.
    pub fn month_workdays(&self, year: i32, month: u32) -> (r: Option<u32>)
        requires
            countable_month(year as int, month as int),
        ensures
            r == (if self.year != year || self.days@.len() == 0 {
                None::<u32>
            } else {
                let n = workdays_upto(
                    self.days@,
                    year as int,
                    month as int,
                    date::month_len(year as int, month as int),
                );
                if n == 0 {
                    None::<u32>
                } else {
                    Some(n as u32)
                }
            }),
    {
        if self.year != year || self.days.is_empty() {
            return None;
        }
        let dim = days_in_month(year, month);
        let mut count: u32 = 0;
        let mut d: u32 = 1;
        while d <= dim
            invariant
                countable_month(year as int, month as int),
                dim as int == date::month_len(year as int, month as int),
                1 <= d <= dim + 1,
                count as int == workdays_upto(self.days@, year as int, month as int, d - 1),
                count < d,
            decreases dim + 1 - d,
        {
            let dt = Date { year, month, day: d };
            match self.day_type(dt) {
                Some(t) => {
                    if t == DAY_WORK || t == DAY_MAKEUP {
                        count += 1;
                    }
                },
                None => {},
            }
            d += 1;
        }
        if count == 0 {
            None
        } else {
            Some(count)
        }
    }
}

/// Monday-to-Friday days of a month (used when no holiday data is available).
pub fn weekday_count(year: i32, month: u32) -> (r: u32)
    requires
        countable_month(year as int, month as int),
    ensures
        r as int == weekdays_upto(year as int, month as int, date::month_len(year as int, month as int)),
{
    let dim = days_in_month(year, month);
    let mut count: u32 = 0;
    let mut d: u32 = 1;
    while d <= dim
        invariant
            countable_month(year as int, month as int),
            dim as int == date::month_len(year as int, month as int),
            1 <= d <= dim + 1,
            count as int == weekdays_upto(year as int, month as int, d - 1),
            count < d,
        decreases dim + 1 - d,
    {
        let dt = Date { year, month, day: d };
        let wd = weekday_from_monday(dt);
        if wd < 5 {
            count += 1;
        }
        d += 1;
    }
    count
}

/// Type of a day given the special-day table (true = day off, false = make-up workday).
pub open spec fn expanded_type(d: Date, overrides: Map<i64, bool>) -> u8 {
    if overrides.contains_key(date_key(d)) {
        if overrides[date_key(d)] {
            DAY_HOLIDAY
        } else {
            DAY_MAKEUP
        }
    } else if date::weekday_index(d) < 5 {
        DAY_WORK
    } else {
        DAY_WEEKEND
    }
}

/// Dates of year `y` that precede (`month`, `day`).
pub open spec fn before_md(d: Date, month: int, day: int) -> bool {
    d.month < month || (d.month == month && d.day < day)
}

/// Every key of the map is the key of a date of year `y` before (`month`, `day`).
pub open spec fn keys_within<V>(m: Map<i64, V>, y: int, month: int, day: int) -> bool {
    forall|k: i64|
        #[trigger] m.contains_key(k) ==> exists|d: Date|
            d.wf() && d.year == y && before_md(d, month, day) && #[trigger] date_key(d) == k
}

/// Dates of year `y` before (`month`, `day`) carry their expanded type.
pub open spec fn typed_by(m: Map<i64, u8>, y: int, month: int, day: int, ov: Map<i64, bool>) -> bool {
    forall|d: Date|
        d.wf() && d.year == y && before_md(d, month, day) ==> #[trigger] m.contains_key(date_key(d))
            && m[date_key(d)] == expanded_type(d, ov)
}

/// Every date of year `y` carries its built-in type.
pub open spec fn typed_builtin(m: Map<i64, u8>, y: int) -> bool {
    forall|d: Date|
        d.wf() && d.year == y ==> #[trigger] m.contains_key(date_key(d)) && m[date_key(d)]
            == builtin_type(d)
}

/// Type of every day of `year`: Monday-Friday workdays, weekends, then the special days.
pub fn expand_year(overrides: &HashMap<i64, bool>, year: i32) -> (r: HashMap<i64, u8>)
    requires
        MIN_YEAR <= year < MAX_YEAR,
    ensures
        typed_by(r@, year as int, 13, 1, overrides@),
        keys_within(r@, year as int, 13, 1),
{
    let mut map: HashMap<i64, u8> = HashMap::new();
    let mut month: u32 = 1;
    while month <= 12
        invariant
            MIN_YEAR <= year < MAX_YEAR,
            1 <= month <= 13,
            typed_by(map@, year as int, month as int, 1, overrides@),
            keys_within(map@, year as int, month as int, 1),
        decreases 13 - month,
    {
        let dim = days_in_month(year, month);
        let mut day: u32 = 1;
        while day <= dim
            invariant
                MIN_YEAR <= year < MAX_YEAR,
                1 <= month <= 12,
                dim as int == date::month_len(year as int, month as int),
                1 <= day <= dim + 1,
                typed_by(map@, year as int, month as int, day as int, overrides@),
                keys_within(map@, year as int, month as int, day as int),
            decreases dim + 1 - day,
        {
            let dt = Date { year, month, day };
            let k = key_of(dt);
            let wd = weekday_from_monday(dt);
            let mut t: u8 = if wd < 5 {
                DAY_WORK
            } else {
                DAY_WEEKEND
            };
            match overrides.get(&k) {
                Some(off) => {
                    t = if *off {
                        DAY_HOLIDAY
                    } else {
                        DAY_MAKEUP
                    };
                },
                None => {},
            }
            let ghost old_map = map@;
            map.insert(k, t);
            proof {
                assert(t == expanded_type(dt, overrides@));
                assert forall|d: Date|
                    d.wf() && d.year == year && before_md(
                        d,
                        month as int,
                        day + 1,
                    ) implies #[trigger] map@.contains_key(date_key(d)) && map@[date_key(d)]
                    == expanded_type(d, overrides@) by {
                    if d == dt {
                    } else {
                        if date_key(d) == k {
                            lemma_date_key_injective(d, dt);
                        }
                        assert(before_md(d, month as int, day as int));
                        assert(old_map.contains_key(date_key(d)));
                    }
                }
                assert forall|kk: i64| #[trigger] map@.contains_key(kk) implies exists|d: Date|
                    d.wf() && d.year == year && before_md(d, month as int, day + 1)
                        && #[trigger] date_key(d) == kk by {
                    if kk == k {
                        assert(date_key(dt) == kk);
                    } else {
                        assert(old_map.contains_key(kk));
                        let d = choose|d: Date|
                            d.wf() && d.year == year && before_md(d, month as int, day as int)
                                && #[trigger] date_key(d) == kk;
                        assert(before_md(d, month as int, day + 1));
                    }
                }
            }
            day += 1;
        }
        proof {
            assert forall|d: Date|
                d.wf() && d.year == year && before_md(d, month + 1, 1) implies before_md(
                d,
                month as int,
                dim + 1,
            ) by {}
            assert forall|kk: i64| #[trigger] map@.contains_key(kk) implies exists|d: Date|
                d.wf() && d.year == year && before_md(d, month + 1, 1) && #[trigger] date_key(d)
                    == kk by {
                let d = choose|d: Date|
                    d.wf() && d.year == year && before_md(d, month as int, dim + 1)
                        && #[trigger] date_key(d) == kk;
                assert(before_md(d, month + 1, 1));
            }
        }
        month += 1;
    }
    map
}

/// Built-in day-off ranges of a year as (start month, start day, end month, end day).
pub open spec fn builtin_offs(y: int) -> Seq<(u32, u32, u32, u32)> {
    if y == 2025 {
        seq![(1, 1, 1, 1), (1, 28, 2, 4), (4, 4, 4, 6), (5, 1, 5, 5), (5, 31, 6, 2), (10, 1, 10, 8)]
    } else if y == 2026 {
        seq![
            (1, 1, 1, 3),
            (2, 15, 2, 23),
            (4, 4, 4, 6),
            (5, 1, 5, 5),
            (6, 19, 6, 21),
            (9, 25, 9, 27),
            (10, 1, 10, 7),
        ]
    } else {
        Seq::empty()
    }
}

/// Built-in make-up workdays of a year as (month, day).
pub open spec fn builtin_works(y: int) -> Seq<(u32, u32)> {
    if y == 2025 {
        seq![(1, 26), (2, 8), (4, 27), (9, 28), (10, 11)]
    } else if y == 2026 {
        seq![(1, 4), (2, 14), (2, 28), (5, 9), (9, 20), (10, 10)]
    } else {
        Seq::empty()
    }
}

/// Years the built-in schedule covers.
pub open spec fn has_builtin(y: int) -> bool {
    y == 2025 || y == 2026
}

/// (month, day) lies within a range of the same year.
pub open spec fn md_in_range(m: int, d: int, r: (u32, u32, u32, u32)) -> bool {
    &&& (r.0 < m || (r.0 == m && r.1 <= d))
    &&& (m < r.2 || (m == r.2 && d <= r.3))
}

/// Built-in special-day entry of a date: make-up workdays (false) win over days off (true).
pub open spec fn builtin_override(d: Date) -> Option<bool> {
    if exists|i: int|
        0 <= i < builtin_works(d.year as int).len() && #[trigger] builtin_works(d.year as int)[i]
            == (d.month, d.day) {
        Some(false)
    } else if exists|i: int|
        0 <= i < builtin_offs(d.year as int).len() && md_in_range(
            d.month as int,
            d.day as int,
            #[trigger] builtin_offs(d.year as int)[i],
        ) {
        Some(true)
    } else {
        None
    }
}

/// Day type under the built-in schedule.
pub open spec fn builtin_type(d: Date) -> u8 {
    match builtin_override(d) {
        Some(true) => DAY_HOLIDAY,
        Some(false) => DAY_MAKEUP,
        None => if date::weekday_index(d) < 5 {
            DAY_WORK
        } else {
            DAY_WEEKEND
        },
    }
}

fn builtin_offs_of(y: i32) -> (r: Vec<(u32, u32, u32, u32)>)
    ensures
        r@ == builtin_offs(y as int),
{
    if y == 2025 {
        vec![(1, 1, 1, 1), (1, 28, 2, 4), (4, 4, 4, 6), (5, 1, 5, 5), (5, 31, 6, 2), (10, 1, 10, 8)]
    } else if y == 2026 {
        vec![
            (1, 1, 1, 3),
            (2, 15, 2, 23),
            (4, 4, 4, 6),
            (5, 1, 5, 5),
            (6, 19, 6, 21),
            (9, 25, 9, 27),
            (10, 1, 10, 7),
        ]
    } else {
        Vec::new()
    }
}

fn builtin_works_of(y: i32) -> (r: Vec<(u32, u32)>)
    ensures
        r@ == builtin_works(y as int),
{
    if y == 2025 {
        vec![(1, 26), (2, 8), (4, 27), (9, 28), (10, 11)]
    } else if y == 2026 {
        vec![(1, 4), (2, 14), (2, 28), (5, 9), (9, 20), (10, 10)]
    } else {
        Vec::new()
    }
}

/// Built-in special-day entry of a date.
fn builtin_override_of(d: Date) -> (r: Option<bool>)
    ensures
        r == builtin_override(d),
{
    let works = builtin_works_of(d.year);
    let mut i: usize = 0;
    while i < works.len()
        invariant
            works@ == builtin_works(d.year as int),
            i <= works@.len(),
            forall|j: int| 0 <= j < i ==> works@[j] != (d.month, d.day),
        decreases works@.len() - i,
    {
        let (m, dd) = works[i];
        if m == d.month && dd == d.day {
            proof {
                assert(builtin_works(d.year as int)[i as int] == (d.month, d.day));
            }
            return Some(false);
        }
        i += 1;
    }
    let offs = builtin_offs_of(d.year);
    let mut j: usize = 0;
    while j < offs.len()
        invariant
            offs@ == builtin_offs(d.year as int),
            j <= offs@.len(),
            forall|k: int| 0 <= k < j ==> !md_in_range(d.month as int, d.day as int, offs@[k]),
            forall|k: int|
                0 <= k < builtin_works(d.year as int).len() ==> builtin_works(d.year as int)[k] != (
                d.month,
                d.day,
            ),
        decreases offs@.len() - j,
    {
        let (sm, sd, em, ed) = offs[j];
        if (sm < d.month || (sm == d.month && sd <= d.day)) && (d.month < em || (d.month == em
            && d.day <= ed)) {
            proof {
                assert(md_in_range(d.month as int, d.day as int, builtin_offs(d.year as int)[j as int]));
            }
            return Some(true);
        }
        j += 1;
    }
    None
}

/// Special days of the built-in schedule for exactly the dates of year `y` before (`month`, `day`).
pub open spec fn builtin_overrides_prefix(ov: Map<i64, bool>, y: int, month: int, day: int) -> bool {
    &&& forall|d: Date|
        d.wf() && d.year == y && before_md(d, month, day) ==> (#[trigger] ov.contains_key(
            date_key(d),
        ) <==> builtin_override(d) is Some) && (ov.contains_key(date_key(d)) ==> Some(
            ov[date_key(d)],
        ) == builtin_override(d))
    &&& forall|k: i64|
        #[trigger] ov.contains_key(k) ==> exists|d: Date|
            d.wf() && d.year == y && before_md(d, month, day) && #[trigger] date_key(d) == k
}

/// The special days of the built-in schedule of `year`, by date key.
fn builtin_overrides(year: i32) -> (r: HashMap<i64, bool>)
    requires
        MIN_YEAR <= year < MAX_YEAR,
    ensures
        builtin_overrides_prefix(r@, year as int, 13, 1),
{
    let mut ov: HashMap<i64, bool> = HashMap::new();
    let mut month: u32 = 1;
    while month <= 12
        invariant
            MIN_YEAR <= year < MAX_YEAR,
            1 <= month <= 13,
            builtin_overrides_prefix(ov@, year as int, month as int, 1),
        decreases 13 - month,
    {
        let dim = days_in_month(year, month);
        let mut day: u32 = 1;
        while day <= dim
            invariant
                MIN_YEAR <= year < MAX_YEAR,
                1 <= month <= 12,
                dim as int == date::month_len(year as int, month as int),
                1 <= day <= dim + 1,
                builtin_overrides_prefix(ov@, year as int, month as int, day as int),
            decreases dim + 1 - day,
        {
            let dt = Date { year, month, day };
            let k = key_of(dt);
            let ghost old_ov = ov@;
            match builtin_override_of(dt) {
                Some(off) => {
                    ov.insert(k, off);
                },
                None => {},
            }
            proof {
                assert forall|d: Date|
                    d.wf() && d.year == year && before_md(d, month as int, day + 1) implies (
                    #[trigger] ov@.contains_key(date_key(d)) <==> builtin_override(d) is Some) && (
                    ov@.contains_key(date_key(d)) ==> Some(ov@[date_key(d)]) == builtin_override(
                        d,
                    )) by {
                    if d == dt {
                        if builtin_override(d) is None && old_ov.contains_key(k) {
                            let e = choose|e: Date|
                                e.wf() && e.year == year && before_md(e, month as int, day as int)
                                    && #[trigger] date_key(e) == k;
                            lemma_date_key_injective(e, dt);
                        }
                    } else {
                        if date_key(d) == k {
                            lemma_date_key_injective(d, dt);
                        }
                        assert(before_md(d, month as int, day as int));
                    }
                }
                assert forall|kk: i64| #[trigger] ov@.contains_key(kk) implies exists|d: Date|
                    d.wf() && d.year == year && before_md(d, month as int, day + 1)
                        && #[trigger] date_key(d) == kk by {
                    if kk == k {
                        assert(date_key(dt) == kk);
                    } else {
                        assert(old_ov.contains_key(kk));
                        let d = choose|d: Date|
                            d.wf() && d.year == year && before_md(d, month as int, day as int)
                                && #[trigger] date_key(d) == kk;
                        assert(before_md(d, month as int, day + 1));
                    }
                }
            }
            day += 1;
        }
        proof {
            assert forall|kk: i64| #[trigger] ov@.contains_key(kk) implies exists|d: Date|
                d.wf() && d.year == year && before_md(d, month + 1, 1) && #[trigger] date_key(d)
                    == kk by {
                let d = choose|d: Date|
                    d.wf() && d.year == year && before_md(d, month as int, dim + 1)
                        && #[trigger] date_key(d) == kk;
                assert(before_md(d, month + 1, 1));
            }
        }
        month += 1;
    }
    ov
}

/// The built-in table of year `y`: exactly the dates of that year, each with its type.
pub open spec fn builtin_days(y: int) -> Map<i64, u8> {
    Map::new(
        |k: i64| exists|d: Date| d.wf() && d.year == y && #[trigger] date_key(d) == k,
        |k: i64| builtin_type(choose|d: Date| d.wf() && d.year == y && #[trigger] date_key(d) == k),
    )
}

/// A map typing every date of `y` by the built-in schedule, with no other keys, is the
/// built-in table.
pub proof fn lemma_builtin_days(m: Map<i64, u8>, y: int)
    requires
        typed_builtin(m, y),
        keys_within(m, y, 13, 1),
    ensures
        m == builtin_days(y),
{
    assert forall|k: i64| #[trigger] m.contains_key(k) == builtin_days(y).contains_key(k) by {
        if m.contains_key(k) {
            let d = choose|d: Date|
                d.wf() && d.year == y && before_md(d, 13, 1) && #[trigger] date_key(d) == k;
            assert(d.wf() && d.year == y && date_key(d) == k);
        }
        if builtin_days(y).contains_key(k) {
            let d = choose|d: Date| d.wf() && d.year == y && #[trigger] date_key(d) == k;
            assert(m.contains_key(date_key(d)));
        }
    }
    assert forall|k: i64| #[trigger] m.contains_key(k) implies m[k] == builtin_days(y)[k] by {
        let d = choose|d: Date| d.wf() && d.year == y && #[trigger] date_key(d) == k;
        assert(m.contains_key(date_key(d)) && m[date_key(d)] == builtin_type(d));
    }
    assert(m =~= builtin_days(y));
}

/// The built-in schedule of a covered year (2025, 2026): every day typed, not from the network.
pub fn builtin_cache(year: i32) -> (r: Option<HolidayCache>)
    ensures
        r is Some <==> has_builtin(year as int),
        r matches Some(c) ==> {
            &&& c.year == year
            &&& c.fetched_at == 0
            &&& typed_builtin(c.days@, year as int)
            &&& keys_within(c.days@, year as int, 13, 1)
            &&& c.days@ == builtin_days(year as int)
            &&& c.days@.len() != 0
        },
{
    if year != 2025 && year != 2026 {
        return None;
    }
    let ov = builtin_overrides(year);
    let days = expand_year(&ov, year);
    proof {
        assert(typed_by(days@, year as int, 13, 1, ov@));
        let jan1 = Date { year, month: 1, day: 1 };
        assert(days@.contains_key(date_key(jan1)));
        assert forall|d: Date|
            d.wf() && d.year == year implies #[trigger] days@.contains_key(date_key(d))
            && days@[date_key(d)] == builtin_type(d) by {
            assert(d.wf() && d.year == year as int && before_md(d, 13, 1));
            assert(days@.contains_key(date_key(d)));
            assert(days@[date_key(d)] == expanded_type(d, ov@));
            if ov@.contains_key(date_key(d)) {
                assert(Some(ov@[date_key(d)]) == builtin_override(d));
            } else {
                assert(builtin_override(d) is None);
            }
        }
    }
    if days.is_empty() {
        return None;
    }
    proof {
        lemma_builtin_days(days@, year as int);
    }
    Some(HolidayCache { year, fetched_at: 0, days })
}

/// One `days` entry of a holiday-cn document: `date` text and `isOffDay` flag, if present.
#[derive(Clone, Debug)]
pub struct HolidayFeedDay {
    pub date: Option<String>,
    pub is_off: Option<bool>,
}

/// The parts of a holiday-cn document the schedule is built from.
#[derive(Clone, Debug)]
pub struct HolidayFeed {
    /// The document's `year`, when it is an integer.
    pub year: Option<i64>,
    /// The document's `days` entries (empty when absent).
    pub days: Vec<HolidayFeedDay>,
}

/// Special days of a feed: each entry with a parsable date sets it (later entries win).
pub open spec fn feed_overrides(entries: Seq<HolidayFeedDay>) -> Map<i64, bool>
    decreases entries.len(),
{
    if entries.len() == 0 {
        Map::empty()
    } else {
        let prev = feed_overrides(entries.drop_last());
        let e = entries.last();
        match e.date {
            Some(s) => match date::chrono_parse_ymd(s@) {
                Some(d) => prev.insert(
                    date_key(d),
                    match e.is_off {
                        Some(b) => b,
                        None => false,
                    },
                ),
                None => prev,
            },
            None => prev,
        }
    }
}

/// Year a feed describes: its own `year` (as i32), else the year asked for.
pub open spec fn feed_year(feed: HolidayFeed, year: i32) -> i32 {
    match feed.year {
        Some(v) => v as i32,
        None => year,
    }
}

/// Day types of the year a holiday-cn feed describes.
pub fn parse_holiday_cn(feed: &HolidayFeed, year: i32) -> (r: Result<HashMap<i64, u8>, String>)
    requires
        MIN_YEAR <= feed_year(*feed, year) < MAX_YEAR,
    ensures
        r matches Ok(m) ==> typed_by(m@, feed_year(*feed, year) as int, 13, 1, feed_overrides(feed.days@))
            && keys_within(m@, feed_year(*feed, year) as int, 13, 1),
        r is Ok,
{
    let data_year: i32 = match feed.year {
        Some(v) => v as i32,
        None => year,
    };
    let mut overrides: HashMap<i64, bool> = HashMap::new();
    let mut i: usize = 0;
    while i < feed.days.len()
        invariant
            i <= feed.days@.len(),
            overrides@ == feed_overrides(feed.days@.subrange(0, i as int)),
        decreases feed.days@.len() - i,
    {
        let item = &feed.days[i];
        let is_off = match item.is_off {
            Some(b) => b,
            None => false,
        };
        proof {
            assert(feed.days@.subrange(0, i + 1).drop_last() == feed.days@.subrange(0, i as int));
        }
        match &item.date {
            Some(s) => match parse_ymd(s.as_str()) {
                Some(d) => {
                    overrides.insert(key_of(d), is_off);
                },
                None => {},
            },
            None => {},
        }
        i += 1;
    }
    proof {
        assert(feed.days@.subrange(0, feed.days@.len() as int) == feed.days@);
    }
    let map = expand_year(&overrides, data_year);
    proof {
        let jan1 = Date { year: data_year, month: 1, day: 1 };
        assert(map@.contains_key(date_key(jan1)));
    }
    if map.is_empty() {
        return Err(no_dates_message());
    }
    Ok(map)
}

/// `未解析到任何日期`
fn no_dates_message() -> (r: String)
    ensures
        r@ == "未解析到任何日期"@,
{
    let mut s = crate::clock::new_string();
    crate::clock::push_chars(&mut s, &['未', '解', '析', '到', '任', '何', '日', '期']);
    proof {
        reveal_strlit("未解析到任何日期");
        assert(s@ =~= "未解析到任何日期"@);
    }
    s
}

/// `节假日数据获取失败，且内置表未收录 {year} 年：{error}`
pub open spec fn fetch_failed_text(year: int, error: Seq<char>) -> Seq<char> {
    "节假日数据获取失败，且内置表未收录 "@ + crate::remind::signed_decimal(year) + " 年："@ + error
}

/// The schedule to use after a network attempt for `year`: the fetched days (to be
/// stored, `true`), else the built-in schedule (not stored, `false`), else the error.
pub fn holiday_after_fetch(year: i32, fetched: Result<HashMap<i64, u8>, String>) -> (r: Result<
    (HolidayCache, bool),
    String,
>)
    ensures
        match fetched {
            Ok(days) => r matches Ok((c, persist)) && persist && c.year == year && c.fetched_at == 0
                && c.days@ == days@,
            Err(e) => if has_builtin(year as int) {
                r matches Ok((c, persist)) && !persist && c.year == year && c.fetched_at == 0
                    && c.days@ == builtin_days(year as int)
            } else {
                r matches Err(m) && m@ == fetch_failed_text(year as int, e@)
            },
        },
{
    match fetched {
        Ok(days) => Ok((HolidayCache { year, fetched_at: 0, days }, true)),
        Err(e) => match builtin_cache(year) {
            Some(c) => Ok((c, false)),
            None => {
                let mut m = String::from_str("节假日数据获取失败，且内置表未收录 ");
                push_signed(&mut m, year);
                m.append(" 年：");
                m.append(e.as_str());
                Err(m)
            },
        },
    }
}

/// The schedule at start-up: the stored one of the year when there is one, else the
/// built-in schedule of the year, else none (Monday-Friday is assumed).
pub fn startup_holiday(year: i32, stored: Option<HolidayCache>) -> (r: Option<HolidayCache>)
    ensures
        match stored {
            Some(c) => r matches Some(x) && x.year == c.year && x.fetched_at == c.fetched_at && x.days@
                == c.days@,
            None => if has_builtin(year as int) {
                r matches Some(x) && x.year == year && x.days@ == builtin_days(year as int)
            } else {
                r is None
            },
        },
{
    match stored {
        Some(c) => Some(c),
        None => builtin_cache(year),
    }
}

/// The mirrors the schedule of a year is fetched from, in order.
pub open spec fn feed_urls_spec(year: int) -> Seq<Seq<char>> {
    let tail = crate::remind::signed_decimal(year) + ".json"@;
    seq![
        "https://cdn.jsdelivr.net/gh/NateScarlet/holiday-cn@master/"@ + tail,
        "https://fastly.jsdelivr.net/gh/NateScarlet/holiday-cn@master/"@ + tail,
        "https://gcore.jsdelivr.net/gh/NateScarlet/holiday-cn@master/"@ + tail,
    ]
}

fn push_signed(s: &mut String, year: i32)
    ensures
        final(s)@ == old(s)@ + crate::remind::signed_decimal(year as int),
{
    if year < 0 {
        crate::clock::push_char(s, '-');
        let a: u64 = (-(year as i64)) as u64;
        crate::clock::push_decimal(s, a);
    } else {
        crate::clock::push_decimal(s, year as u64);
    }
}

fn feed_url(base: &str, year: i32) -> (r: String)
    ensures
        r@ == base@ + crate::remind::signed_decimal(year as int) + ".json"@,
{
    let mut s = String::from_str(base);
    push_signed(&mut s, year);
    s.append(".json");
    s
}

/// The mirrors the schedule of `year` is fetched from, tried in order.
pub fn feed_urls(year: i32) -> (r: Vec<String>)
    ensures
        r@.len() == 3,
        forall|i: int| 0 <= i < 3 ==> (#[trigger] r@[i])@ == feed_urls_spec(year as int)[i],
{
    let mut v: Vec<String> = Vec::new();
    v.push(feed_url("https://cdn.jsdelivr.net/gh/NateScarlet/holiday-cn@master/", year));
    v.push(feed_url("https://fastly.jsdelivr.net/gh/NateScarlet/holiday-cn@master/", year));
    v.push(feed_url("https://gcore.jsdelivr.net/gh/NateScarlet/holiday-cn@master/", year));
    proof {
        let tail = crate::remind::signed_decimal(year as int) + ".json"@;
        assert("https://cdn.jsdelivr.net/gh/NateScarlet/holiday-cn@master/"@ + crate::remind::signed_decimal(year as int) + ".json"@
            == "https://cdn.jsdelivr.net/gh/NateScarlet/holiday-cn@master/"@ + tail);
        assert("https://fastly.jsdelivr.net/gh/NateScarlet/holiday-cn@master/"@ + crate::remind::signed_decimal(year as int) + ".json"@
            == "https://fastly.jsdelivr.net/gh/NateScarlet/holiday-cn@master/"@ + tail);
        assert("https://gcore.jsdelivr.net/gh/NateScarlet/holiday-cn@master/"@ + crate::remind::signed_decimal(year as int) + ".json"@
            == "https://gcore.jsdelivr.net/gh/NateScarlet/holiday-cn@master/"@ + tail);
    }
    v
}

/// `节假日数据获取失败（已尝试多个数据源）: {last error}`
pub fn all_mirrors_failed(last_err: &str) -> (r: String)
    ensures
        r@ == "节假日数据获取失败（已尝试多个数据源）: "@ + last_err@,
{
    let mut s = String::from_str("节假日数据获取失败（已尝试多个数据源）: ");
    s.append(last_err);
    s
}

} // verus!
