//! Data upkeep decisions: the retention cut-off (zero keeps everything), the age
//! limit of cached icons, the earliest stored date, and when a log-file shrink is
//! worth a note.

use crate::config::Config;
use crate::date;
use crate::date::{add_days, Date};
use crate::insights::{seq_lt, text_lt};
use vstd::prelude::*;

verus! {

/// Cached icons older than this many days are removed (they can be extracted again).
pub const ICON_MAX_AGE_DAYS: i64 = 180;

/// The retention cut-off: dates before it are removed; `None` (retention 0) keeps
/// everything.
pub open spec fn cutoff_spec(retention_days: u32, today: Date) -> Option<int> {
    if retention_days == 0 {
        None
    } else {
        Some(date::day_number(today) - retention_days)
    }
}

/// The day `retention_days` before `today`, or `None` when retention is 0 (keep all).
pub fn cutoff_for<M>(cfg: &Config<M>, today: Date) -> (r: Option<Date>)
    requires
        today.wf(),
        date::day_number(today) - cfg.retention_days >= date::day_number(date::first_date()),
    ensures
        r is None <==> cfg.retention_days == 0,
        r matches Some(d) ==> d.wf() && date::day_number(d) == date::day_number(today) - cfg.retention_days,
{
    if cfg.retention_days == 0 {
        return None;
    }
    proof {
        date::lemma_day_number_bounds(today);
    }
    add_days(today, -(cfg.retention_days as i64))
}

/// With the default retention nothing is ever removed.
pub proof fn law_default_keeps_everything(today: Date)
    ensures
        cutoff_spec(0, today) is None,
{
}

/// Icons last written before this day are removed.
pub fn icon_cutoff(today: Date) -> (r: Date)
    requires
        today.wf(),
        date::day_number(today) - ICON_MAX_AGE_DAYS >= date::day_number(date::first_date()),
    ensures
        r.wf(),
        date::day_number(r) == date::day_number(today) - ICON_MAX_AGE_DAYS,
{
    proof {
        date::lemma_day_number_bounds(today);
    }
    add_days(today, -ICON_MAX_AGE_DAYS).unwrap()
}

/// The earliest date text among the tables' minima (text order, which is date order
/// for `YYYY-MM-DD`); the first of equals is kept.
pub open spec fn earliest_spec(mins: Seq<Option<String>>) -> Option<Seq<char>>
    decreases mins.len(),
{
    if mins.len() == 0 {
        None
    } else {
        let prev = earliest_spec(mins.drop_last());
        match mins.last() {
            Some(d) => match prev {
                None => Some(d@),
                Some(m) => if seq_lt(d@, m) {
                    Some(d@)
                } else {
                    Some(m)
                },
            },
            None => prev,
        }
    }
}

/// The earliest of the stored minima.
pub fn earliest_of(mins: &Vec<Option<String>>) -> (r: Option<String>)
    ensures
        match r {
            Some(s) => earliest_spec(mins@) == Some(s@),
            None => earliest_spec(mins@) is None,
        },
{
    let mut best: Option<String> = None;
    let mut i: usize = 0;
    while i < mins.len()
        invariant
            i <= mins@.len(),
            match best {
                Some(s) => earliest_spec(mins@.subrange(0, i as int)) == Some(s@),
                None => earliest_spec(mins@.subrange(0, i as int)) is None,
            },
        decreases mins@.len() - i,
    {
        proof {
            let post = mins@.subrange(0, i + 1);
            assert(post.drop_last() == mins@.subrange(0, i as int));
            assert(post.last() == mins@[i as int]);
        }
        match &mins[i] {
            Some(d) => {
                let take = match &best {
                    None => true,
                    Some(m) => text_lt(d.as_str(), m.as_str()),
                };
                if take {
                    best = Some(d.clone());
                }
            },
            None => {},
        }
        i += 1;
    }
    proof {
        assert(mins@.subrange(0, mins@.len() as int) == mins@);
    }
    best
}

/// A log-file shrink is noted when it freed at least 64 KiB.
pub fn shrink_worth_noting(before: u64, after: u64) -> (r: bool)
    ensures
        r == (before > after && before - after >= 65536),
{
    before > after && before - after >= 64 * 1024
}

/// What the settings page shows of the stored data.
#[derive(Clone, Debug)]
pub struct StorageInfo {
    /// Bytes of the database file.
    pub db_bytes: u64,
    /// Bytes of its write-ahead log.
    pub wal_bytes: u64,
    /// Cached icon files.
    pub icon_files: u32,
    /// Bytes of the cached icons.
    pub icon_bytes: u64,
    /// The earliest stored date over all tables.
    pub earliest_date: Option<String>,
    /// Days of history kept (0 = forever).
    pub retention_days: u32,
}

/// The storage snapshot from the measured sizes and the tables' earliest dates.
pub fn storage_info_of<M>(
    cfg: &Config<M>,
    db_bytes: u64,
    wal_bytes: u64,
    icon_files: u32,
    icon_bytes: u64,
    mins: &Vec<Option<String>>,
) -> (r: StorageInfo)
    ensures
        r.db_bytes == db_bytes,
        r.wal_bytes == wal_bytes,
        r.icon_files == icon_files,
        r.icon_bytes == icon_bytes,
        r.retention_days == cfg.retention_days,
        match r.earliest_date {
            Some(s) => earliest_spec(mins@) == Some(s@),
            None => earliest_spec(mins@) is None,
        },
{
    StorageInfo {
        db_bytes,
        wal_bytes,
        icon_files,
        icon_bytes,
        earliest_date: earliest_of(mins),
        retention_days: cfg.retention_days,
    }
}

/// A cached icon file is removed: it is a PNG last written before the icon cut-off.
pub fn icon_is_stale(is_png: bool, written: Date, cutoff: Date) -> (r: bool)
    requires
        written.wf(),
        cutoff.wf(),
    ensures
        r == (is_png && date::day_number(written) < date::day_number(cutoff)),
{
    is_png && crate::date::days_between(written, cutoff) < 0
}

/// Comparing texts that share the length of their first parts: the first parts decide
/// when they differ, else the rest does.
proof fn lemma_lt_concat(a: Seq<char>, b: Seq<char>, c: Seq<char>, d: Seq<char>)
    requires
        a.len() == b.len(),
    ensures
        a != b ==> seq_lt(a + c, b + d) == seq_lt(a, b),
        a == b ==> seq_lt(a + c, b + d) == seq_lt(c, d),
        (a + c == b + d) ==> a == b && c == d,
    decreases a.len(),
{
    if a + c == b + d {
        assert(a =~= (a + c).subrange(0, a.len() as int));
        assert(b =~= (b + d).subrange(0, a.len() as int));
        assert(c =~= (a + c).subrange(a.len() as int, (a + c).len() as int));
        assert(d =~= (b + d).subrange(a.len() as int, (b + d).len() as int));
    }
    if a.len() == 0 {
        assert(a + c =~= c);
        assert(b + d =~= d);
        assert(a =~= b);
    } else {
        assert((a + c)[0] == a[0]);
        assert((b + d)[0] == b[0]);
        assert((a + c).drop_first() =~= a.drop_first() + c);
        assert((b + d).drop_first() =~= b.drop_first() + d);
        lemma_lt_concat(a.drop_first(), b.drop_first(), c, d);
        if a[0] == b[0] && a != b {
            assert(a.drop_first() != b.drop_first()) by {
                if a.drop_first() == b.drop_first() {
                    assert(a =~= b) by {
                        assert forall|i: int| 0 <= i < a.len() implies a[i] == b[i] by {
                            if i > 0 {
                                assert(a[i] == a.drop_first()[i - 1]);
                                assert(b[i] == b.drop_first()[i - 1]);
                            }
                        }
                    }
                }
            }
        }
        if a == b {
            assert(a.drop_first() == b.drop_first());
        }
    }
}

/// Two-digit texts compare like their numbers.
proof fn lemma_two_digits_order(n: int, m: int)
    requires
        0 <= n <= 99,
        0 <= m <= 99,
    ensures
        date::two_digits(n).len() == 2,
        (date::two_digits(n) == date::two_digits(m)) == (n == m),
        seq_lt(date::two_digits(n), date::two_digits(m)) == (n < m),
{
    let tn = date::two_digits(n);
    let tm = date::two_digits(m);
    assert(n == 10 * (n / 10) + n % 10);
    assert(m == 10 * (m / 10) + m % 10);
    assert((tn[0] as int) == 48 + n / 10);
    assert((tm[0] as int) == 48 + m / 10);
    assert((tn[1] as int) == 48 + n % 10);
    assert((tm[1] as int) == 48 + m % 10);
    let a0 = seq![tn[0]];
    let b0 = seq![tm[0]];
    assert(tn =~= a0 + seq![tn[1]]);
    assert(tm =~= b0 + seq![tm[1]]);
    lemma_lt_concat(a0, b0, seq![tn[1]], seq![tm[1]]);
    lemma_lt_concat(seq![tn[1]], seq![tm[1]], Seq::<char>::empty(), Seq::<char>::empty());
    assert(seq![tn[1]] + Seq::<char>::empty() =~= seq![tn[1]]);
    assert(seq![tm[1]] + Seq::<char>::empty() =~= seq![tm[1]]);
    if tn == tm {
        assert(tn[0] == tm[0] && tn[1] == tm[1]);
    }
}

/// Dates in year order, then month order, then day order.
pub open spec fn ymd_before(a: Date, b: Date) -> bool {
    a.year < b.year || (a.year == b.year && (a.month < b.month || (a.month == b.month && a.day < b.day)))
}

/// The serial day number follows year, month, day order.
proof fn lemma_day_number_order(a: Date, b: Date)
    requires
        a.wf(),
        b.wf(),
        ymd_before(a, b),
    ensures
        date::day_number(a) < date::day_number(b),
{
    let ya = a.year as int;
    let yb = b.year as int;
    assert(date::days_before_month(ya, a.month as int) + date::month_len(ya, a.month as int) <= 365 + (
    if date::is_leap_year(ya) {
        1int
    } else {
        0
    }));
    if ya < yb {
        date::lemma_year_length(ya);
        date::lemma_days_before_year_monotone(ya + 1, yb);
    } else if a.month < b.month {
        assert(date::days_before_month(ya, a.month as int) + date::month_len(ya, a.month as int)
            <= date::days_before_month(ya, b.month as int));
    }
}

/// `YYYY-MM-DD` texts of four-digit years compare like (year, month, day).
proof fn lemma_text_order_fields(a: Date, b: Date)
    requires
        a.wf(),
        b.wf(),
        0 <= a.year <= 9999,
        0 <= b.year <= 9999,
    ensures
        seq_lt(date::ymd_text(a), date::ymd_text(b)) == ymd_before(a, b),
        (date::ymd_text(a) == date::ymd_text(b)) == (a == b),
{
    let ya1 = a.year / 100;
    let ya2 = (a.year % 100) as int;
    let yb1 = b.year / 100;
    let yb2 = (b.year % 100) as int;
    lemma_two_digits_order(ya1 as int, yb1 as int);
    lemma_two_digits_order(ya2, yb2);
    lemma_two_digits_order(a.month as int, b.month as int);
    lemma_two_digits_order(a.day as int, b.day as int);
    let dash = seq!['-'];
    let ta4 = dash + date::two_digits(a.day as int);
    let tb4 = dash + date::two_digits(b.day as int);
    let ta3 = date::two_digits(a.month as int) + ta4;
    let tb3 = date::two_digits(b.month as int) + tb4;
    let ta2 = dash + ta3;
    let tb2 = dash + tb3;
    let ta1 = date::two_digits(ya2) + ta2;
    let tb1 = date::two_digits(yb2) + tb2;
    assert(date::ymd_text(a) =~= date::two_digits(ya1 as int) + ta1);
    assert(date::ymd_text(b) =~= date::two_digits(yb1 as int) + tb1);
    lemma_lt_concat(date::two_digits(ya1 as int), date::two_digits(yb1 as int), ta1, tb1);
    lemma_lt_concat(date::two_digits(ya2), date::two_digits(yb2), ta2, tb2);
    lemma_lt_concat(dash, dash, ta3, tb3);
    lemma_lt_concat(date::two_digits(a.month as int), date::two_digits(b.month as int), ta4, tb4);
    lemma_lt_concat(dash, dash, date::two_digits(a.day as int), date::two_digits(b.day as int));
    assert(a.year == 100 * ya1 + ya2);
    assert(b.year == 100 * yb1 + yb2);
}

/// Two valid dates with four-digit years: one `YYYY-MM-DD` text sorts before the other
/// exactly when its date is earlier, and the texts are equal exactly for the same date
/// (stored dates can be compared as text).
pub proof fn law_date_text_order(a: Date, b: Date)
    requires
        a.wf(),
        b.wf(),
        0 <= a.year <= 9999,
        0 <= b.year <= 9999,
    ensures
        seq_lt(date::ymd_text(a), date::ymd_text(b)) == (date::day_number(a) < date::day_number(b)),
        (date::ymd_text(a) == date::ymd_text(b)) == (a == b),
{
    lemma_text_order_fields(a, b);
    if ymd_before(a, b) {
        lemma_day_number_order(a, b);
    } else if ymd_before(b, a) {
        lemma_day_number_order(b, a);
    } else {
        assert(a == b);
    }
}

} // verus!
