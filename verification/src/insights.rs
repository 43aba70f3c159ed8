//! Insights over a week: the hour heat map (input events, foreground and audio
//! seconds per date and hour, with the busiest hour of the week) and the body
//! bill (events per day, the busiest day and the week's input totals).

use crate::date;
use crate::date::{add_days, format_ymd, local_now, Date, LocalNow};
use crate::weekbill;
use crate::weekbill::{bill_week_start, weekday_cn};
use vstd::prelude::*;

verus! {

/// Text order: character by character, a proper prefix first (the order of `String`).
pub open spec fn seq_lt(a: Seq<char>, b: Seq<char>) -> bool
    decreases a.len(),
{
    if a.len() == 0 {
        b.len() > 0
    } else if b.len() == 0 {
        false
    } else if a[0] != b[0] {
        a[0] < b[0]
    } else {
        seq_lt(a.drop_first(), b.drop_first())
    }
}

pub proof fn lemma_seq_lt_irreflexive(a: Seq<char>)
    ensures
        !seq_lt(a, a),
    decreases a.len(),
{
    if a.len() > 0 {
        lemma_seq_lt_irreflexive(a.drop_first());
    }
}

pub proof fn lemma_seq_lt_transitive(a: Seq<char>, b: Seq<char>, c: Seq<char>)
    requires
        seq_lt(a, b),
        seq_lt(b, c),
    ensures
        seq_lt(a, c),
    decreases a.len(),
{
    if a.len() > 0 && b.len() > 0 && c.len() > 0 {
        if a[0] == b[0] && b[0] == c[0] {
            lemma_seq_lt_transitive(a.drop_first(), b.drop_first(), c.drop_first());
        }
    }
}

pub proof fn lemma_seq_lt_total(a: Seq<char>, b: Seq<char>)
    requires
        a != b,
    ensures
        seq_lt(a, b) || seq_lt(b, a),
    decreases a.len(),
{
    if a.len() > 0 && b.len() > 0 && a[0] == b[0] {
        let ta = a.drop_first();
        let tb = b.drop_first();
        if ta == tb {
            assert(ta.len() == tb.len());
            assert(a.len() == b.len());
            assert forall|i: int| 0 <= i < a.len() implies a[i] == b[i] by {
                if i > 0 {
                    assert(a[i] == ta[i - 1]);
                    assert(b[i] == tb[i - 1]);
                }
            }
            assert(a =~= b);
        }
        lemma_seq_lt_total(ta, tb);
    } else if a.len() == 0 && b.len() == 0 {
        assert(a =~= b);
    }
}

/// Whether text `a` orders before text `b`.
pub fn text_lt(a: &str, b: &str) -> (r: bool)
    ensures
        r == seq_lt(a@, b@),
{
    let la = a.unicode_len();
    let lb = b.unicode_len();
    let mut i: usize = 0;
    proof {
        assert(a@.subrange(0, la as int) == a@);
        assert(b@.subrange(0, lb as int) == b@);
    }
    while i < la && i < lb
        invariant
            la == a@.len(),
            lb == b@.len(),
            i <= la,
            i <= lb,
            seq_lt(a@, b@) == seq_lt(a@.subrange(i as int, la as int), b@.subrange(i as int, lb as int)),
        decreases la - i,
    {
        let x = a.get_char(i);
        let y = b.get_char(i);
        proof {
            let sa = a@.subrange(i as int, la as int);
            let sb = b@.subrange(i as int, lb as int);
            assert(sa[0] == x);
            assert(sb[0] == y);
            assert(sa.drop_first() == a@.subrange(i + 1, la as int));
            assert(sb.drop_first() == b@.subrange(i + 1, lb as int));
        }
        if x != y {
            return x < y;
        }
        i += 1;
    }
    i == la && i < lb
}

/// Key of an hourly value: (date text, hour).
pub open spec fn key_lt(a: (Seq<char>, int), b: (Seq<char>, int)) -> bool {
    seq_lt(a.0, b.0) || (a.0 == b.0 && a.1 < b.1)
}

proof fn lemma_key_order(a: (Seq<char>, int), b: (Seq<char>, int), c: (Seq<char>, int))
    ensures
        !key_lt(a, a),
        key_lt(a, b) && key_lt(b, c) ==> key_lt(a, c),
        a != b ==> key_lt(a, b) || key_lt(b, a),
        key_lt(a, b) ==> !key_lt(b, a),
{
    lemma_seq_lt_irreflexive(a.0);
    lemma_seq_lt_irreflexive(b.0);
    if seq_lt(a.0, b.0) && seq_lt(b.0, c.0) {
        lemma_seq_lt_transitive(a.0, b.0, c.0);
    }
    if seq_lt(a.0, b.0) && seq_lt(b.0, a.0) {
        lemma_seq_lt_transitive(a.0, b.0, a.0);
    }
    if a.0 != b.0 {
        lemma_seq_lt_total(a.0, b.0);
    }
}

/// One hourly value from storage.
#[derive(Clone, Debug)]
pub struct HourRow {
    pub date: String,
    pub hour: i64,
    pub value: i64,
}

/// One hour of the heat map.
#[derive(Clone, Debug)]
pub struct HourCell {
    pub date: String,
    pub hour: i64,
    /// Input events (all mouse and keyboard events of the hour).
    pub events: i64,
    /// Foreground application seconds.
    pub front_secs: i64,
    /// Audio playback seconds.
    pub audio_secs: i64,
}

/// The heat map of a week.
#[derive(Debug)]
pub struct HourHeatmap {
    pub week_start: String,
    pub week_end: String,
    /// Hours with input events, ordered by (date, hour).
    pub cells: Vec<HourCell>,
    /// Hour of the day with the most events over the week (the later hour of equals),
    /// when any hour has events.
    pub peak_hour: Option<i64>,
}

pub open spec fn row_key(r: HourRow) -> (Seq<char>, int) {
    (r.date@, r.hour as int)
}

pub open spec fn cell_key(c: HourCell) -> (Seq<char>, int) {
    (c.date@, c.hour as int)
}

/// Index of the last row with a key.
pub open spec fn last_index(rows: Seq<HourRow>, k: (Seq<char>, int)) -> Option<int>
    decreases rows.len(),
{
    if rows.len() == 0 {
        None
    } else if row_key(rows.last()) == k {
        Some(rows.len() - 1)
    } else {
        last_index(rows.drop_last(), k)
    }
}

/// Value of the last row with a key, 0 when there is none.
pub open spec fn value_at(rows: Seq<HourRow>, k: (Seq<char>, int)) -> int {
    match last_index(rows, k) {
        Some(i) => rows[i].value as int,
        None => 0,
    }
}

/// Strictly ordered by key.
pub open spec fn cells_sorted(cells: Seq<HourCell>) -> bool {
    forall|i: int, j: int| 0 <= i < j < cells.len() ==> key_lt(cell_key(cells[i]), cell_key(cells[j]))
}

/// The cells are exactly the keys of the event rows, in order, each with the last
/// value of its key from each source.
pub open spec fn cells_match(
    cells: Seq<HourCell>,
    act: Seq<HourRow>,
    front: Seq<HourRow>,
    audio: Seq<HourRow>,
) -> bool {
    &&& cells_sorted(cells)
    &&& forall|i: int|
        0 <= i < cells.len() ==> {
            let k = cell_key(#[trigger] cells[i]);
            &&& last_index(act, k) is Some
            &&& cells[i].events == value_at(act, k)
            &&& cells[i].front_secs == value_at(front, k)
            &&& cells[i].audio_secs == value_at(audio, k)
        }
    &&& forall|r: int| 0 <= r < act.len() ==> exists|i: int| 0 <= i < cells.len() && #[trigger] cell_key(cells[i]) == row_key(#[trigger] act[r])
}

/// Events of an hour of the day over all cells.
pub open spec fn hour_total(cells: Seq<HourCell>, h: int) -> int
    decreases cells.len(),
{
    if cells.len() == 0 {
        0
    } else {
        hour_total(cells.drop_last(), h) + if cells.last().hour == h {
            cells.last().events as int
        } else {
            0
        }
    }
}

/// `h` is the busiest hour among the first `n` cells: positive total, no hour with more,
/// no later hour with as many.
pub open spec fn peak_among(cells: Seq<HourCell>, n: int, r: Option<i64>) -> bool {
    match r {
        None => forall|i: int| 0 <= i < n ==> hour_total(cells, #[trigger] cells[i].hour as int) <= 0,
        Some(h) => {
            &&& exists|i: int| 0 <= i < n && #[trigger] cells[i].hour == h
            &&& hour_total(cells, h as int) > 0
            &&& forall|i: int|
                0 <= i < n ==> hour_total(cells, #[trigger] cells[i].hour as int) < hour_total(cells, h as int)
                    || (hour_total(cells, cells[i].hour as int) == hour_total(cells, h as int) && cells[i].hour
                    <= h)
        },
    }
}

proof fn lemma_last_index_bounds(rows: Seq<HourRow>, k: (Seq<char>, int))
    ensures
        last_index(rows, k) matches Some(i) ==> 0 <= i < rows.len() && row_key(rows[i]) == k,
        last_index(rows, k) matches Some(i) ==> forall|j: int|
            i < j < rows.len() ==> row_key(#[trigger] rows[j]) != k,
        last_index(rows, k) is None ==> forall|j: int| 0 <= j < rows.len() ==> row_key(#[trigger] rows[j]) != k,
    decreases rows.len(),
{
    if rows.len() > 0 {
        let t = rows.drop_last();
        lemma_last_index_bounds(t, k);
        assert forall|j: int| 0 <= j < t.len() implies rows[j] == t[j] by {}
    }
}

/// Index of the cell with key `k`, or where it belongs.
fn locate(act: &Vec<HourRow>, idxs: &Vec<usize>, date: &String, hour: i64) -> (r: (usize, bool))
    requires
        forall|p: int| 0 <= p < idxs@.len() ==> (#[trigger] idxs@[p]) < act@.len(),
        forall|p: int, q: int|
            0 <= p < q < idxs@.len() ==> key_lt(row_key(act@[idxs@[p] as int]), row_key(act@[idxs@[q] as int])),
    ensures
        r.0 <= idxs@.len(),
        forall|p: int| 0 <= p < r.0 ==> key_lt(row_key(act@[#[trigger] idxs@[p] as int]), (date@, hour as int)),
        r.1 <==> (r.0 < idxs@.len() && row_key(act@[idxs@[r.0 as int] as int]) == (date@, hour as int)),
        !r.1 ==> forall|p: int|
            r.0 <= p < idxs@.len() ==> key_lt((date@, hour as int), row_key(act@[#[trigger] idxs@[p] as int])),
{
    let mut i: usize = 0;
    while i < idxs.len() && row_before(&act[idxs[i]], date, hour)
        invariant
            i <= idxs@.len(),
            forall|p: int| 0 <= p < idxs@.len() ==> (#[trigger] idxs@[p]) < act@.len(),
            forall|p: int| 0 <= p < i ==> key_lt(row_key(act@[#[trigger] idxs@[p] as int]), (date@, hour as int)),
        decreases idxs@.len() - i,
    {
        i += 1;
    }
    let found = i < idxs.len() && text_eq_strings(&act[idxs[i]].date, date) && act[idxs[i]].hour == hour;
    proof {
        let k = (date@, hour as int);
        if i < idxs@.len() {
            let ki = row_key(act@[idxs@[i as int] as int]);
            lemma_key_order(ki, k, k);
            assert(!key_lt(ki, k));
            if !found {
                assert(ki != k);
                assert(key_lt(k, ki));
                assert forall|p: int| i <= p < idxs@.len() implies key_lt(
                    k,
                    row_key(act@[#[trigger] idxs@[p] as int]),
                ) by {
                    if p > i {
                        lemma_key_order(k, ki, row_key(act@[idxs@[p] as int]));
                    }
                }
            }
        }
    }
    (i, found)
}

/// The row's key orders before `(date, hour)`.
fn row_before(row: &HourRow, date: &String, hour: i64) -> (r: bool)
    ensures
        r == key_lt(row_key(*row), (date@, hour as int)),
{
    text_lt(row.date.as_str(), date.as_str()) || (text_eq_strings(&row.date, date) && row.hour < hour)
}

fn text_eq_strings(a: &String, b: &String) -> (r: bool)
    ensures
        r == (a@ == b@),
{
    crate::clock::text_eq(a.as_str(), b.as_str())
}

/// Indices of the event rows that make the cells: one per key, the last of each key,
/// ordered by key.
fn cell_rows(act: &Vec<HourRow>) -> (idxs: Vec<usize>)
    ensures
        forall|p: int| 0 <= p < idxs@.len() ==> (#[trigger] idxs@[p]) < act@.len(),
        forall|p: int, q: int|
            0 <= p < q < idxs@.len() ==> key_lt(row_key(act@[idxs@[p] as int]), row_key(act@[idxs@[q] as int])),
        forall|p: int|
            0 <= p < idxs@.len() ==> last_index(act@, row_key(act@[#[trigger] idxs@[p] as int])) == Some(
                idxs@[p] as int,
            ),
        forall|r: int|
            0 <= r < act@.len() ==> exists|p: int|
                0 <= p < idxs@.len() && row_key(act@[#[trigger] idxs@[p] as int]) == row_key(#[trigger] act@[r]),
        idxs@.len() <= act@.len(),
{
    let mut idxs: Vec<usize> = Vec::new();
    let mut j: usize = 0;
    while j < act.len()
        invariant
            j <= act@.len(),
            idxs@.len() <= j,
            forall|p: int| 0 <= p < idxs@.len() ==> (#[trigger] idxs@[p]) < j,
            forall|p: int, q: int|
                0 <= p < q < idxs@.len() ==> key_lt(row_key(act@[idxs@[p] as int]), row_key(act@[idxs@[q] as int])),
            forall|p: int|
                0 <= p < idxs@.len() ==> last_index(
                    act@.subrange(0, j as int),
                    row_key(act@[#[trigger] idxs@[p] as int]),
                ) == Some(idxs@[p] as int),
            forall|r: int|
                0 <= r < j ==> exists|p: int|
                    0 <= p < idxs@.len() && row_key(act@[#[trigger] idxs@[p] as int]) == row_key(#[trigger] act@[r]),
        decreases act@.len() - j,
    {
        let ghost old_idxs = idxs@;
        let ghost pre = act@.subrange(0, j as int);
        let ghost post = act@.subrange(0, j + 1);
        let ghost k = row_key(act@[j as int]);
        proof {
            assert(post.drop_last() == pre);
            assert(post.last() == act@[j as int]);
        }
        let (pos, found) = locate(act, &idxs, &act[j].date, act[j].hour);
        if found {
            idxs.set(pos, j);
        } else {
            idxs.insert(pos, j);
        }
        proof {
            // Order is kept.
            assert forall|p: int, q: int| 0 <= p < q < idxs@.len() implies key_lt(
                row_key(act@[idxs@[p] as int]),
                row_key(act@[idxs@[q] as int]),
            ) by {
                if !found {
                    if q == pos {
                        assert(idxs@[p] == old_idxs[p]);
                    } else if p == pos {
                        assert(idxs@[q] == old_idxs[q - 1]);
                    } else if q < pos {
                        assert(idxs@[p] == old_idxs[p] && idxs@[q] == old_idxs[q]);
                    } else if p < pos {
                        assert(idxs@[p] == old_idxs[p] && idxs@[q] == old_idxs[q - 1]);
                        lemma_key_order(row_key(act@[idxs@[p] as int]), k, row_key(act@[idxs@[q] as int]));
                    } else {
                        assert(idxs@[p] == old_idxs[p - 1] && idxs@[q] == old_idxs[q - 1]);
                    }
                } else {
                    if p == pos {
                        assert(idxs@[q] == old_idxs[q]);
                    } else if q == pos {
                        assert(idxs@[p] == old_idxs[p]);
                    } else {
                        assert(idxs@[p] == old_idxs[p] && idxs@[q] == old_idxs[q]);
                    }
                }
            }
            // Each index is the last of its key in the longer prefix.
            assert forall|p: int| 0 <= p < idxs@.len() implies last_index(
                post,
                row_key(act@[#[trigger] idxs@[p] as int]),
            ) == Some(idxs@[p] as int) by {
                let kp = row_key(act@[idxs@[p] as int]);
                if idxs@[p] == j {
                } else {
                    let op: int = if !found && p > pos { p - 1 } else { p };
                    assert(idxs@[p] == old_idxs[op]);
                    assert(kp != k) by {
                        if found {
                            lemma_key_order(row_key(act@[old_idxs[op] as int]), k, k);
                            if op != pos {
                                lemma_key_order(
                                    row_key(act@[old_idxs[op] as int]),
                                    row_key(act@[old_idxs[pos as int] as int]),
                                    k,
                                );
                            }
                        } else {
                            lemma_key_order(row_key(act@[old_idxs[op] as int]), k, k);
                        }
                    }
                    assert(last_index(pre, kp) == Some(idxs@[p] as int));
                }
            }
            // Every row so far has its key among the cells.
            assert forall|r: int| 0 <= r < j + 1 implies exists|p: int|
                0 <= p < idxs@.len() && row_key(act@[#[trigger] idxs@[p] as int]) == row_key(
                    #[trigger] act@[r],
                ) by {
                if r == j {
                    assert(idxs@[pos as int] == j);
                    assert(row_key(act@[idxs@[pos as int] as int]) == row_key(act@[r]));
                } else {
                    let p0 = choose|p: int|
                        0 <= p < old_idxs.len() && row_key(act@[#[trigger] old_idxs[p] as int])
                            == row_key(#[trigger] act@[r]);
                    if found && p0 == pos {
                        assert(idxs@[pos as int] == j);
                        assert(row_key(act@[idxs@[pos as int] as int]) == row_key(act@[r]));
                    } else if !found && p0 >= pos {
                        assert(idxs@[p0 + 1] == old_idxs[p0]);
                        assert(row_key(act@[idxs@[p0 + 1] as int]) == row_key(act@[r]));
                    } else {
                        assert(idxs@[p0] == old_idxs[p0]);
                        assert(row_key(act@[idxs@[p0] as int]) == row_key(act@[r]));
                    }
                }
            }
        }
        j += 1;
    }
    proof {
        assert(act@.subrange(0, act@.len() as int) == act@);
    }
    idxs
}

/// Value of the last row with the key `(date, hour)`, 0 when none.
fn value_of(rows: &Vec<HourRow>, date: &String, hour: i64) -> (r: i64)
    ensures
        r == value_at(rows@, (date@, hour as int)),
{
    let mut found: Option<usize> = None;
    let mut i: usize = 0;
    while i < rows.len()
        invariant
            i <= rows@.len(),
            found matches Some(j) ==> j < i && last_index(rows@.subrange(0, i as int), (date@, hour as int))
                == Some(j as int),
            found is None ==> last_index(rows@.subrange(0, i as int), (date@, hour as int)) is None,
        decreases rows@.len() - i,
    {
        proof {
            let post = rows@.subrange(0, i + 1);
            assert(post.drop_last() == rows@.subrange(0, i as int));
            assert(post.last() == rows@[i as int]);
        }
        if text_eq_strings(&rows[i].date, date) && rows[i].hour == hour {
            found = Some(i);
        }
        i += 1;
    }
    proof {
        assert(rows@.subrange(0, rows@.len() as int) == rows@);
    }
    match found {
        Some(j) => rows[j].value,
        None => 0,
    }
}

/// Events of hour `h` over all cells (summed in 128 bits: no count of 64-bit values
/// that fits in memory can overflow it).
fn hour_events(cells: &Vec<HourCell>, h: i64) -> (r: i128)
    ensures
        r == hour_total(cells@, h as int),
{
    let mut sum: i128 = 0;
    let mut i: usize = 0;
    while i < cells.len()
        invariant
            i <= cells@.len(),
            sum == hour_total(cells@.subrange(0, i as int), h as int),
            -(i as int) * 0x8000_0000_0000_0000 <= sum <= (i as int) * 0x8000_0000_0000_0000,
        decreases cells@.len() - i,
    {
        proof {
            let post = cells@.subrange(0, i + 1);
            assert(post.drop_last() == cells@.subrange(0, i as int));
            assert(post.last() == cells@[i as int]);
            assert((i as int + 1) * 0x8000_0000_0000_0000 <= 0x7fff_ffff_ffff_ffff_8000_0000_0000_0000)
                by (nonlinear_arith)
                requires
                    i < 0x1_0000_0000_0000_0000 - 1,
            ;
        }
        if cells[i].hour == h {
            sum = sum + cells[i].events as i128;
        }
        i += 1;
    }
    proof {
        assert(cells@.subrange(0, cells@.len() as int) == cells@);
    }
    sum
}

/// The busiest hour of the day over the cells.
fn peak_hour_of(cells: &Vec<HourCell>) -> (r: Option<i64>)
    ensures
        peak_among(cells@, cells@.len() as int, r),
{
    let mut best: Option<(i64, i128)> = None;
    let mut i: usize = 0;
    while i < cells.len()
        invariant
            i <= cells@.len(),
            match best {
                Some((h, t)) => t == hour_total(cells@, h as int) && peak_among(cells@, i as int, Some(h)),
                None => peak_among(cells@, i as int, None),
            },
        decreases cells@.len() - i,
    {
        let h = cells[i].hour;
        let t = hour_events(cells, h);
        let better = t > 0 && match best {
            None => true,
            Some((bh, bt)) => t > bt || (t == bt && h > bh),
        };
        if better {
            best = Some((h, t));
        }
        proof {
            match best {
                Some((bh, bt)) => {
                    assert(peak_among(cells@, i + 1, Some(bh))) by {
                        if better {
                            assert(cells@[i as int].hour == bh);
                        }
                    }
                },
                None => {},
            }
        }
        i += 1;
    }
    match best {
        Some((h, _)) => Some(h),
        None => None,
    }
}

/// The heat map of the week `ws..=we` from the hourly event rows and the hourly
/// foreground and audio seconds.
pub fn hour_heatmap_assemble(
    ws: Date,
    we: Date,
    act: &Vec<HourRow>,
    front: &Vec<HourRow>,
    audio: &Vec<HourRow>,
) -> (r: HourHeatmap)
    requires
        ws.wf(),
        we.wf(),
    ensures
        r.week_start@ == date::chrono_ymd_text(ws),
        r.week_end@ == date::chrono_ymd_text(we),
        cells_match(r.cells@, act@, front@, audio@),
        peak_among(r.cells@, r.cells@.len() as int, r.peak_hour),
{
    let idxs = cell_rows(act);
    let mut cells: Vec<HourCell> = Vec::new();
    let mut p: usize = 0;
    while p < idxs.len()
        invariant
            p <= idxs@.len(),
            idxs@.len() <= act@.len(),
            cells@.len() == p,
            forall|q: int| 0 <= q < idxs@.len() ==> (#[trigger] idxs@[q]) < act@.len(),
            forall|q: int|
                0 <= q < p ==> {
                    let row = act@[idxs@[q] as int];
                    &&& (#[trigger] cells@[q]).date@ == row.date@
                    &&& cells@[q].hour == row.hour
                    &&& cells@[q].events == row.value
                    &&& cells@[q].front_secs == value_at(front@, row_key(row))
                    &&& cells@[q].audio_secs == value_at(audio@, row_key(row))
                },
        decreases idxs@.len() - p,
    {
        let row = &act[idxs[p]];
        let cell = HourCell {
            date: row.date.clone(),
            hour: row.hour,
            events: row.value,
            front_secs: value_of(front, &row.date, row.hour),
            audio_secs: value_of(audio, &row.date, row.hour),
        };
        cells.push(cell);
        p += 1;
    }
    proof {
        assert forall|q: int| 0 <= q < cells@.len() implies cell_key(#[trigger] cells@[q]) == row_key(
            act@[idxs@[q] as int],
        ) by {}
        assert forall|i: int| 0 <= i < cells@.len() implies {
            let k = cell_key(#[trigger] cells@[i]);
            &&& last_index(act@, k) is Some
            &&& cells@[i].events == value_at(act@, k)
            &&& cells@[i].front_secs == value_at(front@, k)
            &&& cells@[i].audio_secs == value_at(audio@, k)
        } by {
            assert(cell_key(cells@[i]) == row_key(act@[idxs@[i] as int]));
        }
        assert forall|r: int| 0 <= r < act@.len() implies exists|i: int|
            0 <= i < cells@.len() && #[trigger] cell_key(cells@[i]) == row_key(#[trigger] act@[r]) by {
            let q = choose|q: int|
                0 <= q < idxs@.len() && row_key(act@[#[trigger] idxs@[q] as int]) == row_key(#[trigger] act@[r]);
            assert(cell_key(cells@[q]) == row_key(act@[idxs@[q] as int]));
        }
    }
    let peak_hour = peak_hour_of(&cells);
    HourHeatmap { week_start: format_ymd(ws), week_end: format_ymd(we), cells, peak_hour }
}

/// Input events of one day from storage.
#[derive(Clone, Debug)]
pub struct DayEvents {
    pub date: String,
    pub events: i64,
}

/// Input totals of a week from storage.
#[derive(Clone, Copy, Debug, PartialEq, Eq, Structural)]
pub struct InputTotals {
    /// Clicks (a double click counts once).
    pub clicks: i64,
    pub keys: i64,
    pub moves: i64,
    /// Mouse travel in pixels.
    pub pixels: i64,
    pub wheel_ticks: i64,
}

/// One day of the body bill.
#[derive(Clone, Debug)]
pub struct BodyDay {
    pub day: Date,
    pub date: String,
    pub weekday: String,
    pub events: i64,
}

/// The body bill of a week.
#[derive(Debug)]
pub struct BodyBill {
    pub week_start: String,
    pub week_end: String,
    pub totals: InputTotals,
    /// Always seven days, Monday first (days without rows have 0 events).
    pub days: Vec<BodyDay>,
    /// Day with the most events (the later of equals), when any day has events.
    pub busiest: Option<BodyDay>,
}

/// Events of the last row of a date, 0 when none.
pub open spec fn day_events(rows: Seq<DayEvents>, key: Seq<char>) -> int
    decreases rows.len(),
{
    if rows.len() == 0 {
        0
    } else if rows.last().date@ == key {
        rows.last().events as int
    } else {
        day_events(rows.drop_last(), key)
    }
}

/// Index of the busiest of the first `n` days: positive events, no day with more, no
/// later day with as many.
pub open spec fn busiest_among(days: Seq<BodyDay>, n: int) -> Option<int>
    decreases n,
{
    if n <= 0 {
        None
    } else {
        let prev = busiest_among(days, n - 1);
        if days[n - 1].events > 0 && match prev {
            None => true,
            Some(j) => days[n - 1].events >= days[j].events,
        } {
            Some(n - 1)
        } else {
            prev
        }
    }
}

fn events_of(rows: &Vec<DayEvents>, key: &String) -> (r: i64)
    ensures
        r == day_events(rows@, key@),
{
    let mut found: Option<usize> = None;
    let mut i: usize = 0;
    while i < rows.len()
        invariant
            i <= rows@.len(),
            found matches Some(j) ==> j < i && day_events(rows@.subrange(0, i as int), key@) == rows@[j as int].events,
            found is None ==> day_events(rows@.subrange(0, i as int), key@) == 0,
        decreases rows@.len() - i,
    {
        proof {
            let post = rows@.subrange(0, i + 1);
            assert(post.drop_last() == rows@.subrange(0, i as int));
            assert(post.last() == rows@[i as int]);
        }
        if text_eq_strings(&rows[i].date, key) {
            found = Some(i);
        }
        i += 1;
    }
    proof {
        assert(rows@.subrange(0, rows@.len() as int) == rows@);
    }
    match found {
        Some(j) => rows[j].events,
        None => 0,
    }
}

/// The body bill of the week `ws..=we` from the daily event rows and the week's totals.
pub fn body_bill_assemble(ws: Date, we: Date, rows: &Vec<DayEvents>, totals: InputTotals) -> (r: BodyBill)
    requires
        ws.wf(),
        we.wf(),
        date::day_number(ws) + 6 <= date::day_number(date::last_date()),
    ensures
        r.week_start@ == date::chrono_ymd_text(ws),
        r.week_end@ == date::chrono_ymd_text(we),
        r.totals == totals,
        r.days@.len() == 7,
        forall|i: int| 0 <= i < 7 ==> body_day_matches(#[trigger] r.days@[i], ws, i, rows@),
        match busiest_among(r.days@, 7) {
            Some(j) => r.busiest matches Some(b) && b.date@ == r.days@[j].date@ && b.weekday@
                == r.days@[j].weekday@ && b.events == r.days@[j].events,
            None => r.busiest is None,
        },
        r.busiest is None <==> forall|k: int| 0 <= k < 7 ==> (#[trigger] r.days@[k]).events <= 0,
        r.busiest matches Some(b) ==> b.events > 0 && forall|k: int|
            0 <= k < 7 ==> (#[trigger] r.days@[k]).events <= b.events,
{
    let mut days: Vec<BodyDay> = Vec::new();
    let mut best: Option<usize> = None;
    let mut i: usize = 0;
    proof {
        date::lemma_day_number_bounds(ws);
    }
    while i < 7
        invariant
            ws.wf(),
            date::day_number(ws) + 6 <= date::day_number(date::last_date()),
            date::day_number(date::first_date()) <= date::day_number(ws),
            i <= 7,
            days@.len() == i,
            forall|k: int| 0 <= k < i ==> body_day_matches(#[trigger] days@[k], ws, k, rows@),
            match busiest_among(days@, i as int) {
                Some(j) => best == Some(j as usize),
                None => best is None,
            },
            best matches Some(j) ==> j < i,
        decreases 7 - i,
    {
        let d = add_days(ws, i as i64).unwrap();
        let text = format_ymd(d);
        let events = events_of(rows, &text);
        let day = BodyDay { day: d, date: text, weekday: weekday_cn(d), events };
        let ghost before = days@;
        days.push(day);
        proof {
            assert forall|k: int| 0 <= k < i implies days@[k] == before[k] by {}
            lemma_busiest_prefix(days@, before, i as int);
        }
        best = next_busiest(&days, best);
        i += 1;
    }
    proof {
        lemma_busiest_prefix(days@, days@, 7);
        law_busiest_is_most_events(days@, 7);
    }
    let busiest = match best {
        Some(j) => Some(
            BodyDay {
                day: days[j].day,
                date: days[j].date.clone(),
                weekday: days[j].weekday.clone(),
                events: days[j].events,
            },
        ),
        None => None,
    };
    BodyBill { week_start: format_ymd(ws), week_end: format_ymd(we), totals, days, busiest }
}

/// What one day of the body bill holds: day `i` of the week starting on `ws`.
pub open spec fn body_day_matches(b: BodyDay, ws: Date, i: int, rows: Seq<DayEvents>) -> bool {
    &&& b.day.wf()
    &&& date::day_number(b.day) == date::day_number(ws) + i
    &&& b.date@ == date::chrono_ymd_text(b.day)
    &&& b.weekday@ == weekbill::weekday_cn_spec(date::weekday_index(b.day))
    &&& b.events == day_events(rows, date::chrono_ymd_text(b.day))
}

/// The busiest day after one more day is added.
fn next_busiest(days: &Vec<BodyDay>, prev: Option<usize>) -> (r: Option<usize>)
    requires
        days@.len() > 0,
        match busiest_among(days@, days@.len() - 1) {
            Some(j) => prev == Some(j as usize),
            None => prev is None,
        },
    ensures
        match busiest_among(days@, days@.len() as int) {
            Some(j) => r == Some(j as usize),
            None => r is None,
        },
        r matches Some(j) ==> j < days@.len(),
        is_busiest(
            days@,
            days@.len() as int,
            match r {
                Some(j) => Some(j as int),
                None => None,
            },
        ),
{
    let n = days.len();
    proof {
        lemma_busiest_prefix(days@, days@, n - 1);
        law_busiest_is_most_events(days@, n as int);
    }
    let last = &days[n - 1];
    if last.events > 0 && match prev {
        None => true,
        Some(j) => last.events >= days[j].events,
    } {
        Some(n - 1)
    } else {
        prev
    }
}

/// The busiest day among the first `n` days: it has positive events, no day has more,
/// and of equally busy days the later one is picked; with no positive day there is none.
pub open spec fn is_busiest(days: Seq<BodyDay>, n: int, r: Option<int>) -> bool {
    match r {
        Some(j) => {
            &&& 0 <= j < n
            &&& days[j].events > 0
            &&& forall|k: int|
                0 <= k < n ==> (#[trigger] days[k]).events < days[j].events || (days[k].events == days[j].events
                    && k <= j)
        },
        None => forall|k: int| 0 <= k < n ==> (#[trigger] days[k]).events <= 0,
    }
}

/// The busiest day is the day with the most events (a positive number), the later one
/// of equally busy days; no day is busiest when none has an event.
pub proof fn law_busiest_is_most_events(days: Seq<BodyDay>, n: int)
    requires
        0 <= n <= days.len(),
    ensures
        is_busiest(days, n, busiest_among(days, n)),
    decreases n,
{
    if n > 0 {
        law_busiest_is_most_events(days, n - 1);
    }
}

proof fn lemma_busiest_prefix(a: Seq<BodyDay>, b: Seq<BodyDay>, n: int)
    requires
        0 <= n <= b.len(),
        b.len() <= a.len(),
        forall|k: int| 0 <= k < b.len() ==> a[k] == b[k],
    ensures
        busiest_among(a, n) == busiest_among(b, n),
        busiest_among(a, n) matches Some(j) ==> 0 <= j < n,
    decreases n,
{
    if n > 0 {
        lemma_busiest_prefix(a, b, n - 1);
    }
}

/// Monday and Sunday of the week `week_offset` weeks before the one holding `today`
/// (future offsets count as the current week).
pub fn week_bounds_on(today: Date, week_offset: i64) -> (r: (Date, Date))
    requires
        today.wf(),
        date::day_number(today) - 7 * weekbill::offset_weeks(week_offset as int) >= date::day_number(
            weekbill::second_year_first(),
        ),
        date::day_number(today) + 6 <= date::day_number(date::last_date()),
    ensures
        r.0.wf(),
        r.1.wf(),
        date::weekday_index(r.0) == 0,
        date::day_number(r.0) <= date::day_number(today) - 7 * weekbill::offset_weeks(week_offset as int)
            <= date::day_number(r.0) + 6,
        date::day_number(r.1) == date::day_number(r.0) + 6,
{
    let ws = bill_week_start(today, week_offset);
    let we = add_days(ws, 6).unwrap();
    (ws, we)
}

/// The week `week_offset` weeks before the one holding `today` lies within the dates
/// chrono represents.
pub open spec fn week_in_range(today: Date, week_offset: i64) -> bool {
    &&& date::day_number(today) - 7 * weekbill::offset_weeks(week_offset as int) >= date::day_number(
        weekbill::second_year_first(),
    )
    &&& date::day_number(today) + 6 <= date::day_number(date::last_date())
}

/// Monday and Sunday of the week `week_offset` weeks before the one holding `today`
/// (future offsets count as the current week); `None` when that week lies outside the
/// dates chrono represents.
pub fn week_bounds_at(today: Date, week_offset: i64) -> (r: Option<(Date, Date)>)
    requires
        today.wf(),
    ensures
        r is Some <==> week_in_range(today, week_offset),
        r matches Some((ws, we)) ==> {
            &&& ws.wf()
            &&& we.wf()
            &&& date::weekday_index(ws) == 0
            &&& date::day_number(ws) <= date::day_number(today) - 7 * weekbill::offset_weeks(
                week_offset as int,
            ) <= date::day_number(ws) + 6
            &&& date::day_number(we) == date::day_number(ws) + 6
        },
{
    let off: i64 = if week_offset > 0 {
        week_offset
    } else {
        0
    };
    proof {
        date::lemma_day_number_bounds(today);
        date::lemma_day_number_bounds(weekbill::second_year_first());
    }
    let earliest = weekbill::second_year_first_date();
    if (date::days_between(today, earliest) as i128) < (off as i128) * 7 {
        proof {
            assert(!week_in_range(today, week_offset));
        }
        return None;
    }
    let latest = date::ymd_opt(date::MAX_YEAR, 12, 25).unwrap();
    if date::days_between(latest, today) < 0 {
        proof {
            assert(date::day_number(date::last_date()) == date::day_number(latest) + 6);
            assert(!week_in_range(today, week_offset));
        }
        return None;
    }
    proof {
        assert(date::day_number(date::last_date()) == date::day_number(latest) + 6);
        assert(week_in_range(today, week_offset));
    }
    Some(week_bounds_on(today, week_offset))
}

/// Monday and Sunday of the week `week_offset` weeks before the current local week
/// (future offsets count as the current week); `None` when that week lies outside the
/// dates chrono represents. Which week is current depends on the clock.
pub fn week_bounds(week_offset: i64) -> (r: Option<(Date, Date)>)
    ensures
        exists|today: Date|
            today.wf() && #[trigger] week_bounds_at_spec(today, week_offset, r),
{
    let today = local_now().date;
    let r = week_bounds_at(today, week_offset);
    proof {
        assert(week_bounds_at_spec(today, week_offset, r));
    }
    r
}

/// What `week_bounds_at` returns for `today`.
pub open spec fn week_bounds_at_spec(today: Date, week_offset: i64, r: Option<(Date, Date)>) -> bool {
    &&& (r is Some <==> week_in_range(today, week_offset))
    &&& (r matches Some((ws, we)) ==> {
        &&& ws.wf()
        &&& we.wf()
        &&& date::weekday_index(ws) == 0
        &&& date::day_number(ws) <= date::day_number(today) - 7 * weekbill::offset_weeks(
            week_offset as int,
        ) <= date::day_number(ws) + 6
        &&& date::day_number(we) == date::day_number(ws) + 6
    })
}

} // verus!
