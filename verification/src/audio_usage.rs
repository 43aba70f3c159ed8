//! Media playback time: which applications are heard in each sample (several
//! sessions of one application count once), the per-application milliseconds
//! carried over until they make whole seconds, and the sessions worth sampling.

use crate::app_usage::{display_name_of, exe_name_lower, is_self_exe, std_lowercase};
use crate::clock::text_eq;
use vstd::prelude::*;
use vstd::string::*;

verus! {

/// Peak sampling interval within one enumeration round (milliseconds).
pub const SAMPLE_INTERVAL_MS: u64 = 200;

/// Milliseconds a sample counts for: the time that really passed, at most two intervals
/// (after sleep or a stall nothing was heard in between).
pub fn sample_dt(elapsed_ms: u64) -> (r: u64)
    ensures
        r == (if elapsed_ms < 2 * SAMPLE_INTERVAL_MS { elapsed_ms as int } else { 2 * SAMPLE_INTERVAL_MS }),
{
    if elapsed_ms < SAMPLE_INTERVAL_MS * 2 {
        elapsed_ms
    } else {
        SAMPLE_INTERVAL_MS * 2
    }
}

/// Milliseconds recorded for an application name: the first entry with that name, 0
/// when none.
pub open spec fn ms_of(list: Seq<(String, u64)>, app: Seq<char>) -> u64
    decreases list.len(),
{
    if list.len() == 0 {
        0
    } else if list[0].0@ == app {
        list[0].1
    } else {
        ms_of(list.drop_first(), app)
    }
}

/// Names appear at most once.
pub open spec fn distinct_names(list: Seq<(String, u64)>) -> bool {
    forall|i: int, j: int| 0 <= i < j < list.len() ==> list[i].0@ != list[j].0@
}

proof fn lemma_ms_of_index(list: Seq<(String, u64)>, app: Seq<char>)
    requires
        distinct_names(list),
    ensures
        forall|i: int| 0 <= i < list.len() && #[trigger] list[i].0@ == app ==> ms_of(list, app) == list[i].1,
        (forall|i: int| 0 <= i < list.len() ==> list[i].0@ != app) ==> ms_of(list, app) == 0,
    decreases list.len(),
{
    if list.len() > 0 {
        let t = list.drop_first();
        assert(distinct_names(t)) by {
            assert forall|i: int, j: int| 0 <= i < j < t.len() implies t[i].0@ != t[j].0@ by {
                assert(t[i] == list[i + 1] && t[j] == list[j + 1]);
            }
        }
        lemma_ms_of_index(t, app);
        assert forall|i: int| 0 <= i < list.len() && #[trigger] list[i].0@ == app implies ms_of(list, app)
            == list[i].1 by {
            if i > 0 {
                assert(list[i] == t[i - 1]);
            }
        }
        if forall|i: int| 0 <= i < list.len() ==> list[i].0@ != app {
            assert forall|i: int| 0 <= i < t.len() implies t[i].0@ != app by {
                assert(t[i] == list[i + 1]);
            }
        }
    }
}

/// Per-application milliseconds with distinct names.
#[derive(Debug)]
pub struct MsTable {
    pub entries: Vec<(String, u64)>,
}

impl MsTable {
    pub open spec fn wf(&self) -> bool {
        distinct_names(self.entries@)
    }

    pub open spec fn get_spec(&self, app: Seq<char>) -> u64 {
        ms_of(self.entries@, app)
    }

    pub fn new() -> (r: Self)
        ensures
            r.wf(),
            forall|a: Seq<char>| r.get_spec(a) == 0,
    {
        MsTable { entries: Vec::new() }
    }

    fn find(&self, app: &str) -> (r: Option<usize>)
        requires
            self.wf(),
        ensures
            r matches Some(i) ==> i < self.entries@.len() && self.entries@[i as int].0@ == app@,
            r is None ==> forall|i: int| 0 <= i < self.entries@.len() ==> self.entries@[i].0@ != app@,
    {
        let mut i: usize = 0;
        while i < self.entries.len()
            invariant
                i <= self.entries@.len(),
                forall|k: int| 0 <= k < i ==> self.entries@[k].0@ != app@,
            decreases self.entries@.len() - i,
        {
            if text_eq(self.entries[i].0.as_str(), app) {
                return Some(i);
            }
            i += 1;
        }
        None
    }

    /// Milliseconds of an application.
    pub fn get(&self, app: &str) -> (r: u64)
        requires
            self.wf(),
        ensures
            r == self.get_spec(app@),
    {
        proof {
            lemma_ms_of_index(self.entries@, app@);
        }
        match self.find(app) {
            Some(i) => self.entries[i].1,
            None => 0,
        }
    }

    /// Sets the milliseconds of an application.
    pub fn put(&mut self, app: &str, v: u64)
        requires
            old(self).wf(),
        ensures
            final(self).wf(),
            final(self).get_spec(app@) == v,
            forall|a: Seq<char>| a != app@ ==> final(self).get_spec(a) == old(self).get_spec(a),
    {
        let ghost s = self.entries@;
        match self.find(app) {
            Some(i) => {
                self.entries.set(i, (String::from_str(app), v));
                proof {
                    let t = self.entries@;
                    assert(distinct_names(t)) by {
                        assert forall|a: int, b: int| 0 <= a < b < t.len() implies t[a].0@ != t[b].0@ by {
                            if a != i && b != i {
                                assert(t[a] == s[a] && t[b] == s[b]);
                            } else if a == i {
                                assert(t[b] == s[b]);
                            } else {
                                assert(t[a] == s[a]);
                            }
                        }
                    }
                    lemma_ms_of_index(t, app@);
                    assert(t[i as int].0@ == app@);
                    assert forall|a: Seq<char>| a != app@ implies ms_of(t, a) == ms_of(s, a) by {
                        lemma_ms_of_index(t, a);
                        lemma_ms_of_index(s, a);
                        if exists|k: int| 0 <= k < s.len() && s[k].0@ == a {
                            let k = choose|k: int| 0 <= k < s.len() && s[k].0@ == a;
                            assert(k != i);
                            assert(t[k] == s[k]);
                        } else {
                            assert forall|k: int| 0 <= k < t.len() implies t[k].0@ != a by {
                                if k != i {
                                    assert(t[k] == s[k]);
                                }
                            }
                        }
                    }
                }
            },
            None => {
                self.entries.push((String::from_str(app), v));
                proof {
                    let t = self.entries@;
                    assert(distinct_names(t)) by {
                        assert forall|a: int, b: int| 0 <= a < b < t.len() implies t[a].0@ != t[b].0@ by {
                            if b == s.len() {
                                assert(t[a] == s[a]);
                            } else {
                                assert(t[a] == s[a] && t[b] == s[b]);
                            }
                        }
                    }
                    lemma_ms_of_index(t, app@);
                    assert(t[s.len() as int].0@ == app@);
                    assert forall|a: Seq<char>| a != app@ implies ms_of(t, a) == ms_of(s, a) by {
                        lemma_ms_of_index(t, a);
                        lemma_ms_of_index(s, a);
                        if exists|k: int| 0 <= k < s.len() && s[k].0@ == a {
                            let k = choose|k: int| 0 <= k < s.len() && s[k].0@ == a;
                            assert(t[k] == s[k]);
                        } else {
                            assert forall|k: int| 0 <= k < t.len() implies t[k].0@ != a by {
                                if k < s.len() {
                                    assert(t[k] == s[k]);
                                }
                            }
                        }
                    }
                }
            },
        }
    }
}

/// One application of a sample was heard.
pub open spec fn heard_in(apps: Seq<String>, heard: Seq<bool>, app: Seq<char>) -> bool {
    exists|i: int| 0 <= i < apps.len() && #[trigger] apps[i]@ == app && heard[i]
}

/// Adds one sample to the accumulated milliseconds: each application with any heard
/// session (`heard[i]` for session `i` of application `apps[i]`) gets `dt` once.
pub fn accumulate_heard(acc: &mut MsTable, apps: &Vec<String>, heard: &Vec<bool>, dt: u64)
    requires
        old(acc).wf(),
        apps@.len() == heard@.len(),
        forall|a: Seq<char>| old(acc).get_spec(a) + dt <= u64::MAX,
    ensures
        final(acc).wf(),
        forall|a: Seq<char>|
            #![trigger final(acc).get_spec(a)]
            final(acc).get_spec(a) == old(acc).get_spec(a) + if heard_in(apps@, heard@, a) {
                dt
            } else {
                0
            },
{
    let ghost start = *acc;
    let mut i: usize = 0;
    while i < apps.len()
        invariant
            i <= apps@.len(),
            apps@.len() == heard@.len(),
            acc.wf(),
            start.wf(),
            forall|a: Seq<char>| start.get_spec(a) + dt <= u64::MAX,
            forall|a: Seq<char>|
                #![trigger acc.get_spec(a)]
                acc.get_spec(a) == start.get_spec(a) + if heard_in(apps@.subrange(0, i as int), heard@.subrange(0, i as int), a) {
                    dt
                } else {
                    0
                },
        decreases apps@.len() - i,
    {
        let ghost pa = apps@.subrange(0, i as int);
        let ghost ph = heard@.subrange(0, i as int);
        let ghost na = apps@.subrange(0, i + 1);
        let ghost nh = heard@.subrange(0, i + 1);
        proof {
            assert forall|a: Seq<char>| heard_in(na, nh, a) == (heard_in(pa, ph, a) || (apps@[i as int]@ == a
                && heard@[i as int])) by {
                if heard_in(pa, ph, a) {
                    let k = choose|k: int| 0 <= k < pa.len() && #[trigger] pa[k]@ == a && ph[k];
                    assert(na[k] == pa[k] && nh[k] == ph[k]);
                }
                if heard_in(na, nh, a) {
                    let k = choose|k: int| 0 <= k < na.len() && #[trigger] na[k]@ == a && nh[k];
                    if k < i {
                        assert(na[k] == pa[k] && nh[k] == ph[k]);
                    }
                }
                if apps@[i as int]@ == a && heard@[i as int] {
                    assert(na[i as int]@ == a && nh[i as int]);
                }
            }
        }
        if heard[i] {
            let name = apps[i].as_str();
            let already = heard_before(apps, heard, i, name);
            if !already {
                let cur = acc.get(name);
                acc.put(name, cur + dt);
            }
        }
        i += 1;
    }
    proof {
        assert(apps@.subrange(0, apps@.len() as int) == apps@);
        assert(heard@.subrange(0, heard@.len() as int) == heard@);
    }
}

/// Whether an application was already heard among the first `i` sessions.
fn heard_before(apps: &Vec<String>, heard: &Vec<bool>, i: usize, name: &str) -> (r: bool)
    requires
        i <= apps@.len(),
        apps@.len() == heard@.len(),
    ensures
        r == heard_in(apps@.subrange(0, i as int), heard@.subrange(0, i as int), name@),
{
    let ghost pa = apps@.subrange(0, i as int);
    let ghost ph = heard@.subrange(0, i as int);
    let mut k: usize = 0;
    while k < i
        invariant
            k <= i,
            i <= apps@.len(),
            apps@.len() == heard@.len(),
            pa == apps@.subrange(0, i as int),
            ph == heard@.subrange(0, i as int),
            forall|q: int| 0 <= q < k ==> !(pa[q]@ == name@ && ph[q]),
        decreases i - k,
    {
        if heard[k] && text_eq(apps[k].as_str(), name) {
            proof {
                assert(pa[k as int]@ == name@ && ph[k as int]);
            }
            return true;
        }
        k += 1;
    }
    false
}

/// Credits the milliseconds heard this round: each application's carried milliseconds
/// plus the new ones become whole seconds to record (returned, in order) and a carry
/// below one second.
pub fn credit(pending: &mut MsTable, played: &Vec<(String, u64)>) -> (due: Vec<(String, i64)>)
    requires
        old(pending).wf(),
        distinct_names(played@),
        forall|a: Seq<char>| old(pending).get_spec(a) < 1000,
        forall|i: int| 0 <= i < played@.len() ==> (#[trigger] played@[i]).1 <= u64::MAX - 1000,
    ensures
        final(pending).wf(),
        forall|a: Seq<char>| final(pending).get_spec(a) < 1000,
        forall|a: Seq<char>|
            #![trigger final(pending).get_spec(a)]
            final(pending).get_spec(a) == (old(pending).get_spec(a) + ms_of(played@, a)) % 1000,
        forall|i: int|
            0 <= i < due@.len() ==> (#[trigger] due@[i]).1 > 0 && due@[i].1 == (old(pending).get_spec(
                due@[i].0@,
            ) + ms_of(played@, due@[i].0@)) / 1000,
        forall|a: Seq<char>|
            (old(pending).get_spec(a) + ms_of(played@, a)) / 1000 > 0 ==> exists|i: int|
                0 <= i < due@.len() && #[trigger] due@[i].0@ == a,
{
    let ghost start = *pending;
    let mut due: Vec<(String, i64)> = Vec::new();
    let mut i: usize = 0;
    proof {
        lemma_ms_of_index(played@, Seq::empty());
    }
    while i < played.len()
        invariant
            i <= played@.len(),
            distinct_names(played@),
            pending.wf(),
            start.wf(),
            forall|a: Seq<char>| start.get_spec(a) < 1000,
            forall|k: int| 0 <= k < played@.len() ==> (#[trigger] played@[k]).1 <= u64::MAX - 1000,
            forall|a: Seq<char>|
                #![trigger pending.get_spec(a)]
                (exists|k: int| 0 <= k < i && #[trigger] played@[k].0@ == a) ==> pending.get_spec(a) == (
                start.get_spec(a) + ms_of(played@, a)) % 1000,
            forall|a: Seq<char>|
                #![trigger pending.get_spec(a)]
                !(exists|k: int| 0 <= k < i && #[trigger] played@[k].0@ == a) ==> pending.get_spec(a)
                    == start.get_spec(a),
            forall|q: int|
                0 <= q < due@.len() ==> (#[trigger] due@[q]).1 > 0 && due@[q].1 == (start.get_spec(
                    due@[q].0@,
                ) + ms_of(played@, due@[q].0@)) / 1000 && (exists|k: int| 0 <= k < i && #[trigger] played@[k].0@ == due@[q].0@),
            forall|k: int|
                0 <= k < i && (start.get_spec(played@[k].0@) + played@[k].1) / 1000 > 0 ==> exists|q: int|
                    0 <= q < due@.len() && #[trigger] due@[q].0@ == played@[k].0@,
        decreases played@.len() - i,
    {
        let name = played[i].0.as_str();
        let ms = played[i].1;
        proof {
            lemma_ms_of_index(played@, name@);
            assert(ms_of(played@, name@) == ms);
            assert(!(exists|k: int| 0 <= k < i && #[trigger] played@[k].0@ == name@));
        }
        let total = pending.get(name) + ms;
        let secs = total / 1000;
        pending.put(name, total - secs * 1000);
        let ghost old_due = due@;
        if secs > 0 {
            due.push((String::from_str(name), secs as i64));
        }
        proof {
            assert forall|k: int|
                0 <= k < i + 1 && (start.get_spec(played@[k].0@) + played@[k].1) / 1000 > 0 implies exists|q: int|
                0 <= q < due@.len() && #[trigger] due@[q].0@ == played@[k].0@ by {
                if k == i {
                    let q = due@.len() - 1;
                    assert(due@[q].0@ == played@[k].0@);
                } else {
                    let q = choose|q: int| 0 <= q < old_due.len() && #[trigger] old_due[q].0@ == played@[k].0@;
                    assert(due@[q] == old_due[q]);
                }
            }
        }
        i += 1;
    }
    proof {
        assert forall|a: Seq<char>| #![trigger pending.get_spec(a)] pending.get_spec(a) == (start.get_spec(a)
            + ms_of(played@, a)) % 1000 by {
            lemma_ms_of_index(played@, a);
        }
        assert forall|a: Seq<char>| (start.get_spec(a) + ms_of(played@, a)) / 1000 > 0 implies exists|q: int|
            0 <= q < due@.len() && #[trigger] due@[q].0@ == a by {
            lemma_ms_of_index(played@, a);
            if !(exists|k: int| 0 <= k < played@.len() && played@[k].0@ == a) {
                assert(ms_of(played@, a) == 0);
            } else {
                let k = choose|k: int| 0 <= k < played@.len() && played@[k].0@ == a;
                assert(ms_of(played@, a) == played@[k].1);
            }
        }
    }
    due
}

/// The display name of an audio session's process, or `None` when it is not counted:
/// the system session (process 0), a process whose path could not be read, or this
/// program itself.
pub fn media_app_of(pid: u32, exe_path: Option<&str>, file_desc: Option<&str>) -> (r: Option<String>)
    ensures
        pid == 0 || exe_path is None ==> r is None,
        pid != 0 ==> (exe_path matches Some(p) ==> (std_lowercase(crate::app_usage::file_name_spec(p@))
            == crate::app_usage::self_exe() <==> r is None)),
        r matches Some(n) ==> exe_path matches Some(p) && n@ == crate::app_usage::display_name_spec(
            std_lowercase(crate::app_usage::file_name_spec(p@)),
            crate::app_usage::opt_str_view(file_desc),
        ),
{
    if pid == 0 {
        return None;
    }
    let path = match exe_path {
        Some(p) => p,
        None => return None,
    };
    let exe = exe_name_lower(path);
    if is_self_exe(exe.as_str()) {
        return None;
    }
    Some(display_name_of(exe.as_str(), file_desc))
}

/// Whether an icon still has to be sent: not among the names the page already holds.
pub fn needs_icon(known: &Vec<String>, app: &str) -> (r: bool)
    ensures
        r == !(exists|i: int| 0 <= i < known@.len() && #[trigger] known@[i]@ == app@),
{
    let mut i: usize = 0;
    while i < known.len()
        invariant
            i <= known@.len(),
            forall|k: int| 0 <= k < i ==> known@[k]@ != app@,
        decreases known@.len() - i,
    {
        if text_eq(known[i].as_str(), app) {
            return false;
        }
        i += 1;
    }
    true
}

/// One application of the playback summary.
#[derive(Clone, Debug)]
pub struct AudioUsageItem {
    pub app: String,
    pub seconds: i64,
    /// Icon as a PNG data URL; `None` when the page has it already or none is cached.
    pub icon: Option<String>,
}

/// The day's playback time.
#[derive(Clone, Debug)]
pub struct AudioUsageSummary {
    /// `YYYY-MM-DD`
    pub date: String,
    /// Applications, longest first.
    pub apps: Vec<AudioUsageItem>,
    /// Seconds per hour of the day.
    pub hourly: Vec<i64>,
    /// Audio monitoring works.
    pub watch_ok: bool,
}

/// Switches playback monitoring on or off.
pub fn set_enabled(flag: &mut bool, v: bool)
    ensures
        *final(flag) == v,
{
    *flag = v;
}

/// Nothing is settled at exit: at most one sampling round (five seconds) is lost.
pub fn shutdown() {
}

} // verus!
