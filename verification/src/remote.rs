//! Remote-control detection: a remote desktop session, or recent input from a
//! device whose name carries the signature of a remote-control tool. During
//! remote use the lock-screen events are not treated as leaving work.

use crate::clock::chars_of;
use std::collections::HashMap;
use vstd::prelude::*;

verus! {

broadcast use vstd::std_specs::hash::group_hash_axioms;

/// Input from a remote device keeps the session remote for this long (milliseconds).
pub const REMOTE_WINDOW_MS: u64 = 60_000;

/// Upper-case form std's `str::to_uppercase` gives a text (Unicode `Uppercase` mapping,
/// a function of the text alone).
pub uninterp spec fn std_uppercase(s: Seq<char>) -> Seq<char>;

/// std `str::to_uppercase`.
#[verifier::external_body]
fn to_uppercase(s: &str) -> (r: String)
    ensures
        r@ == std_uppercase(s@),
{
    s.to_uppercase()
}

/// Device-name signatures of remote-control tools.
pub open spec fn signatures() -> Seq<Seq<char>> {
    seq!["RDP"@, "RDP_KBD"@, "RDP_MOU"@, "SUNLOGIN"@, "TODESK"@, "UU"@]
}

/// `needle` occurs in `hay` at position `i`.
pub open spec fn occurs_at(hay: Seq<char>, needle: Seq<char>, i: int) -> bool {
    0 <= i && i + needle.len() <= hay.len() && hay.subrange(i, i + needle.len()) == needle
}

/// `needle` occurs somewhere in `hay`.
pub open spec fn contains_text(hay: Seq<char>, needle: Seq<char>) -> bool {
    exists|i: int| #[trigger] occurs_at(hay, needle, i)
}

/// Whether `needle` occurs in `hay`.
pub fn text_contains(hay: &Vec<char>, needle: &str) -> (r: bool)
    ensures
        r == contains_text(hay@, needle@),
{
    let nd = chars_of(needle);
    let n = nd.len();
    let h = hay.len();
    if n > h {
        proof {
            assert forall|i: int| !occurs_at(hay@, needle@, i) by {}
        }
        return false;
    }
    let mut i: usize = 0;
    while i <= h - n
        invariant
            n == needle@.len(),
            nd@ == needle@,
            h == hay@.len(),
            n <= h,
            i <= h - n + 1,
            forall|j: int| 0 <= j < i ==> !occurs_at(hay@, needle@, j),
        decreases h - n + 1 - i,
    {
        let mut k: usize = 0;
        while k < n && hay[i + k] == nd[k]
            invariant
                k <= n,
                i + n <= h,
                n == nd@.len(),
                h == hay@.len(),
                forall|q: int| 0 <= q < k ==> hay@[i + q] == nd@[q],
            decreases n - k,
        {
            k += 1;
        }
        if k == n {
            proof {
                assert(hay@.subrange(i as int, i + n) =~= needle@);
                assert(occurs_at(hay@, needle@, i as int));
            }
            return true;
        }
        proof {
            assert(hay@[i + k] != needle@[k as int]);
            assert(hay@.subrange(i as int, i + n)[k as int] == hay@[i + k]);
        }
        i += 1;
    }
    proof {
        assert forall|j: int| !occurs_at(hay@, needle@, j) by {
            if 0 <= j && j + n <= h {
                assert(j < i);
            }
        }
    }
    false
}

/// Whether a device name carries a remote-control signature (upper-cased first).
pub open spec fn signature_spec(name: Seq<char>) -> bool {
    exists|i: int| 0 <= i < signatures().len() && contains_text(std_uppercase(name), #[trigger] signatures()[i])
}

/// Whether a device name carries a remote-control signature (case-insensitive).
pub fn remote_device_signature(name: &str) -> (r: bool)
    ensures
        r == signature_spec(name@),
{
    let up = to_uppercase(name);
    let chars = chars_of(up.as_str());
    let sigs: [&str; 6] = ["RDP", "RDP_KBD", "RDP_MOU", "SUNLOGIN", "TODESK", "UU"];
    let mut i: usize = 0;
    while i < 6
        invariant
            i <= 6,
            chars@ == std_uppercase(name@),
            sigs@.len() == 6,
            forall|q: int| 0 <= q < 6 ==> (#[trigger] sigs@[q])@ == signatures()[q],
            forall|q: int| 0 <= q < i ==> !contains_text(std_uppercase(name@), #[trigger] signatures()[q]),
        decreases 6 - i,
    {
        if text_contains(&chars, sigs[i]) {
            proof {
                assert(contains_text(std_uppercase(name@), signatures()[i as int]));
            }
            return true;
        }
        i += 1;
    }
    false
}

/// Remote right now: a remote desktop session, or remote-device input less than
/// `window_ms` ago (`last_remote_ms` and `now_ms` on one monotonic clock).
pub open spec fn remote_spec(rdp: bool, last_remote_ms: Option<u64>, now_ms: u64, window_ms: u64) -> bool {
    rdp || match last_remote_ms {
        Some(t) => (if now_ms >= t { now_ms - t } else { 0 }) < window_ms,
        None => false,
    }
}

/// Whether the session counts as remote right now.
pub fn is_remote_active(rdp: bool, last_remote_ms: Option<u64>, now_ms: u64, window_ms: u64) -> (r: bool)
    ensures
        r == remote_spec(rdp, last_remote_ms, now_ms, window_ms),
{
    if rdp {
        return true;
    }
    match last_remote_ms {
        Some(t) => now_ms.saturating_sub(t) < window_ms,
        None => false,
    }
}

/// Input devices already classified (by handle) and the time of the last remote input.
#[derive(Debug)]
pub struct RemoteDevices {
    pub known: HashMap<u64, bool>,
    pub last_remote_ms: Option<u64>,
}

impl RemoteDevices {
    pub fn new() -> (r: Self)
        ensures
            r.known@ == Map::<u64, bool>::empty(),
            r.last_remote_ms is None,
    {
        RemoteDevices { known: HashMap::new(), last_remote_ms: None }
    }

    /// Whether a device handle was classified, and as remote or not.
    pub fn classified(&self, h: u64) -> (r: Option<bool>)
        ensures
            r == (if self.known@.contains_key(h) { Some(self.known@[h]) } else { None::<bool> }),
    {
        match self.known.get(&h) {
            Some(v) => Some(*v),
            None => None,
        }
    }

    /// Input from device `h` at `now_ms`. A known device only refreshes the remote time
    /// when it is remote; a new one is classified once by its name (`None` when the name
    /// could not be read: not remote).
    pub fn observe(&mut self, h: u64, name: Option<&str>, now_ms: u64)
        ensures
            old(self).known@.contains_key(h) ==> final(self).known@ == old(self).known@,
            !old(self).known@.contains_key(h) ==> final(self).known@ == old(self).known@.insert(
                h,
                match name {
                    Some(n) => signature_spec(n@),
                    None => false,
                },
            ),
            final(self).known@[h] ==> final(self).last_remote_ms == Some(now_ms),
            !final(self).known@[h] ==> final(self).last_remote_ms == old(self).last_remote_ms,
    {
        match self.known.get(&h) {
            Some(v) => {
                if *v {
                    self.last_remote_ms = Some(now_ms);
                }
                return;
            },
            None => {},
        }
        let is_rem = match name {
            Some(n) => remote_device_signature(n),
            None => false,
        };
        if is_rem {
            self.last_remote_ms = Some(now_ms);
        }
        self.known.insert(h, is_rem);
    }
}

} // verus!
