//! Per-miner submission rate limiting over a fixed window.
//!
//! Each miner identity has at most one entry: the start of its current
//! window and how many submissions it has made in it. A request inside the
//! window adds to the count and is refused once the count exceeds the
//! limit; a request after the window expires starts a fresh window. The
//! first request of a window is always admitted.

use vstd::prelude::*;

verus! {

/// One miner's standing: when its current window started and how many
/// submissions it holds.
#[derive(Debug)]
pub struct RateEntry {
    pub key: String,
    pub window_start: i64,
    pub count: u64,
}

/// The first entry for a key, or -1 if the key has none.
pub open spec fn find_entry(s: Seq<RateEntry>, key: Seq<char>) -> int
    decreases s.len(),
{
    if s.len() == 0 {
        -1
    } else if s[0].key@ == key {
        0
    } else {
        let r = find_entry(s.drop_first(), key);
        if r < 0 {
            -1
        } else {
            r + 1
        }
    }
}

/// What `find_entry` finds: the first entry with the key, or nothing.
pub proof fn lemma_find_entry(s: Seq<RateEntry>, key: Seq<char>)
    ensures
        find_entry(s, key) < 0 ==> forall|i: int|
            0 <= i < s.len() ==> (#[trigger] s[i]).key@ != key,
        find_entry(s, key) >= 0 ==> 0 <= find_entry(s, key) < s.len() && s[find_entry(
            s,
            key,
        )].key@ == key && forall|i: int| 0 <= i < find_entry(s, key) ==> (#[trigger] s[i]).key@
            != key,
    decreases s.len(),
{
    if s.len() == 0 {
    } else if s[0].key@ == key {
    } else {
        lemma_find_entry(s.drop_first(), key);
        let r = find_entry(s.drop_first(), key);
        if r < 0 {
            assert forall|i: int| 0 <= i < s.len() implies (#[trigger] s[i]).key@ != key by {
                if i > 0 {
                    assert(s.drop_first()[i - 1] == s[i]);
                }
            }
        } else {
            assert(s[r + 1] == s.drop_first()[r]);
            assert forall|i: int|
                0 <= i < find_entry(s, key) implies (#[trigger] s[i]).key@ != key by {
                if i > 0 {
                    assert(s.drop_first()[i - 1] == s[i]);
                }
            }
        }
    }
}

/// Bounds submission volume per miner identity over a fixed window.
pub struct RateLimiter {
    window_secs: i64,
    max_per_window: u64,
    entries: Vec<RateEntry>,
}

impl RateLimiter {
    /// The tracked entries, in insertion order.
    pub closed spec fn entries_view(&self) -> Seq<RateEntry> {
        self.entries@
    }

    /// The window length in seconds.
    pub closed spec fn spec_window_secs(&self) -> i64 {
        self.window_secs
    }

    /// The submission cap per window.
    pub closed spec fn spec_max_per_window(&self) -> u64 {
        self.max_per_window
    }

    /// Each key has at most one entry.
    pub open spec fn well_formed(&self) -> bool {
        forall|i: int, j: int|
            0 <= i < j < self.entries_view().len() ==> (#[trigger] self.entries_view()[i]).key@
                != (#[trigger] self.entries_view()[j]).key@
    }

    /// A fresh limiter admitting `max_per_window` submissions per key every
    /// `window_secs` seconds.
    pub fn new(window_secs: i64, max_per_window: u64) -> (r: RateLimiter)
        ensures
            r.well_formed(),
            r.entries_view() == Seq::<RateEntry>::empty(),
            r.spec_window_secs() == window_secs,
            r.spec_max_per_window() == max_per_window,
    {
        let r = RateLimiter { window_secs, max_per_window, entries: Vec::new() };
        proof {
            assert(r.entries_view() =~= Seq::<RateEntry>::empty());
        }
        r
    }

    /// Admits or refuses `n` submissions from `key` at time `now`.
    ///
    /// An unseen key starts a window at `now` with count `n` and is
    /// admitted. A key inside its window has `n` added to its count and is
    /// refused exactly when the new count exceeds the cap. A key whose
    /// window has expired starts a fresh window at `now` with count `n` and
    /// is admitted.
    pub fn check(&mut self, key: &String, now: i64, n: u64) -> (r: bool)
        requires
            old(self).well_formed(),
        ensures
            final(self).well_formed(),
            final(self).spec_window_secs() == old(self).spec_window_secs(),
            final(self).spec_max_per_window() == old(self).spec_max_per_window(),
            ({
                let s = old(self).entries_view();
                let idx = find_entry(s, key@);
                if idx < 0 {
                    &&& final(self).entries_view().len() == s.len() + 1
                    &&& final(self).entries_view().drop_last() == s
                    &&& final(self).entries_view().last().key@ == key@
                    &&& final(self).entries_view().last().window_start == now
                    &&& final(self).entries_view().last().count == n
                    &&& r == true
                } else {
                    let e = s[idx];
                    if now - e.window_start < old(self).spec_window_secs() {
                        let c2 = if e.count + n <= u64::MAX {
                            (e.count + n) as u64
                        } else {
                            u64::MAX
                        };
                        &&& final(self).entries_view() == s.update(
                            idx,
                            RateEntry { key: e.key, window_start: e.window_start, count: c2 },
                        )
                        &&& r == (c2 <= old(self).spec_max_per_window())
                    } else {
                        &&& final(self).entries_view() == s.update(
                            idx,
                            RateEntry { key: e.key, window_start: now, count: n },
                        )
                        &&& r == true
                    }
                }
            }),
    {
        let ghost s = self.entries@;
        proof {
            lemma_find_entry(s, key@);
        }
        let mut i: usize = 0;
        let mut found: Option<usize> = None;
        while i < self.entries.len()
            invariant_except_break
                found is None,
            invariant
                0 <= i <= s.len(),
                s == self.entries@,
                forall|j: int| 0 <= j < i ==> (#[trigger] s[j]).key@ != key@,
            ensures
                s == self.entries@,
                match found {
                    Some(p) => 0 <= p < s.len() && s[p as int].key@ == key@ && forall|j: int|
                        0 <= j < p ==> (#[trigger] s[j]).key@ != key@,
                    None => forall|j: int| 0 <= j < s.len() ==> (#[trigger] s[j]).key@ != key@,
                },
            decreases s.len() - i,
        {
            if self.entries[i].key == *key {
                found = Some(i);
                break ;
            }
            i = i + 1;
        }
        proof {
            lemma_find_entry_agrees(s, key@, found);
        }
        match found {
            None => {
                let mut dup = String::new();
                dup.append(key.as_str());
                self.entries.push(RateEntry { key: dup, window_start: now, count: n });
                proof {
                    assert(self.entries@.drop_last() =~= s);
                    assert(self.entries@.last().key@ == key@);
                    assert forall|a: int, b: int|
                        0 <= a < b < self.entries@.len() implies (
                    #[trigger] self.entries@[a]).key@ != (#[trigger] self.entries@[b]).key@ by {
                        if b == self.entries@.len() - 1 {
                            assert(self.entries@[a] == s[a]);
                        }
                    }
                }
                true
            },
            Some(idx) => {
                let entry = self.entries.remove(idx);
                let fresh: bool = (now as i128) - (entry.window_start as i128)
                    >= self.window_secs as i128;
                let new_entry = if fresh {
                    RateEntry { key: entry.key, window_start: now, count: n }
                } else {
                    let c2 = match entry.count.checked_add(n) {
                        Some(c) => c,
                        None => u64::MAX,
                    };
                    RateEntry { key: entry.key, window_start: entry.window_start, count: c2 }
                };
                let admitted = if fresh {
                    true
                } else {
                    new_entry.count <= self.max_per_window
                };
                self.entries.insert(idx, new_entry);
                proof {
                    assert(self.entries@ =~= s.update(idx as int, new_entry));
                    assert forall|a: int, b: int|
                        0 <= a < b < self.entries@.len() implies (
                    #[trigger] self.entries@[a]).key@ != (#[trigger] self.entries@[b]).key@ by {
                        assert(s[a].key@ != s[b].key@);
                        if a == idx {
                            assert(self.entries@[a].key@ == s[a].key@);
                        }
                        if b == idx {
                            assert(self.entries@[b].key@ == s[b].key@);
                        }
                    }
                }
                admitted
            },
        }
    }
}

/// The executable search finds the same entry as `find_entry`.
proof fn lemma_find_entry_agrees(s: Seq<RateEntry>, key: Seq<char>, found: Option<usize>)
    requires
        match found {
            Some(p) => 0 <= p < s.len() && s[p as int].key@ == key && forall|j: int|
                0 <= j < p ==> (#[trigger] s[j]).key@ != key,
            None => forall|j: int| 0 <= j < s.len() ==> (#[trigger] s[j]).key@ != key,
        },
    ensures
        match found {
            Some(p) => find_entry(s, key) == p as int,
            None => find_entry(s, key) < 0,
        },
    decreases s.len(),
{
    lemma_find_entry(s, key);
    match found {
        Some(p) => {
            let f = find_entry(s, key);
            if f < p as int {
                assert(s[f].key@ != key);
            }
            if f > p as int {
                assert(s[p as int].key@ != key);
            }
        },
        None => {
            if find_entry(s, key) >= 0 {
                assert(s[find_entry(s, key)].key@ == key);
            }
        },
    }
}

} // verus!
