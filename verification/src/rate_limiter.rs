//! Sliding-window rate limiting, tracked separately for each client key.
//!
//! Every client key owns a window: the arrival times (in nanoseconds on the
//! limiter's monotonic clock) of the requests it was granted and that have not
//! yet aged out. A timestamp ages out once at least `window` seconds have
//! passed since it; ageing is checked from the oldest end of the window.

use vstd::prelude::*;
use std::collections::VecDeque;
use dashmap::DashMap;
use crate::clock::{duration_nanos, elapsed_since, instant_now};
use crate::history_laws::{all_at_most, sorted};

verus! {

#[verifier::external_type_specification]
#[verifier::external_body]
#[verifier::reject_recursive_types(Key)]
#[verifier::reject_recursive_types(Value)]
#[verifier::reject_recursive_types(Build)]
pub struct ExDashMap<Key, Value, Build>(DashMap<Key, Value, Build>);

/// The windows that a table holds: for each client key, its timestamps in
/// the order in which they were recorded.
pub uninterp spec fn window_table(m: DashMap<String, VecDeque<u128>>) -> Map<Seq<char>, Seq<u128>>;

/// `DashMap::new`: a table that holds no entry.
#[verifier::external_body]
fn table_new() -> (m: DashMap<String, VecDeque<u128>>)
    ensures
        window_table(m).is_empty(),
{
    DashMap::new()
}

/// `DashMap::remove`: takes the entry of `key` out of the table and hands
/// back its value, or `None` where the table held no entry for `key`.
#[verifier::external_body]
fn table_remove(m: &mut DashMap<String, VecDeque<u128>>, key: &str) -> (r: Option<VecDeque<u128>>)
    ensures
        window_table(*final(m)) == window_table(*old(m)).remove(key@),
        match r {
            Some(v) => window_table(*old(m)).dom().contains(key@) && v@ == window_table(*old(m))[key@],
            None => !window_table(*old(m)).dom().contains(key@),
        },
{
    m.remove(key).map(|(_, v)| v)
}

/// `DashMap::insert`: stores `value` under `key`, replacing the previous
/// value of `key`, which it hands back (`None` where there was none).
#[verifier::external_body]
fn table_insert(m: &mut DashMap<String, VecDeque<u128>>, key: String, value: VecDeque<u128>) -> (r: Option<VecDeque<u128>>)
    ensures
        window_table(*final(m)) == window_table(*old(m)).insert(key@, value@),
        match r {
            Some(v) => window_table(*old(m)).dom().contains(key@) && v@ == window_table(*old(m))[key@],
            None => !window_table(*old(m)).dom().contains(key@),
        },
{
    m.insert(key, value)
}

/// Time from `t` to `now`, or zero where `t` lies after `now`.
pub open spec fn elapsed(t: u128, now: u128) -> int {
    if now >= t { now - t } else { 0 }
}

/// A timestamp has aged out at `now` once at least `window_nanos` have passed since it.
pub open spec fn expired(t: u128, now: u128, window_nanos: int) -> bool {
    elapsed(t, now) >= window_nanos
}

/// What remains of a window at `now`: its timestamps without the aged-out
/// ones at its oldest end.
pub open spec fn live_window(s: Seq<u128>, now: u128, window_nanos: int) -> Seq<u128>
    decreases s.len(),
{
    if s.len() > 0 && expired(s[0], now, window_nanos) {
        live_window(s.drop_first(), now, window_nanos)
    } else {
        s
    }
}

/// A request at `now` against window `s`: granted while fewer than `limit`
/// timestamps are live, in which case `now` is recorded. Gives the answer and
/// the window afterwards.
pub open spec fn grant(s: Seq<u128>, now: u128, window_nanos: int, limit: int) -> (bool, Seq<u128>) {
    let live = live_window(s, now, window_nanos);
    if live.len() < limit {
        (true, live.push(now))
    } else {
        (false, live)
    }
}

/// How many more requests window `s` admits at `now`, zero at the least.
pub open spec fn headroom(s: Seq<u128>, now: u128, window_nanos: int, limit: int) -> int {
    let live = live_window(s, now, window_nanos);
    if live.len() < limit { limit - live.len() } else { 0 }
}

/// The window of `key` in `table`; a key never seen has an empty one.
pub open spec fn window_of(table: Map<Seq<char>, Seq<u128>>, key: Seq<char>) -> Seq<u128> {
    if table.dom().contains(key) { table[key] } else { Seq::empty() }
}

/// Whether the oldest timestamp of `dq` has aged out at `now`.
fn front_expired(dq: &VecDeque<u128>, now: u128, window_nanos: u128) -> (r: bool)
    ensures
        r == (dq@.len() > 0 && expired(dq@[0], now, window_nanos as int)),
{
    if dq.len() == 0 {
        return false;
    }
    let t = dq[0];
    let gap: u128 = if now >= t { now - t } else { 0 };
    gap >= window_nanos
}

/// What remains of a window is a suffix of it whose oldest timestamp, if
/// any, is still live.
pub proof fn lemma_live_window_suffix(s: Seq<u128>, now: u128, window_nanos: int)
    ensures
        live_window(s, now, window_nanos).len() <= s.len(),
        live_window(s, now, window_nanos) == s.subrange(
            s.len() - live_window(s, now, window_nanos).len(),
            s.len() as int,
        ),
        live_window(s, now, window_nanos).len() > 0 ==> !expired(
            live_window(s, now, window_nanos)[0],
            now,
            window_nanos,
        ),
    decreases s.len(),
{
    if s.len() > 0 && expired(s[0], now, window_nanos) {
        lemma_live_window_suffix(s.drop_first(), now, window_nanos);
        assert(s.drop_first().subrange(
            s.drop_first().len() - live_window(s, now, window_nanos).len(),
            s.drop_first().len() as int,
        ) =~= s.subrange(s.len() - live_window(s, now, window_nanos).len(), s.len() as int));
    } else {
        assert(s.subrange(0, s.len() as int) =~= s);
    }
}

/// The window of a key in a table whose windows are all in order and no
/// later than `bound` is itself so.
proof fn lemma_window_ordered(table: Map<Seq<char>, Seq<u128>>, key: Seq<char>, bound: u128)
    requires
        forall|k: Seq<char>| #[trigger] table.dom().contains(k) ==> sorted(table[k]) && all_at_most(table[k], bound),
    ensures
        sorted(window_of(table, key)),
        all_at_most(window_of(table, key), bound),
{
    if table.dom().contains(key) {
        assert(sorted(table[key]) && all_at_most(table[key], bound));
    }
}

/// Ageing an ordered window keeps it ordered; after a grant at `now` (no
/// earlier than any timestamp) it is still ordered and no later than `now`.
pub(crate) proof fn lemma_aged_window_ordered(s: Seq<u128>, now: u128, window_nanos: int, bound: u128)
    requires
        sorted(s),
        all_at_most(s, bound),
        bound <= now,
    ensures
        sorted(live_window(s, now, window_nanos)),
        all_at_most(live_window(s, now, window_nanos), now),
        forall|limit: int| #![trigger grant(s, now, window_nanos, limit)]
            sorted(grant(s, now, window_nanos, limit).1) && all_at_most(grant(s, now, window_nanos, limit).1, now),
{
    lemma_live_window_suffix(s, now, window_nanos);
    let live = live_window(s, now, window_nanos);
    let off = s.len() - live.len();
    assert forall|i: int, j: int| 0 <= i <= j < live.len() implies live[i] <= live[j] by {
        assert(live[i] == s[off + i]);
        assert(live[j] == s[off + j]);
    }
    assert forall|i: int| 0 <= i < live.len() implies live[i] <= now by {
        assert(live[i] == s[off + i]);
    }
    assert forall|limit: int| #![trigger grant(s, now, window_nanos, limit)]
        sorted(grant(s, now, window_nanos, limit).1) && all_at_most(grant(s, now, window_nanos, limit).1, now) by {
        let p = live.push(now);
        assert forall|i: int, j: int| 0 <= i <= j < p.len() implies p[i] <= p[j] by {
            if j < live.len() {
                assert(p[i] == live[i] && p[j] == live[j]);
            } else if i < live.len() {
                assert(p[i] == live[i]);
            }
        }
    }
}

/// `secs` seconds in nanoseconds.
pub open spec fn nanos(secs: u64) -> int {
    secs * 1_000_000_000
}

/// A sliding-window rate limiter: at most `limit` requests per client key
/// within any `window` seconds.
pub struct RateLimiter {
    windows: DashMap<String, VecDeque<u128>>,
    origin: std::time::Instant,
    limit: usize,
    window: u64,
    latest: u128,
}

impl RateLimiter {
    /// The windows recorded so far, by client key.
    pub closed spec fn table(&self) -> Map<Seq<char>, Seq<u128>> {
        window_table(self.windows)
    }

    /// The number of requests a key may make within one window.
    pub closed spec fn spec_limit(&self) -> usize {
        self.limit
    }

    /// The length of the window, in seconds.
    pub closed spec fn spec_window(&self) -> u64 {
        self.window
    }

    /// The number of requests a key may make within one window.
    #[verifier::when_used_as_spec(spec_limit)]
    pub fn limit(&self) -> (n: usize)
        ensures
            n == self.spec_limit(),
    {
        self.limit
    }

    /// The length of the window, in seconds.
    #[verifier::when_used_as_spec(spec_window)]
    pub fn window(&self) -> (secs: u64)
        ensures
            secs == self.spec_window(),
    {
        self.window
    }

    /// The latest clock reading this limiter has used (zero before any).
    pub closed spec fn latest_reading(&self) -> u128 {
        self.latest
    }

    /// Every window is in time order and no later than the latest reading.
    pub closed spec fn ordered(&self) -> bool {
        forall|k: Seq<char>| #[trigger] self.table().dom().contains(k) ==> {
            &&& sorted(self.table()[k])
            &&& all_at_most(self.table()[k], self.latest)
        }
    }

    /// No window holds more timestamps than the limit.
    pub closed spec fn wf(&self) -> bool {
        forall|k: Seq<char>| #[trigger] self.table().dom().contains(k) ==> self.table()[k].len() <= self.limit
    }

    /// A limiter with no recorded requests.
    pub fn new(limit: usize, window_secs: u64) -> (r: Self)
        ensures
            r.limit() == limit,
            r.window() == window_secs,
            r.table().is_empty(),
            r.wf(),
            r.ordered(),
            r.latest_reading() == 0,
    {
        RateLimiter { windows: table_new(), origin: instant_now(), limit, window: window_secs, latest: 0 }
    }

    /// Takes the window of `key` out of the table and drops its aged-out
    /// timestamps.
    fn take_live_window(&mut self, key: &str, now: u128) -> (dq: VecDeque<u128>)
        ensures
            dq@ == live_window(window_of(old(self).table(), key@), now, nanos(old(self).window())),
            final(self).table() == old(self).table().remove(key@),
            final(self).limit() == old(self).limit(),
            final(self).window() == old(self).window(),
            final(self).latest_reading() == old(self).latest_reading(),
    {
        let w: u128 = self.window as u128 * 1_000_000_000u128;
        let mut dq = match table_remove(&mut self.windows, key) {
            Some(d) => d,
            None => VecDeque::new(),
        };
        let ghost original = dq@;
        while front_expired(&dq, now, w)
            invariant
                w == nanos(self.window),
                live_window(original, now, w as int) == live_window(dq@, now, w as int),
            decreases dq@.len(),
        {
            let ghost before = dq@;
            dq.pop_front();
            assert(dq@ =~= before.drop_first());
        }
        dq
    }

    /// Decides a request of `key` arriving at `now` (nanoseconds on this
    /// limiter's clock) and records it where it is granted.
    pub fn is_allowed_at(&mut self, key: &str, now: u128) -> (allowed: bool)
        ensures
            allowed == grant(window_of(old(self).table(), key@), now, nanos(old(self).window()), old(self).limit() as int).0,
            final(self).table() == old(self).table().insert(
                key@,
                grant(window_of(old(self).table(), key@), now, nanos(old(self).window()), old(self).limit() as int).1,
            ),
            final(self).limit() == old(self).limit(),
            final(self).window() == old(self).window(),
            old(self).wf() ==> final(self).wf(),
            final(self).latest_reading() == if now > old(self).latest_reading() { now } else { old(self).latest_reading() },
            old(self).ordered() && now >= old(self).latest_reading() ==> final(self).ordered(),
    {
        let mut dq = self.take_live_window(key, now);
        let allowed = if dq.len() >= self.limit {
            false
        } else {
            dq.push_back(now);
            true
        };
        proof {
            lemma_live_window_suffix(window_of(old(self).table(), key@), now, nanos(old(self).window()));
        }
        table_insert(&mut self.windows, key.to_owned(), dq);
        if now > self.latest {
            self.latest = now;
        }
        assert(self.table() =~= old(self).table().insert(
            key@,
            grant(window_of(old(self).table(), key@), now, nanos(old(self).window()), old(self).limit() as int).1,
        ));
        proof {
            if old(self).ordered() && now >= old(self).latest_reading() {
                let w = window_of(old(self).table(), key@);
                lemma_window_ordered(old(self).table(), key@, old(self).latest);
                lemma_aged_window_ordered(w, now, nanos(old(self).window()), old(self).latest);
                let g = grant(w, now, nanos(old(self).window()), old(self).limit() as int).1;
                assert(sorted(g) && all_at_most(g, now));
                assert forall|k: Seq<char>| #[trigger] self.table().dom().contains(k) implies {
                    &&& sorted(self.table()[k])
                    &&& all_at_most(self.table()[k], self.latest)
                } by {
                    if k != key@ {
                        assert(old(self).table().dom().contains(k));
                    }
                }
            }
        }
        allowed
    }

    /// How many more requests `key` may make at `now` (nanoseconds on this
    /// limiter's clock). Drops the aged-out timestamps of `key`.
    pub fn remaining_at(&mut self, key: &str, now: u128) -> (n: usize)
        ensures
            n == headroom(window_of(old(self).table(), key@), now, nanos(old(self).window()), old(self).limit() as int),
            final(self).table() == old(self).table().insert(
                key@,
                live_window(window_of(old(self).table(), key@), now, nanos(old(self).window())),
            ),
            final(self).limit() == old(self).limit(),
            final(self).window() == old(self).window(),
            old(self).wf() ==> final(self).wf(),
            final(self).latest_reading() == if now > old(self).latest_reading() { now } else { old(self).latest_reading() },
            old(self).ordered() && now >= old(self).latest_reading() ==> final(self).ordered(),
    {
        let dq = self.take_live_window(key, now);
        let n = self.limit.saturating_sub(dq.len());
        proof {
            lemma_live_window_suffix(window_of(old(self).table(), key@), now, nanos(old(self).window()));
        }
        table_insert(&mut self.windows, key.to_owned(), dq);
        if now > self.latest {
            self.latest = now;
        }
        assert(self.table() =~= old(self).table().insert(
            key@,
            live_window(window_of(old(self).table(), key@), now, nanos(old(self).window())),
        ));
        proof {
            if old(self).ordered() && now >= old(self).latest_reading() {
                let w = window_of(old(self).table(), key@);
                lemma_window_ordered(old(self).table(), key@, old(self).latest);
                lemma_aged_window_ordered(w, now, nanos(old(self).window()), old(self).latest);
                assert forall|k: Seq<char>| #[trigger] self.table().dom().contains(k) implies {
                    &&& sorted(self.table()[k])
                    &&& all_at_most(self.table()[k], self.latest)
                } by {
                    if k != key@ {
                        assert(old(self).table().dom().contains(k));
                    }
                }
            }
        }
        n
    }

    /// Reads this limiter's clock: nanoseconds since the limiter was made.
    pub(crate) fn clock(&self) -> (now: u128) {
        let elapsed = elapsed_since(&self.origin);
        duration_nanos(&elapsed)
    }

    /// The reading a request is counted at: the clock's reading, or the latest
    /// reading used so far where the clock reads earlier, so that the readings
    /// a limiter uses never decrease.
    pub(crate) fn next_reading(&self) -> (now: u128)
        ensures
            now >= self.latest_reading(),
    {
        let t = self.clock();
        if t > self.latest {
            t
        } else {
            self.latest
        }
    }

    /// Decides a request of `key` arriving now and records it where it is
    /// granted.
    pub fn is_allowed(&mut self, key: &str) -> (allowed: bool)
        ensures
            exists|now: u128| {
                &&& now >= old(self).latest_reading()
                &&& final(self).latest_reading() == now
                &&& allowed == #[trigger] grant(window_of(old(self).table(), key@), now, nanos(old(self).window()), old(self).limit() as int).0
                &&& final(self).table() == old(self).table().insert(
                    key@,
                    grant(window_of(old(self).table(), key@), now, nanos(old(self).window()), old(self).limit() as int).1,
                )
            },
            final(self).limit() == old(self).limit(),
            final(self).window() == old(self).window(),
            old(self).wf() ==> final(self).wf(),
            old(self).ordered() ==> final(self).ordered(),
    {
        let now = self.next_reading();
        self.is_allowed_at(key, now)
    }

    /// How many more requests `key` may make now. Drops the aged-out
    /// timestamps of `key`.
    pub fn remaining(&mut self, key: &str) -> (n: usize)
        ensures
            exists|now: u128| {
                &&& now >= old(self).latest_reading()
                &&& final(self).latest_reading() == now
                &&& n == #[trigger] headroom(window_of(old(self).table(), key@), now, nanos(old(self).window()), old(self).limit() as int)
                &&& final(self).table() == old(self).table().insert(
                    key@,
                    live_window(window_of(old(self).table(), key@), now, nanos(old(self).window())),
                )
            },
            final(self).limit() == old(self).limit(),
            final(self).window() == old(self).window(),
            old(self).wf() ==> final(self).wf(),
            old(self).ordered() ==> final(self).ordered(),
    {
        let now = self.next_reading();
        self.remaining_at(key, now)
    }
}

} // verus!
