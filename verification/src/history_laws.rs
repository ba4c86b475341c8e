//! The rate limiter over a whole history of requests of one key, read with
//! a clock that never runs backwards: the window it keeps is exactly the
//! granted requests of the last window length, each request is granted
//! exactly when fewer than `limit` such requests came before it, and no
//! interval one window long holds more than `limit` granted requests.

use vstd::prelude::*;
use crate::rate_limiter::{expired, grant, headroom, lemma_aged_window_ordered, live_window, nanos, window_of, RateLimiter};
use crate::window_laws::replay;

verus! {

/// Timestamps in non-decreasing order.
pub open spec fn sorted(q: Seq<u128>) -> bool {
    forall|i: int, j: int| 0 <= i <= j < q.len() ==> q[i] <= q[j]
}

/// Every timestamp of `q` is at most `bound`.
pub open spec fn all_at_most(q: Seq<u128>, bound: u128) -> bool {
    forall|i: int| 0 <= i < q.len() ==> q[i] <= bound
}

/// The timestamps of `h` that have not aged out at `now`, in order.
pub open spec fn recent(h: Seq<u128>, now: u128, window_nanos: int) -> Seq<u128>
    decreases h.len(),
{
    if h.len() == 0 {
        h
    } else if expired(h.last(), now, window_nanos) {
        recent(h.drop_last(), now, window_nanos)
    } else {
        recent(h.drop_last(), now, window_nanos).push(h.last())
    }
}

/// The readings among `times` whose requests were granted, replaying them in
/// order against window `s`.
pub open spec fn granted(s: Seq<u128>, times: Seq<u128>, window_nanos: int, limit: int) -> Seq<u128>
    decreases times.len(),
{
    if times.len() == 0 {
        Seq::empty()
    } else {
        let before = granted(s, times.drop_last(), window_nanos, limit);
        if grant(replay(s, times.drop_last(), window_nanos, limit).1, times.last(), window_nanos, limit).0 {
            before.push(times.last())
        } else {
            before
        }
    }
}

/// How many timestamps of `h` lie in `[from, to)`.
pub open spec fn count_in(h: Seq<u128>, from: int, to: int) -> nat
    decreases h.len(),
{
    if h.len() == 0 {
        0
    } else if from <= h.last() < to {
        count_in(h.drop_last(), from, to) + 1
    } else {
        count_in(h.drop_last(), from, to)
    }
}

/// A starting window `s` and readings `times` as a monotone clock gives
/// them: both in order, and the window no later than the first reading.
pub open spec fn monotone_history(s: Seq<u128>, times: Seq<u128>) -> bool {
    &&& sorted(s)
    &&& sorted(times)
    &&& times.len() > 0 ==> all_at_most(s, times[0])
}

proof fn lemma_live_window_push(q: Seq<u128>, now: u128, w: int)
    requires
        q.len() > 0,
        !expired(q.last(), now, w),
    ensures
        live_window(q, now, w) == live_window(q.drop_last(), now, w).push(q.last()),
    decreases q.len(),
{
    if q.len() == 1 {
        assert(q.drop_last() =~= Seq::<u128>::empty());
        assert(q =~= seq![q.last()]);
    } else if expired(q[0], now, w) {
        assert(q.drop_first().drop_last() =~= q.drop_last().drop_first());
        lemma_live_window_push(q.drop_first(), now, w);
    } else {
        assert(q.drop_last().push(q.last()) =~= q);
    }
}

proof fn lemma_all_expired(q: Seq<u128>, now: u128, w: int)
    requires
        forall|i: int| 0 <= i < q.len() ==> expired(#[trigger] q[i], now, w),
    ensures
        live_window(q, now, w) == Seq::<u128>::empty(),
        recent(q, now, w) == Seq::<u128>::empty(),
    decreases q.len(),
{
    if q.len() > 0 {
        assert forall|i: int| 0 <= i < q.drop_first().len() implies expired(#[trigger] q.drop_first()[i], now, w) by {
            assert(q.drop_first()[i] == q[i + 1]);
        }
        assert forall|i: int| 0 <= i < q.drop_last().len() implies expired(#[trigger] q.drop_last()[i], now, w) by {
            assert(q.drop_last()[i] == q[i]);
        }
        lemma_all_expired(q.drop_first(), now, w);
        lemma_all_expired(q.drop_last(), now, w);
        assert(expired(q[q.len() - 1], now, w));
    }
}

/// Of an ordered window no later than `now`, ageing drops exactly the
/// aged-out timestamps.
proof fn lemma_live_is_recent(q: Seq<u128>, now: u128, w: int)
    requires
        sorted(q),
        all_at_most(q, now),
    ensures
        live_window(q, now, w) == recent(q, now, w),
    decreases q.len(),
{
    if q.len() > 0 {
        let p = q.drop_last();
        assert(sorted(p));
        assert(all_at_most(p, now));
        if expired(q.last(), now, w) {
            assert forall|i: int| 0 <= i < q.len() implies expired(#[trigger] q[i], now, w) by {
                assert(q[i] <= q[q.len() - 1]);
            }
            lemma_all_expired(q, now, w);
        } else {
            lemma_live_window_push(q, now, w);
            lemma_live_is_recent(p, now, w);
        }
    }
}

proof fn lemma_recent_facts(h: Seq<u128>, now: u128, w: int)
    ensures
        forall|i: int| 0 <= i < recent(h, now, w).len() ==> h.contains(#[trigger] recent(h, now, w)[i]),
        forall|i: int| 0 <= i < recent(h, now, w).len() ==> !expired(#[trigger] recent(h, now, w)[i], now, w),
        recent(h, now, w).len() <= h.len(),
        sorted(h) ==> sorted(recent(h, now, w)),
    decreases h.len(),
{
    if h.len() > 0 {
        let p = h.drop_last();
        lemma_recent_facts(p, now, w);
        let r = recent(p, now, w);
        assert forall|i: int| 0 <= i < r.len() implies h.contains(#[trigger] r[i]) by {
            assert(p.contains(r[i]));
            let j = choose|j: int| 0 <= j < p.len() && p[j] == r[i];
            assert(h[j] == r[i]);
        }
        if !expired(h.last(), now, w) {
            assert(h[h.len() - 1] == h.last());
            if sorted(h) {
                assert(sorted(p));
                assert forall|i: int, j: int| 0 <= i <= j < r.push(h.last()).len() implies r.push(h.last())[i] <= r.push(h.last())[j] by {
                    if j == r.len() && i < r.len() {
                        assert(p.contains(r[i]));
                        let k = choose|k: int| 0 <= k < p.len() && p[k] == r[i];
                        assert(p[k] == h[k]);
                        assert(0 <= k < h.len());
                        assert(h[k] <= h[h.len() - 1]);
                    }
                }
            }
        }
    }
}

/// Ageing at an earlier moment, then at a later one, is ageing at the later one.
proof fn lemma_recent_twice(h: Seq<u128>, a: u128, b: u128, w: int)
    requires
        all_at_most(h, a),
        a <= b,
    ensures
        recent(recent(h, a, w), b, w) == recent(h, b, w),
    decreases h.len(),
{
    if h.len() > 0 {
        let p = h.drop_last();
        assert(all_at_most(p, a));
        lemma_recent_twice(p, a, b, w);
        assert(h[h.len() - 1] == h.last());
        if !expired(h.last(), a, w) {
            assert(recent(h, a, w).drop_last() =~= recent(p, a, w));
        }
    }
}

/// Ageing a concatenation ages each part.
proof fn lemma_recent_concat(a: Seq<u128>, b: Seq<u128>, now: u128, w: int)
    ensures
        recent(a + b, now, w) == recent(a, now, w) + recent(b, now, w),
    decreases b.len(),
{
    if b.len() == 0 {
        assert(a + b =~= a);
        assert(recent(a, now, w) + recent(b, now, w) =~= recent(a, now, w));
    } else {
        lemma_recent_concat(a, b.drop_last(), now, w);
        assert((a + b).drop_last() =~= a + b.drop_last());
        assert((a + b).last() == b.last());
        if !expired(b.last(), now, w) {
            assert(recent(a, now, w) + recent(b.drop_last(), now, w).push(b.last())
                =~= (recent(a, now, w) + recent(b.drop_last(), now, w)).push(b.last()));
        }
    }
}

/// The granted readings are in order, and lie between the first and the last
/// reading.
proof fn lemma_granted_facts(s: Seq<u128>, times: Seq<u128>, w: int, limit: int)
    requires
        sorted(times),
    ensures
        sorted(granted(s, times, w, limit)),
        times.len() > 0 ==> all_at_most(granted(s, times, w, limit), times.last()),
        forall|i: int| 0 <= i < granted(s, times, w, limit).len() ==> times[0] <= #[trigger] granted(s, times, w, limit)[i],
        granted(s, times, w, limit).len() <= times.len(),
    decreases times.len(),
{
    if times.len() > 0 {
        let p = times.drop_last();
        assert(sorted(p));
        lemma_granted_facts(s, p, w, limit);
        let g = granted(s, p, w, limit);
        assert(times[times.len() - 1] == times.last());
        if p.len() > 0 {
            assert(p.last() == times[p.len() - 1]);
            assert(p[0] == times[0]);
        }
    }
}

/// The window kept after a history is the aged view of everything granted so
/// far (the starting window included), which is in order and no later than
/// the last reading.
proof fn lemma_history(s: Seq<u128>, times: Seq<u128>, w: int, limit: int)
    requires
        w > 0,
        monotone_history(s, times),
    ensures
        sorted(s + granted(s, times, w, limit)),
        times.len() == 0 ==> replay(s, times, w, limit).1 == s,
        times.len() > 0 ==> all_at_most(s + granted(s, times, w, limit), times.last()),
        times.len() > 0 ==> replay(s, times, w, limit).1 == recent(s + granted(s, times, w, limit), times.last(), w),
    decreases times.len(), 1int,
{
    lemma_granted_facts(s, times, w, limit);
    let h = s + granted(s, times, w, limit);
    if times.len() == 0 {
        assert(h =~= s);
    } else {
        let p = times.drop_last();
        let t = times.last();
        assert(times[times.len() - 1] == t);
        assert(monotone_history(s, p)) by {
            if p.len() > 0 {
                assert(p[0] == times[0]);
            }
        }
        lemma_history(s, p, w, limit);
        lemma_step(s, times, w, limit);
        let hp = s + granted(s, p, w, limit);
        let live = recent(hp, t, w);
        assert(all_at_most(hp, t)) by {
            if p.len() > 0 {
                assert(p.last() == times[p.len() - 1]);
            } else {
                assert(hp =~= s);
            }
        }
        if grant(replay(s, p, w, limit).1, t, w, limit).0 {
            assert(h =~= hp.push(t));
            assert(hp.push(t).drop_last() =~= hp);
            assert(!expired(t, t, w));
        } else {
            assert(h =~= hp);
        }
    }
}

/// Ageing the window kept before the last reading, at that reading, gives the
/// aged view of everything granted before it.
proof fn lemma_step(s: Seq<u128>, times: Seq<u128>, w: int, limit: int)
    requires
        w > 0,
        monotone_history(s, times),
        times.len() > 0,
    ensures
        live_window(replay(s, times.drop_last(), w, limit).1, times.last(), w)
            == recent(s + granted(s, times.drop_last(), w, limit), times.last(), w),
    decreases times.len(), 0int,
{
    let p = times.drop_last();
    let t = times.last();
    assert(times[times.len() - 1] == t);
    assert(monotone_history(s, p)) by {
        if p.len() > 0 {
            assert(p[0] == times[0]);
        }
    }
    lemma_history(s, p, w, limit);
    let hp = s + granted(s, p, w, limit);
    if p.len() == 0 {
        assert(hp =~= s);
        lemma_live_is_recent(s, t, w);
    } else {
        let last = p.last();
        assert(last == times[p.len() - 1]);
        let win = recent(hp, last, w);
        lemma_recent_facts(hp, last, w);
        assert(all_at_most(win, t)) by {
            assert forall|i: int| 0 <= i < win.len() implies win[i] <= t by {
                assert(hp.contains(win[i]));
                let j = choose|j: int| 0 <= j < hp.len() && hp[j] == win[i];
                assert(hp[j] <= last);
            }
        }
        lemma_live_is_recent(win, t, w);
        lemma_recent_twice(hp, last, t, w);
    }
}

proof fn lemma_nothing_live(q: Seq<u128>, now: u128, w: int)
    requires
        w <= 0,
    ensures
        live_window(q, now, w) == Seq::<u128>::empty(),
        recent(q, now, w) == Seq::<u128>::empty(),
{
    assert forall|i: int| 0 <= i < q.len() implies expired(#[trigger] q[i], now, w) by {}
    lemma_all_expired(q, now, w);
}

proof fn lemma_count_le_recent(h: Seq<u128>, t: u128, from: int, w: int)
    requires
        all_at_most(h, t),
        t < from + w,
    ensures
        count_in(h, from, from + w) <= recent(h, t, w).len(),
    decreases h.len(),
{
    if h.len() > 0 {
        let p = h.drop_last();
        assert(all_at_most(p, t));
        lemma_count_le_recent(p, t, from, w);
        assert(h[h.len() - 1] == h.last());
    }
}

proof fn lemma_count_empty_interval(h: Seq<u128>, from: int, w: int)
    requires
        w <= 0,
    ensures
        count_in(h, from, from + w) == 0,
    decreases h.len(),
{
    if h.len() > 0 {
        lemma_count_empty_interval(h.drop_last(), from, w);
    }
}

/// With readings from a clock that never runs backwards and a window of
/// nonzero length, the window kept for a key is exactly its granted requests
/// (its starting window included) that have not aged out at the last reading.
pub proof fn law_window_is_recent_grants(s: Seq<u128>, times: Seq<u128>, window_nanos: int, limit: int)
    requires
        window_nanos > 0,
        monotone_history(s, times),
        times.len() > 0,
    ensures
        replay(s, times, window_nanos, limit).1
            == recent(s + granted(s, times, window_nanos, limit), times.last(), window_nanos),
{
    lemma_history(s, times, window_nanos, limit);
}

/// With readings from a clock that never runs backwards, a request is granted
/// exactly when fewer than `limit` of the key's earlier granted requests (its
/// starting window included) have not aged out at the request's reading; it
/// joins the granted ones exactly then.
pub proof fn law_grant_counts_recent_grants(s: Seq<u128>, times: Seq<u128>, window_nanos: int, limit: int)
    requires
        monotone_history(s, times),
        times.len() > 0,
    ensures
        replay(s, times, window_nanos, limit).0.last() == (recent(
            s + granted(s, times.drop_last(), window_nanos, limit),
            times.last(),
            window_nanos,
        ).len() < limit),
        granted(s, times, window_nanos, limit) == if replay(s, times, window_nanos, limit).0.last() {
            granted(s, times.drop_last(), window_nanos, limit).push(times.last())
        } else {
            granted(s, times.drop_last(), window_nanos, limit)
        },
{
    let p = times.drop_last();
    if window_nanos > 0 {
        lemma_step(s, times, window_nanos, limit);
    } else {
        lemma_nothing_live(replay(s, p, window_nanos, limit).1, times.last(), window_nanos);
        lemma_nothing_live(s + granted(s, p, window_nanos, limit), times.last(), window_nanos);
    }
}

/// With readings from a clock that never runs backwards, the headroom of a
/// key at `now` (no earlier than every reading) is the limit less its granted
/// requests that have not aged out at `now`, and zero at the least.
pub proof fn law_remaining_counts_recent_grants(s: Seq<u128>, times: Seq<u128>, now: u128, window_nanos: int, limit: int)
    requires
        monotone_history(s, times),
        all_at_most(s, now),
        times.len() > 0 ==> times.last() <= now,
    ensures
        headroom(replay(s, times, window_nanos, limit).1, now, window_nanos, limit) == ({
            let c = recent(s + granted(s, times, window_nanos, limit), now, window_nanos).len();
            if c < limit { limit - c } else { 0 }
        }),
{
    let h = s + granted(s, times, window_nanos, limit);
    let win = replay(s, times, window_nanos, limit).1;
    if window_nanos <= 0 {
        lemma_nothing_live(win, now, window_nanos);
        lemma_nothing_live(h, now, window_nanos);
    } else {
        lemma_history(s, times, window_nanos, limit);
        if times.len() == 0 {
            lemma_granted_facts(s, times, window_nanos, limit);
            assert(h =~= s);
            lemma_live_is_recent(s, now, window_nanos);
        } else {
            let last = times.last();
            lemma_recent_facts(h, last, window_nanos);
            assert(all_at_most(win, now)) by {
                assert forall|i: int| 0 <= i < win.len() implies win[i] <= now by {
                    assert(h.contains(win[i]));
                    let j = choose|j: int| 0 <= j < h.len() && h[j] == win[i];
                    assert(h[j] <= last);
                }
            }
            lemma_live_is_recent(win, now, window_nanos);
            lemma_recent_twice(h, last, now, window_nanos);
        }
    }
}

/// With readings from a clock that never runs backwards, no interval one
/// window long, `[start, start + window)`, holds more than `limit` granted
/// requests of a key, whatever the key's starting window.
pub proof fn law_at_most_limit_per_window(s: Seq<u128>, times: Seq<u128>, window_nanos: int, limit: int, start: int)
    requires
        monotone_history(s, times),
        limit >= 0,
    ensures
        count_in(granted(s, times, window_nanos, limit), start, start + window_nanos) <= limit,
    decreases times.len(),
{
    let g = granted(s, times, window_nanos, limit);
    if window_nanos <= 0 {
        lemma_count_empty_interval(g, start, window_nanos);
    } else if times.len() > 0 {
        let p = times.drop_last();
        let t = times.last();
        assert(times[times.len() - 1] == t);
        assert(monotone_history(s, p)) by {
            if p.len() > 0 {
                assert(p[0] == times[0]);
            }
        }
        law_at_most_limit_per_window(s, p, window_nanos, limit, start);
        let gp = granted(s, p, window_nanos, limit);
        if grant(replay(s, p, window_nanos, limit).1, t, window_nanos, limit).0 {
            assert(g.drop_last() =~= gp);
            assert(g.last() == t);
            if start <= t < start + window_nanos {
                lemma_step(s, times, window_nanos, limit);
                lemma_recent_concat(s, gp, t, window_nanos);
                lemma_granted_facts(s, p, window_nanos, limit);
                assert(all_at_most(gp, t)) by {
                    if p.len() > 0 {
                        assert(p.last() == times[p.len() - 1]);
                    }
                }
                lemma_count_le_recent(gp, t, start, window_nanos);
            }
        }
    }
}

/// A request of `key` at `now` against a limiter whose window for `key` came
/// from a history `times` (read from a clock that never runs backwards, and
/// no later than `now`): granted exactly when fewer than `limit` of the key's
/// granted requests have not aged out at `now`; and the headroom afterwards
/// at any later reading counts the granted requests the same way.
pub proof fn law_limiter_counts_recent_grants(
    rl: RateLimiter,
    key: Seq<char>,
    s: Seq<u128>,
    times: Seq<u128>,
    now: u128,
    later: u128,
)
    requires
        window_of(rl.table(), key) == replay(s, times, nanos(rl.window()), rl.limit() as int).1,
        monotone_history(s, times.push(now)),
        now <= later,
    ensures
        grant(window_of(rl.table(), key), now, nanos(rl.window()), rl.limit() as int).0 == (recent(
            s + granted(s, times, nanos(rl.window()), rl.limit() as int),
            now,
            nanos(rl.window()),
        ).len() < rl.limit()),
        headroom(grant(window_of(rl.table(), key), now, nanos(rl.window()), rl.limit() as int).1, later, nanos(rl.window()), rl.limit() as int) == ({
            let c = recent(s + granted(s, times.push(now), nanos(rl.window()), rl.limit() as int), later, nanos(rl.window())).len();
            if c < rl.limit() { rl.limit() - c } else { 0 }
        }),
{
    let all = times.push(now);
    let w = nanos(rl.window());
    let limit = rl.limit() as int;
    assert(all.drop_last() =~= times);
    assert(all.last() == now);
    law_grant_counts_recent_grants(s, all, w, limit);
    assert(all_at_most(s, later)) by {
        assert(all[0] <= all[all.len() - 1]);
    }
    law_remaining_counts_recent_grants(s, all, later, w, limit);
}

/// The window kept after an ordered history is in order and no later than
/// the last reading.
proof fn lemma_replay_ordered(s: Seq<u128>, times: Seq<u128>, w: int, limit: int)
    requires
        monotone_history(s, times),
    ensures
        sorted(replay(s, times, w, limit).1),
        times.len() == 0 ==> replay(s, times, w, limit).1 == s,
        times.len() > 0 ==> all_at_most(replay(s, times, w, limit).1, times.last()),
    decreases times.len(),
{
    if times.len() > 0 {
        let p = times.drop_last();
        let t = times.last();
        assert(times[times.len() - 1] == t);
        assert(monotone_history(s, p)) by {
            if p.len() > 0 {
                assert(p[0] == times[0]);
            }
        }
        lemma_replay_ordered(s, p, w, limit);
        let x = replay(s, p, w, limit).1;
        if p.len() > 0 {
            assert(p.last() == times[p.len() - 1]);
            lemma_aged_window_ordered(x, t, w, p.last());
        } else {
            lemma_aged_window_ordered(x, t, w, times[0]);
        }
        assert(sorted(grant(x, t, w, limit).1) && all_at_most(grant(x, t, w, limit).1, t));
    }
}

/// Ageing an ordered window at `a`, then at a later `b`, is ageing it at `b`.
proof fn lemma_age_twice(x: Seq<u128>, a: u128, b: u128, w: int)
    requires
        sorted(x),
        all_at_most(x, a),
        a <= b,
    ensures
        live_window(live_window(x, a, w), b, w) == live_window(x, b, w),
{
    lemma_live_is_recent(x, a, w);
    let r = recent(x, a, w);
    lemma_recent_facts(x, a, w);
    assert(all_at_most(r, b)) by {
        assert forall|i: int| 0 <= i < r.len() implies r[i] <= b by {
            assert(x.contains(r[i]));
            let j = choose|j: int| 0 <= j < x.len() && x[j] == r[i];
            assert(x[j] <= a);
        }
    }
    lemma_live_is_recent(r, b, w);
    lemma_recent_twice(x, a, b, w);
    assert(all_at_most(x, b));
    lemma_live_is_recent(x, b, w);
}

/// How a key's window relates to its history `times` (from starting window
/// `s`): it is the window the history left, possibly aged since at a reading
/// `aged_at` no earlier than the history's last reading and no later than `now`.
pub open spec fn window_from_history(
    win: Seq<u128>,
    s: Seq<u128>,
    times: Seq<u128>,
    aged_at: u128,
    now: u128,
    window_nanos: int,
    limit: int,
) -> bool {
    ||| win == replay(s, times, window_nanos, limit).1
    ||| {
        &&& win == live_window(replay(s, times, window_nanos, limit).1, aged_at, window_nanos)
        &&& aged_at <= now
        &&& times.len() > 0 ==> times.last() <= aged_at
        &&& times.len() == 0 ==> all_at_most(s, aged_at)
    }
}

proof fn lemma_history_window_ages_alike(
    win: Seq<u128>,
    s: Seq<u128>,
    times: Seq<u128>,
    aged_at: u128,
    now: u128,
    w: int,
    limit: int,
)
    requires
        window_from_history(win, s, times, aged_at, now, w, limit),
        monotone_history(s, times.push(now)),
    ensures
        live_window(win, now, w) == live_window(replay(s, times, w, limit).1, now, w),
{
    let all = times.push(now);
    assert(all.drop_last() =~= times);
    assert(monotone_history(s, times)) by {
        assert forall|i: int, j: int| 0 <= i <= j < times.len() implies times[i] <= times[j] by {
            assert(times[i] == all[i] && times[j] == all[j]);
        }
        if times.len() > 0 {
            assert(times[0] == all[0]);
        }
    }
    lemma_replay_ordered(s, times, w, limit);
    let x = replay(s, times, w, limit).1;
    if win != x {
        assert(all_at_most(x, aged_at)) by {
            if times.len() > 0 {
                assert forall|i: int| 0 <= i < x.len() implies x[i] <= aged_at by {
                    assert(x[i] <= times.last());
                }
            }
        }
        lemma_age_twice(x, aged_at, now, w);
    }
}

/// A real call of `is_allowed` (or `is_allowed_at`) extends a key's history:
/// where the key's window came from a history `times` and the call's
/// reading `now` keeps the readings in order, the call is granted exactly
/// when fewer than `limit` earlier granted requests are live at `now`, and
/// the key's window afterwards is the one the history with `now` appended
/// leaves.
pub proof fn law_is_allowed_extends_history(
    before: RateLimiter,
    after: RateLimiter,
    key: Seq<char>,
    now: u128,
    allowed: bool,
    s: Seq<u128>,
    times: Seq<u128>,
    aged_at: u128,
)
    requires
        monotone_history(s, times.push(now)),
        window_from_history(window_of(before.table(), key), s, times, aged_at, now, nanos(before.window()), before.limit() as int),
        allowed == grant(window_of(before.table(), key), now, nanos(before.window()), before.limit() as int).0,
        after.table() == before.table().insert(
            key,
            grant(window_of(before.table(), key), now, nanos(before.window()), before.limit() as int).1,
        ),
    ensures
        allowed == (recent(
            s + granted(s, times, nanos(before.window()), before.limit() as int),
            now,
            nanos(before.window()),
        ).len() < before.limit()),
        window_of(after.table(), key) == replay(s, times.push(now), nanos(before.window()), before.limit() as int).1,
        granted(s, times.push(now), nanos(before.window()), before.limit() as int) == if allowed {
            granted(s, times, nanos(before.window()), before.limit() as int).push(now)
        } else {
            granted(s, times, nanos(before.window()), before.limit() as int)
        },
{
    let w = nanos(before.window());
    let limit = before.limit() as int;
    let all = times.push(now);
    assert(all.drop_last() =~= times);
    assert(all.last() == now);
    lemma_history_window_ages_alike(window_of(before.table(), key), s, times, aged_at, now, w, limit);
    law_grant_counts_recent_grants(s, all, w, limit);
}

/// A real call of `remaining` (or `remaining_at`) on a key whose window came
/// from a history `times`, at a reading `now` that keeps the readings in
/// order, answers the limit less the granted requests live at `now` (zero
/// at the least), and leaves the key's window as the history's, aged at `now`.
pub proof fn law_remaining_extends_history(
    before: RateLimiter,
    after: RateLimiter,
    key: Seq<char>,
    now: u128,
    n: int,
    s: Seq<u128>,
    times: Seq<u128>,
    aged_at: u128,
)
    requires
        monotone_history(s, times.push(now)),
        window_from_history(window_of(before.table(), key), s, times, aged_at, now, nanos(before.window()), before.limit() as int),
        n == headroom(window_of(before.table(), key), now, nanos(before.window()), before.limit() as int),
        after.table() == before.table().insert(
            key,
            live_window(window_of(before.table(), key), now, nanos(before.window())),
        ),
    ensures
        n == ({
            let c = recent(s + granted(s, times, nanos(before.window()), before.limit() as int), now, nanos(before.window())).len();
            if c < before.limit() { before.limit() - c } else { 0 }
        }),
        window_from_history(window_of(after.table(), key), s, times, now, now, nanos(before.window()), before.limit() as int),
{
    let w = nanos(before.window());
    let limit = before.limit() as int;
    let all = times.push(now);
    assert(all.drop_last() =~= times);
    lemma_history_window_ages_alike(window_of(before.table(), key), s, times, aged_at, now, w, limit);
    assert(monotone_history(s, times)) by {
        assert forall|i: int, j: int| 0 <= i <= j < times.len() implies times[i] <= times[j] by {
            assert(times[i] == all[i] && times[j] == all[j]);
        }
        if times.len() > 0 {
            assert(times[0] == all[0]);
        }
    }
    assert(all_at_most(s, now)) by {
        if times.len() > 0 {
            assert(all[0] <= all[all.len() - 1]);
        }
    }
    assert(times.len() > 0 ==> times.last() <= now) by {
        if times.len() > 0 {
            assert(times.last() == all[times.len() - 1]);
            assert(all[times.len() - 1] <= all[all.len() - 1]);
        }
    }
    law_remaining_counts_recent_grants(s, times, now, w, limit);
}

} // verus!
