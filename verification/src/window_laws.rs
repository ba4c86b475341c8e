//! Properties of the sliding-window rate limiter that span several requests
//! or several client keys.

use vstd::prelude::*;
use crate::rate_limiter::{expired, grant, headroom, lemma_live_window_suffix, live_window, nanos, window_of, RateLimiter};

verus! {

/// Replays requests arriving at `times`, in that order, against window `s`:
/// the answers, and the window afterwards.
pub open spec fn replay(s: Seq<u128>, times: Seq<u128>, window_nanos: int, limit: int) -> (Seq<bool>, Seq<u128>)
    decreases times.len(),
{
    if times.len() == 0 {
        (Seq::empty(), s)
    } else {
        let before = replay(s, times.drop_last(), window_nanos, limit);
        let step = grant(before.1, times.last(), window_nanos, limit);
        (before.0.push(step.0), step.1)
    }
}

/// Live windows are unchanged by ageing them again at the same moment.
pub proof fn lemma_live_window_idempotent(s: Seq<u128>, now: u128, window_nanos: int)
    ensures
        live_window(live_window(s, now, window_nanos), now, window_nanos) == live_window(s, now, window_nanos),
{
    lemma_live_window_suffix(s, now, window_nanos);
}

/// Requests of one key that all arrive within one window of the first, on a
/// key with no live requests: the first `limit` of them are granted and every
/// later one is refused.
pub proof fn law_grants_exactly_up_to_limit(times: Seq<u128>, window_nanos: int, limit: nat)
    requires
        times.len() > 0,
        forall|i: int| 0 <= i < times.len() ==> times[0] <= #[trigger] times[i] && times[i] - times[0] < window_nanos,
    ensures
        forall|i: int| 0 <= i < times.len() ==> #[trigger] replay(Seq::empty(), times, window_nanos, limit as int).0[i] == (i < limit),
{
    lemma_replay_within_window(times, times.len() as int, window_nanos, limit);
    assert(times.take(times.len() as int) =~= times);
}

proof fn lemma_replay_within_window(times: Seq<u128>, n: int, window_nanos: int, limit: nat)
    requires
        0 <= n <= times.len(),
        forall|i: int| 0 <= i < times.len() ==> times[0] <= #[trigger] times[i] && times[i] - times[0] < window_nanos,
    ensures
        replay(Seq::empty(), times.take(n), window_nanos, limit as int).0.len() == n,
        forall|i: int| 0 <= i < n ==> #[trigger] replay(Seq::empty(), times.take(n), window_nanos, limit as int).0[i] == (i < limit),
        replay(Seq::empty(), times.take(n), window_nanos, limit as int).1 == times.take(if n < limit { n } else { limit as int }),
    decreases n,
{
    if n == 0 {
    } else {
        lemma_replay_within_window(times, n - 1, window_nanos, limit);
        let prefix = times.take(n);
        assert(prefix.drop_last() =~= times.take(n - 1));
        let before = replay(Seq::empty(), times.take(n - 1), window_nanos, limit as int);
        let t = times[n - 1];
        assert(prefix.last() == t);
        let kept = before.1;
        if kept.len() > 0 {
            assert(kept[0] == times[0]);
            assert(!expired(kept[0], t, window_nanos));
        }
        assert(live_window(kept, t, window_nanos) == kept);
        if n - 1 < limit {
            assert(kept.push(t) =~= times.take(n));
        }
        assert(times.take(n) == prefix);
    }
}

/// Right after a granted request, the key's headroom at the same moment is
/// one less than it was before the request (for a window of nonzero length).
pub proof fn law_remaining_counts_down(s: Seq<u128>, now: u128, window_nanos: int, limit: int)
    requires
        window_nanos > 0,
        grant(s, now, window_nanos, limit).0,
    ensures
        headroom(grant(s, now, window_nanos, limit).1, now, window_nanos, limit)
            == headroom(s, now, window_nanos, limit) - 1,
{
    let live = live_window(s, now, window_nanos);
    lemma_live_window_suffix(s, now, window_nanos);
    let after = live.push(now);
    assert(after[0] == if live.len() > 0 { live[0] } else { now });
    assert(!expired(after[0], now, window_nanos));
    assert(live_window(after, now, window_nanos) == after);
}

/// Asking for the headroom does not change it: a second look at the same
/// moment finds the same number.
pub proof fn law_remaining_is_stable(s: Seq<u128>, now: u128, window_nanos: int, limit: int)
    ensures
        headroom(live_window(s, now, window_nanos), now, window_nanos, limit) == headroom(s, now, window_nanos, limit),
        grant(live_window(s, now, window_nanos), now, window_nanos, limit) == grant(s, now, window_nanos, limit),
{
    lemma_live_window_idempotent(s, now, window_nanos);
}

/// Once every recorded request of a key has aged out, the key's next request
/// is granted (under a nonzero limit) and its window starts over.
pub proof fn law_window_resets(s: Seq<u128>, now: u128, window_nanos: int, limit: int)
    requires
        limit > 0,
        forall|i: int| 0 <= i < s.len() ==> expired(#[trigger] s[i], now, window_nanos),
    ensures
        grant(s, now, window_nanos, limit).0,
        grant(s, now, window_nanos, limit).1 == seq![now],
        headroom(s, now, window_nanos, limit) == limit,
    decreases s.len(),
{
    if s.len() > 0 {
        assert forall|i: int| 0 <= i < s.drop_first().len() implies expired(#[trigger] s.drop_first()[i], now, window_nanos) by {
            assert(s.drop_first()[i] == s[i + 1]);
        }
        law_window_resets(s.drop_first(), now, window_nanos, limit);
    }
    assert(Seq::<u128>::empty().push(now) =~= seq![now]);
}

/// A limit of zero refuses every request.
pub proof fn law_zero_limit_refuses(s: Seq<u128>, now: u128, window_nanos: int)
    ensures
        !grant(s, now, window_nanos, 0).0,
        headroom(s, now, window_nanos, 0) == 0,
{
}

/// A window never holds more than `limit` timestamps after a request, when it
/// held no more before.
pub proof fn law_window_never_exceeds_limit(s: Seq<u128>, now: u128, window_nanos: int, limit: int)
    requires
        s.len() <= limit,
    ensures
        grant(s, now, window_nanos, limit).1.len() <= limit,
        live_window(s, now, window_nanos).len() <= limit,
{
    lemma_live_window_suffix(s, now, window_nanos);
}

/// A request of one key leaves the windows of every other key as they were.
pub proof fn law_keys_are_independent(before: RateLimiter, after: RateLimiter, key: Seq<char>, now: u128, other: Seq<char>)
    requires
        other != key,
        after.table() == before.table().insert(
            key,
            grant(window_of(before.table(), key), now, nanos(before.window()), before.limit() as int).1,
        ),
    ensures
        window_of(after.table(), other) == window_of(before.table(), other),
{
}

} // verus!
