//! Rate limiting of resource notifications. The newest payload of a resource is
//! always kept; a notification goes out only when the last one of the same
//! resource is old enough.

use std::collections::HashMap;
use vstd::prelude::*;

verus! {

broadcast use vstd::std_specs::hash::group_hash_axioms;

/// The rate in range: at least 1 Hz, at most 30 Hz.
pub open spec fn clamped_hz(hz: u32) -> u32 {
    if hz < 1 {
        1
    } else if hz > 30 {
        30
    } else {
        hz
    }
}

/// Minimum interval in milliseconds for a refresh rate in Hz, clamped to 1 to
/// 30.
pub fn min_interval_for_hz(hz: u32) -> (r: u64)
    ensures
        r == 1000int / clamped_hz(hz) as int,
{
    let clamped: u32 = if hz < 1 {
        1
    } else if hz > 30 {
        30
    } else {
        hz
    };
    1000 / (clamped as u64)
}

/// Notifications of one resource are at least 33 ms and at most a second apart
/// at the fastest and the slowest rate, and a higher rate never makes them
/// slower.
pub proof fn law_interval_range(hz: u32, faster: u32)
    requires
        hz <= faster,
    ensures
        33 <= 1000int / clamped_hz(hz) as int <= 1000,
        1000int / clamped_hz(faster) as int <= 1000int / clamped_hz(hz) as int,
{
    let a = clamped_hz(hz) as int;
    let b = clamped_hz(faster) as int;
    assert(1000int / b <= 1000int / a && 33 <= 1000int / a <= 1000) by (nonlinear_arith)
        requires
            1 <= a <= b <= 30,
    ;
}

/// The newest payload of a resource.
#[derive(Debug)]
pub struct Snapshot {
    pub bytes: Vec<u8>,
    pub mime: &'static str,
}

/// Payload cache and rate limiter. Resources are numbered by their place in the
/// catalogue.
pub struct Notifier {
    pub min_interval_ms: u64,
    /// When each resource was last notified, in nanoseconds.
    pub last_emit: HashMap<u32, u64>,
    pub cache: HashMap<u32, Snapshot>,
}

/// Nanoseconds from `prev` to `now`, 0 when `prev` is later.
pub open spec fn since(prev: u64, now: u64) -> int {
    if now >= prev {
        now - prev
    } else {
        0
    }
}

/// Whether a notification may go out at `now`, in nanoseconds; the interval is in
/// milliseconds.
pub open spec fn due(last: Option<u64>, min_interval: u64, now: u64) -> bool {
    match last {
        None => true,
        Some(prev) => since(prev, now) >= min_interval * 1_000_000,
    }
}

/// When the last notification of a resource went out.
pub open spec fn last_of(last_emit: Map<u32, u64>, key: u32) -> Option<u64> {
    if last_emit.dom().contains(key) {
        Some(last_emit[key])
    } else {
        None
    }
}

/// What an event at `now` does to the times of the last notifications, and
/// whether it is notified.
pub open spec fn emitted(
    before: Map<u32, u64>,
    min_interval: u64,
    key: u32,
    now: u64,
    after: Map<u32, u64>,
    notify: bool,
) -> bool {
    &&& notify == due(last_of(before, key), min_interval, now)
    &&& after == if notify {
        before.insert(key, now)
    } else {
        before
    }
}

impl Notifier {
    /// Nothing sent, nothing cached.
    pub fn new(min_interval_ms: u64) -> (r: Self)
        ensures
            r.min_interval_ms == min_interval_ms,
            r.last_emit@ == Map::<u32, u64>::empty(),
            r.cache@ == Map::<u32, Snapshot>::empty(),
    {
        Notifier { min_interval_ms, last_emit: HashMap::new(), cache: HashMap::new() }
    }

    /// Takes the newest payload of a resource, at a time in nanoseconds. The
    /// answer tells whether to notify the clients; the payload is cached either
    /// way.
    pub fn on_event(&mut self, key: u32, payload: Snapshot, now_ns: u64) -> (notify: bool)
        ensures
            final(self).min_interval_ms == old(self).min_interval_ms,
            final(self).cache@ == old(self).cache@.insert(key, payload),
            emitted(
                old(self).last_emit@,
                old(self).min_interval_ms,
                key,
                now_ns,
                final(self).last_emit@,
                notify,
            ),
    {
        let notify = match self.last_emit.get(&key) {
            None => true,
            Some(prev) => {
                let elapsed: u64 = if now_ns >= *prev {
                    now_ns - *prev
                } else {
                    0
                };
                elapsed as u128 >= self.min_interval_ms as u128 * 1_000_000
            },
        };
        if notify {
            self.last_emit.insert(key, now_ns);
        }
        self.cache.insert(key, payload);
        notify
    }

    /// The newest payload of a resource.
    pub fn cached(&self, key: u32) -> (r: Option<&Snapshot>)
        ensures
            r is Some <==> self.cache@.dom().contains(key),
            r matches Some(s) ==> *s == self.cache@[key],
    {
        self.cache.get(&key)
    }
}

/// When the last notification went out after events at `times`.
pub open spec fn last_after(min_interval: u64, times: Seq<u64>) -> Option<u64>
    decreases times.len(),
{
    if times.len() == 0 {
        None
    } else {
        let last = last_after(min_interval, times.drop_last());
        if due(last, min_interval, times.last()) {
            Some(times.last())
        } else {
            last
        }
    }
}

/// Whether event `i` of a resource's events at `times` is notified.
pub open spec fn notified(min_interval: u64, times: Seq<u64>, i: int) -> bool {
    due(last_after(min_interval, times.take(i)), min_interval, times[i])
}

/// An event is notified as the events of its resource so far say, and they then
/// include it; the other resources stay as they were.
pub proof fn law_events_add_up(
    before: Map<u32, u64>,
    min_interval: u64,
    key: u32,
    times: Seq<u64>,
    now: u64,
    after: Map<u32, u64>,
    notify: bool,
)
    requires
        last_of(before, key) == last_after(min_interval, times),
        emitted(before, min_interval, key, now, after, notify),
    ensures
        notify == notified(min_interval, times.push(now), times.len() as int),
        last_of(after, key) == last_after(min_interval, times.push(now)),
        forall|k: u32| k != key ==> #[trigger] last_of(after, k) == last_of(before, k),
{
    assert(times.push(now).take(times.len() as int) =~= times);
    assert(times.push(now).drop_last() =~= times);
}

proof fn lemma_last_after(min_interval: u64, times: Seq<u64>, i: int, n: int)
    requires
        0 <= i < n <= times.len(),
        forall|a: int, b: int| 0 <= a <= b < times.len() ==> times[a] <= times[b],
        notified(min_interval, times, i),
    ensures
        last_after(min_interval, times.take(n)) matches Some(t) && times[i] <= t,
    decreases n,
{
    let head = times.take(n);
    assert(head.drop_last() =~= times.take(n - 1));
    assert(head.last() == times[n - 1]);
    if i < n - 1 {
        lemma_last_after(min_interval, times, i, n - 1);
        assert(times[i] <= times[n - 1]);
    }
}

/// Of the events of one resource, in the order of time, two that are notified
/// are at least the minimum interval apart.
pub proof fn law_notifications_are_spaced(min_interval: u64, times: Seq<u64>, i: int, j: int)
    requires
        0 <= i < j < times.len(),
        forall|a: int, b: int| 0 <= a <= b < times.len() ==> times[a] <= times[b],
        notified(min_interval, times, i),
        notified(min_interval, times, j),
    ensures
        times[j] - times[i] >= min_interval * 1_000_000,
{
    lemma_last_after(min_interval, times, i, j);
    assert(times[i] <= times[j]);
}

/// The first event of a resource is always notified.
pub proof fn law_first_event_is_notified(min_interval: u64, times: Seq<u64>)
    requires
        times.len() > 0,
    ensures
        notified(min_interval, times, 0),
{
    assert(times.take(0).len() == 0);
}

/// The interval is the longest in whole milliseconds of which as many as the rate
/// fit in a second; rates outside 1 to 30 count as the nearest of these.
pub proof fn law_interval_fits(hz: u32)
    ensures
        1 <= hz <= 30 ==> {
            let ms = 1000int / clamped_hz(hz) as int;
            ms * hz <= 1000 < (ms + 1) * hz
        },
        hz == 0 ==> clamped_hz(hz) == 1,
        hz > 30 ==> clamped_hz(hz) == 30,
{
    if 1 <= hz <= 30 {
        let h = hz as int;
        assert(clamped_hz(hz) == hz);
        assert(1000int / h * h <= 1000 < (1000int / h + 1) * h) by (nonlinear_arith)
            requires
                1 <= h <= 30,
        ;
    }
}

/// An event is notified exactly when its resource has not been yet, or not for the
/// interval, in milliseconds against a clock of nanoseconds; time that runs
/// backwards counts as none.
pub proof fn law_event_when_due(
    before: Map<u32, u64>,
    min_interval: u64,
    key: u32,
    now: u64,
    after: Map<u32, u64>,
    notify: bool,
)
    requires
        emitted(before, min_interval, key, now, after, notify),
    ensures
        !before.dom().contains(key) ==> notify,
        before.dom().contains(key) && now >= before[key] ==> (notify <==> now - before[key]
            >= 1_000_000 * min_interval),
        before.dom().contains(key) && now < before[key] ==> (notify <==> min_interval == 0),
        notify ==> after.dom().contains(key) && after[key] == now,
        !notify ==> after == before,
{
}

} // verus!
