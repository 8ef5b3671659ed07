//! Per-key fixed-window rate limiter, keyed by verified address. Each key gets a budget of
//! `max_per_min` accepted requests per 60-second window; a budget of 0 disables limiting.
//! Times are nanoseconds on the limiter's monotonic clock; the `_at` operation takes such a
//! reading as an argument.
use crate::clock::monotonic_now;
use crate::clock::nanos_since;
use crate::table::KeyedTable;
use std::time::Instant;
use vstd::prelude::*;

verus! {

/// Length of one window in nanoseconds (60 seconds).
pub const WINDOW_NANOS: u64 = 60_000_000_000;

/// A fixed-window bucket for one key.
#[derive(Clone, Copy, Debug, PartialEq, Eq)]
pub struct Window {
    /// When the window started (nanoseconds on the limiter's clock).
    pub start: u64,
    /// Requests accepted in the window so far.
    pub count: u32,
}

/// The windows: key text to its bucket.
pub type WindowMap = Map<Seq<char>, Window>;

/// Time from `start` to `now`, zero when `now` is earlier.
pub open spec fn elapsed(now: u64, start: u64) -> int {
    if now >= start {
        now - start
    } else {
        0
    }
}

/// The window that a check of `key` at `now` works on: the stored one (a fresh one starting
/// now for a new key), restarted when a whole window has passed since it began.
pub open spec fn current_window(m: WindowMap, key: Seq<char>, now: u64) -> Window {
    let w = if m.contains_key(key) {
        m[key]
    } else {
        Window { start: now, count: 0 }
    };
    if elapsed(now, w.start) >= WINDOW_NANOS {
        Window { start: now, count: 0 }
    } else {
        w
    }
}

/// Whether a check of `key` at `now` is allowed.
pub open spec fn check_allows(m: WindowMap, max: u32, key: Seq<char>, now: u64) -> bool {
    max == 0 || current_window(m, key, now).count < max
}

/// The windows after a check of `key` at `now`: unchanged when limiting is off; otherwise the
/// key's current window is stored, counting the request if it was allowed.
pub open spec fn after_check(m: WindowMap, max: u32, key: Seq<char>, now: u64) -> WindowMap {
    if max == 0 {
        m
    } else {
        let w = current_window(m, key, now);
        if w.count < max {
            m.insert(key, Window { start: w.start, count: (w.count + 1) as u32 })
        } else {
            m.insert(key, w)
        }
    }
}

/// Every stored window has counted at most `max` requests.
pub open spec fn within_budget(m: WindowMap, max: u32) -> bool {
    forall|k: Seq<char>| #[trigger] m.contains_key(k) ==> m[k].count <= max
}

/// Per-address, fixed 60-second window rate limiter.
pub struct RateLimiter {
    /// Requests allowed per key per window; 0 disables limiting.
    max_per_min: u32,
    /// One window per key seen.
    windows: KeyedTable<Window>,
    /// Origin of the limiter's monotonic clock.
    origin: Instant,
}

impl View for RateLimiter {
    type V = WindowMap;

    closed spec fn view(&self) -> WindowMap {
        self.windows@
    }
}

impl RateLimiter {
    /// The per-window budget.
    pub closed spec fn budget(&self) -> u32 {
        self.max_per_min
    }

    /// Well-formedness: no window has counted past the budget.
    pub closed spec fn wf(&self) -> bool {
        &&& self.windows.wf()
        &&& within_budget(self.windows@, self.max_per_min)
    }

    /// No stored window of a well-formed limiter has counted past its budget.
    pub proof fn lemma_within_budget(&self)
        requires
            self.wf(),
        ensures
            within_budget(self@, self.budget()),
    {
    }

    /// A limiter with the given per-key, per-window budget.
    pub fn new(max_per_min: u32) -> (r: Self)
        ensures
            r.wf(),
            r@ == WindowMap::empty(),
            r.budget() == max_per_min,
    {
        RateLimiter { max_per_min, windows: KeyedTable::new(), origin: monotonic_now() }
    }

    /// Checks a request for `key` at `now`: true if it is allowed, and then it is counted.
    pub fn check_at(&mut self, key: &str, now: u64) -> (ok: bool)
        requires
            old(self).wf(),
        ensures
            final(self).wf(),
            final(self).budget() == old(self).budget(),
            ok == check_allows(old(self)@, old(self).budget(), key@, now),
            final(self)@ == after_check(old(self)@, old(self).budget(), key@, now),
    {
        if self.max_per_min == 0 {
            return true;
        }
        let k = key.to_owned();
        let w0 = match self.windows.get(&k) {
            Some(w) => w,
            None => Window { start: now, count: 0 },
        };
        let w1 = if now.saturating_sub(w0.start) >= WINDOW_NANOS {
            Window { start: now, count: 0 }
        } else {
            w0
        };
        if w1.count >= self.max_per_min {
            self.windows.insert(k, w1);
            false
        } else {
            self.windows.insert(k, Window { start: w1.start, count: w1.count + 1 });
            true
        }
    }

    /// Checks a request for `key` now: true if it is allowed, and then it is counted. A budget
    /// of 0 allows everything.
    pub fn check(&mut self, key: &str) -> (ok: bool)
        requires
            old(self).wf(),
        ensures
            final(self).wf(),
            final(self).budget() == old(self).budget(),
            exists|now: u64|
                ok == check_allows(old(self)@, old(self).budget(), key@, now) && final(self)@
                    == after_check(old(self)@, old(self).budget(), key@, now),
            old(self).budget() == 0 ==> ok && final(self)@ == old(self)@,
    {
        let now = nanos_since(&self.origin);
        self.check_at(key, now)
    }
}

/// A budget of 0 disables limiting: every check is allowed and nothing is recorded.
pub proof fn law_zero_budget_allows_all(m: WindowMap, key: Seq<char>, now: u64)
    ensures
        check_allows(m, 0, key, now),
        after_check(m, 0, key, now) == m,
{
}

/// Keys are independent: a check of `key` leaves every other key's window as it was.
pub proof fn law_keys_independent(m: WindowMap, max: u32, key: Seq<char>, now: u64, other: Seq<char>)
    requires
        other != key,
    ensures
        after_check(m, max, key, now).contains_key(other) == m.contains_key(other),
        m.contains_key(other) ==> after_check(m, max, key, now)[other] == m[other],
{
}

/// No window ever counts past the budget.
pub proof fn law_budget_never_exceeded(m: WindowMap, max: u32, key: Seq<char>, now: u64)
    requires
        within_budget(m, max),
    ensures
        within_budget(after_check(m, max, key, now), max),
{
}

/// A key never seen before is allowed, and its window starts now with one request.
pub proof fn law_new_key_allowed(m: WindowMap, max: u32, key: Seq<char>, now: u64)
    requires
        max > 0,
        !m.contains_key(key),
    ensures
        check_allows(m, max, key, now),
        after_check(m, max, key, now)[key] == (Window { start: now, count: 1 }),
{
}

/// Once a whole window has passed since a key's window began, its next request is allowed
/// and starts a new window.
pub proof fn law_window_restarts(m: WindowMap, max: u32, key: Seq<char>, now: u64)
    requires
        max > 0,
        m.contains_key(key),
        elapsed(now, m[key].start) >= WINDOW_NANOS,
    ensures
        check_allows(m, max, key, now),
        after_check(m, max, key, now)[key] == (Window { start: now, count: 1 }),
{
}

/// Within a window whose budget is spent, a request is denied and changes nothing.
pub proof fn law_spent_budget_denies(m: WindowMap, max: u32, key: Seq<char>, now: u64)
    requires
        max > 0,
        m.contains_key(key),
        m[key].count >= max,
        elapsed(now, m[key].start) < WINDOW_NANOS,
    ensures
        !check_allows(m, max, key, now),
        after_check(m, max, key, now) == m,
{
    assert(m.insert(key, m[key]) =~= m);
}

/// The windows and the answers after checking `key` at each of `times` in turn.
pub open spec fn run_checks(m: WindowMap, max: u32, key: Seq<char>, times: Seq<u64>) -> (WindowMap, Seq<bool>)
    decreases times.len(),
{
    if times.len() == 0 {
        (m, Seq::empty())
    } else {
        let (m1, r1) = run_checks(m, max, key, times.drop_last());
        (after_check(m1, max, key, times.last()), r1.push(check_allows(m1, max, key, times.last())))
    }
}

proof fn lemma_run_within_window(m: WindowMap, max: u32, key: Seq<char>, times: Seq<u64>)
    requires
        max > 0,
        !m.contains_key(key),
        times.len() > 0,
        forall|i: int| 0 <= i < times.len() ==> elapsed(#[trigger] times[i], times[0]) < WINDOW_NANOS,
    ensures
        run_checks(m, max, key, times).1.len() == times.len(),
        forall|i: int|
            0 <= i < times.len() ==> #[trigger] run_checks(m, max, key, times).1[i] == (i < max),
        run_checks(m, max, key, times).0.contains_key(key),
        run_checks(m, max, key, times).0[key] == (Window {
            start: times[0],
            count: if times.len() < max { times.len() as u32 } else { max },
        }),
    decreases times.len(),
{
    let p = times.drop_last();
    if p.len() == 0 {
        assert(times.last() == times[0]);
        assert(run_checks(m, max, key, p) == (m, Seq::<bool>::empty()));
    } else {
        assert forall|i: int| 0 <= i < p.len() implies elapsed(#[trigger] p[i], p[0]) < WINDOW_NANOS by {
            assert(p[i] == times[i]);
        }
        lemma_run_within_window(m, max, key, p);
        let (m1, r1) = run_checks(m, max, key, p);
        let t = times.last();
        assert(t == times[times.len() - 1]);
        assert(elapsed(t, times[0]) < WINDOW_NANOS);
        assert forall|i: int| 0 <= i < times.len() implies #[trigger] run_checks(m, max, key, times).1[i] == (i < max) by {
            if i < p.len() {
                assert(r1[i] == (i < max));
            }
        }
    }
}

/// From a key's first request, the first `max` requests within one window are allowed and
/// every later one in that window is denied.
pub proof fn law_allows_budget_then_denies(m: WindowMap, max: u32, key: Seq<char>, times: Seq<u64>)
    requires
        max > 0,
        !m.contains_key(key),
        forall|i: int| 0 <= i < times.len() ==> elapsed(#[trigger] times[i], times[0]) < WINDOW_NANOS,
    ensures
        forall|i: int|
            0 <= i < times.len() ==> #[trigger] run_checks(m, max, key, times).1[i] == (i < max),
{
    if times.len() > 0 {
        lemma_run_within_window(m, max, key, times);
    }
}


/// A history of checks: each call's key and time.
pub type History = Seq<(Seq<char>, u64)>;

/// The windows and the answers after running the checks of `h` in turn from `m`.
pub open spec fn run_history(m: WindowMap, max: u32, h: History) -> (WindowMap, Seq<bool>)
    decreases h.len(),
{
    if h.len() == 0 {
        (m, Seq::empty())
    } else {
        let (m1, r1) = run_history(m, max, h.drop_last());
        (
            after_check(m1, max, h.last().0, h.last().1),
            r1.push(check_allows(m1, max, h.last().0, h.last().1)),
        )
    }
}

/// A check of `key` at `now` opens a new window: the key has none yet, or a whole window has
/// passed since its window began.
pub open spec fn opens_window(m: WindowMap, key: Seq<char>, now: u64) -> bool {
    !m.contains_key(key) || elapsed(now, m[key].start) >= WINDOW_NANOS
}

/// Index in `h` of the call that opened `key`'s current window, or -1 when the window (if
/// any) was already there before `h`.
pub open spec fn window_opened_at(m: WindowMap, max: u32, h: History, key: Seq<char>) -> int
    decreases h.len(),
{
    if h.len() == 0 {
        -1
    } else {
        let m1 = run_history(m, max, h.drop_last()).0;
        if h.last().0 == key && opens_window(m1, key, h.last().1) {
            h.len() - 1
        } else {
            window_opened_at(m, max, h.drop_last(), key)
        }
    }
}

/// How many calls of `key` at index `from` or later in `h` were allowed.
pub open spec fn allowed_since(h: History, answers: Seq<bool>, key: Seq<char>, from: int) -> nat
    decreases h.len(),
{
    if h.len() == 0 || answers.len() == 0 {
        0
    } else {
        allowed_since(h.drop_last(), answers.drop_last(), key, from) + if h.len() - 1 >= from
            && h.last().0 == key && answers.last() {
            1nat
        } else {
            0
        }
    }
}

/// The window a key has in `m`, if any.
pub open spec fn window_of(m: WindowMap, key: Seq<char>) -> Option<Window> {
    if m.contains_key(key) {
        Some(m[key])
    } else {
        None
    }
}

proof fn lemma_run_history(m: WindowMap, max: u32, h: History, key: Seq<char>)
    requires
        max > 0,
        within_budget(m, max),
    ensures
        ({
            let (m2, r) = run_history(m, max, h);
            let s = window_opened_at(m, max, h, key);
            &&& r.len() == h.len()
            &&& within_budget(m2, max)
            &&& -1 <= s < h.len()
            &&& s >= 0 ==> m2.contains_key(key) && m2[key].count == allowed_since(h, r, key, s)
            &&& s == -1 && m.contains_key(key) ==> m2.contains_key(key) && m2[key].count == m[key].count
                + allowed_since(h, r, key, 0)
            &&& s == -1 && !m.contains_key(key) ==> !m2.contains_key(key) && allowed_since(h, r, key, 0) == 0
        }),
    decreases h.len(),
{
    if h.len() > 0 {
        let p = h.drop_last();
        lemma_run_history(m, max, p, key);
        let (m1, r1) = run_history(m, max, p);
        let (m2, r) = run_history(m, max, h);
        let (k, t) = h.last();
        assert(r.drop_last() =~= r1);
        assert(h.drop_last() == p);
        law_budget_never_exceeded(m1, max, k, t);
        let s1 = window_opened_at(m, max, p, key);
        let s = window_opened_at(m, max, h, key);
        if k != key {
            law_keys_independent(m1, max, k, t, key);
            assert(s == s1);
        } else if opens_window(m1, key, t) {
            assert(s == h.len() - 1);
            assert(allowed_since(p, r1, key, s) == 0) by {
                lemma_allowed_since_beyond(p, r1, key, s);
            }
        } else {
            assert(s == s1);
        }
    }
}

proof fn lemma_allowed_since_beyond(h: History, answers: Seq<bool>, key: Seq<char>, from: int)
    requires
        from >= h.len(),
    ensures
        allowed_since(h, answers, key, from) == 0,
    decreases h.len(),
{
    if h.len() > 0 && answers.len() > 0 {
        lemma_allowed_since_beyond(h.drop_last(), answers.drop_last(), key, from);
    }
}

/// The budget holds over any history: from any state within budget, the calls of `key`
/// allowed in its current window (counting those the window already held before the
/// history) are at most `max`, so no window ever allows more than `max` requests and its count
/// never overflows. Every window of a history is the current window of one of its prefixes.
pub proof fn law_budget_per_window(m: WindowMap, max: u32, h: History, key: Seq<char>)
    requires
        max > 0,
        within_budget(m, max),
    ensures
        ({
            let (m2, r) = run_history(m, max, h);
            let s = window_opened_at(m, max, h, key);
            &&& within_budget(m2, max)
            &&& s >= 0 ==> allowed_since(h, r, key, s) <= max
            &&& s == -1 ==> (if m.contains_key(key) { m[key].count as int } else { 0 }) + allowed_since(
                h,
                r,
                key,
                0,
            ) <= max
        }),
{
    lemma_run_history(m, max, h, key);
}

/// The calls of `key` in `h`, in order.
pub open spec fn calls_of(h: History, key: Seq<char>) -> History
    decreases h.len(),
{
    if h.len() == 0 {
        Seq::empty()
    } else if h.last().0 == key {
        calls_of(h.drop_last(), key).push(h.last())
    } else {
        calls_of(h.drop_last(), key)
    }
}

proof fn lemma_step_depends_on_own_window(m1: WindowMap, m2: WindowMap, max: u32, key: Seq<char>, now: u64)
    requires
        window_of(m1, key) == window_of(m2, key),
    ensures
        check_allows(m1, max, key, now) == check_allows(m2, max, key, now),
        window_of(after_check(m1, max, key, now), key) == window_of(after_check(m2, max, key, now), key),
{
}

/// Keys are limited independently over whole histories: a key's window after a history
/// depends only on that key's own calls.
pub proof fn law_window_depends_only_on_own_calls(m: WindowMap, max: u32, h: History, key: Seq<char>)
    ensures
        window_of(run_history(m, max, h).0, key) == window_of(run_history(m, max, calls_of(h, key)).0, key),
    decreases h.len(),
{
    if h.len() > 0 {
        let p = h.drop_last();
        law_window_depends_only_on_own_calls(m, max, p, key);
        let (k, t) = h.last();
        let m1 = run_history(m, max, p).0;
        if k == key {
            let c = calls_of(h, key);
            assert(c.drop_last() == calls_of(p, key));
            assert(c.last() == h.last());
            lemma_step_depends_on_own_window(m1, run_history(m, max, calls_of(p, key)).0, max, key, t);
        } else {
            law_keys_independent(m1, max, k, t, key);
        }
    }
}

/// Two histories that differ only in calls of other keys leave `key` with the same window, so
/// a following check of `key` at the same time gets the same answer after either.
pub proof fn law_keys_independent_over_histories(
    m: WindowMap,
    max: u32,
    h1: History,
    h2: History,
    key: Seq<char>,
    now: u64,
)
    requires
        calls_of(h1, key) == calls_of(h2, key),
    ensures
        window_of(run_history(m, max, h1).0, key) == window_of(run_history(m, max, h2).0, key),
        check_allows(run_history(m, max, h1).0, max, key, now) == check_allows(
            run_history(m, max, h2).0,
            max,
            key,
            now,
        ),
{
    law_window_depends_only_on_own_calls(m, max, h1, key);
    law_window_depends_only_on_own_calls(m, max, h2, key);
    lemma_step_depends_on_own_window(run_history(m, max, h1).0, run_history(m, max, h2).0, max, key, now);
}

} // verus!
