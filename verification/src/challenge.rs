//! Challenge nonces: issues random, time-bound nonces and lets a valid nonce be consumed
//! exactly once (replay protection).
//!
//! [`InMemoryNonceStore`] is the process-local store. It keeps a hard cap on its entries
//! (evicting the soonest-to-expire entry when full) and drops expired entries on every
//! issue and on [`InMemoryNonceStore::prune`], so its size is bounded whatever the issue
//! rate. Times are nanoseconds on the store's monotonic clock, counted from the store's
//! creation; the `_at` operations take such a reading as an argument.
//!
//! For the shared Redis-protocol store this module holds the key layout, the key TTL and
//! the reading of a `GETDEL` reply; the network round-trips live outside the library.
use crate::clock::monotonic_now;
use crate::clock::nanos_since;
use crate::clock::now_ms;
use crate::encoding::hex_encode;
use crate::encoding::is_lower_hex_char;
use crate::encoding::lemma_lower_hex;
use crate::encoding::os_random_bytes;
use crate::table::keep_matching;
use crate::table::KeyedTable;
use std::time::Instant;
use vstd::prelude::*;

verus! {

/// Nanoseconds per second.
pub const NANOS_PER_SEC: u64 = 1_000_000_000;

/// Milliseconds per second.
pub const MILLIS_PER_SEC: u64 = 1_000;

/// Number of random bytes in a nonce; its hex form has twice as many characters.
pub const NONCE_BYTES: usize = 24;

/// `a + b`, or `u64::MAX` where the sum does not fit.
pub open spec fn sat_add(a: u64, b: u64) -> u64 {
    if a + b > u64::MAX {
        u64::MAX
    } else {
        (a + b) as u64
    }
}

/// `a * b`, or `u64::MAX` where the product does not fit.
pub open spec fn sat_mul(a: u64, b: u64) -> u64 {
    if a * b > u64::MAX {
        u64::MAX
    } else {
        (a * b) as u64
    }
}

/// Saturating product of two `u64`s.
pub fn saturating_mul(a: u64, b: u64) -> (r: u64)
    ensures
        r == sat_mul(a, b),
{
    match a.checked_mul(b) {
        Some(p) => p,
        None => u64::MAX,
    }
}

/// A tracked nonce: when it expires and whether it has been consumed.
#[derive(Clone, Copy, Debug, PartialEq, Eq)]
pub struct NonceEntry {
    /// Expiry on the store's monotonic clock (nanoseconds).
    pub expiry: u64,
    /// True once the nonce has been consumed.
    pub used: bool,
}

/// The nonce map: nonce text to its entry.
pub type NonceMap = Map<Seq<char>, NonceEntry>;

/// `nonce` is present, unexpired at `now`, and not yet used.
pub open spec fn nonce_valid_at(m: NonceMap, nonce: Seq<char>, now: u64) -> bool {
    m.contains_key(nonce) && !m[nonce].used && m[nonce].expiry > now
}

/// The map after an attempt to consume `nonce` at `now`: a valid nonce is marked used,
/// anything else leaves the map as it was.
pub open spec fn after_take(m: NonceMap, nonce: Seq<char>, now: u64) -> NonceMap {
    if nonce_valid_at(m, nonce, now) {
        m.insert(nonce, NonceEntry { expiry: m[nonce].expiry, used: true })
    } else {
        m
    }
}

/// The entries of `m` that are unexpired at `now`.
pub open spec fn live_entries(m: NonceMap, now: u64) -> NonceMap {
    keep_matching(m, |e: NonceEntry| e.expiry > now)
}

/// `k` is an entry of `m` that expires no later than any other.
pub open spec fn soonest_to_expire(m: NonceMap, k: Seq<char>) -> bool {
    m.contains_key(k) && forall|j: Seq<char>| #[trigger] m.contains_key(j) ==> m[k].expiry <= m[j].expiry
}

/// The entry a nonce issued at `now` gets.
pub open spec fn fresh_entry(now: u64, ttl_ns: u64) -> NonceEntry {
    NonceEntry { expiry: sat_add(now, ttl_ns), used: false }
}

/// What inserting `nonce` at `now` does to `m` under the entry cap `cap`: expired entries
/// go; if the cap is still reached, one soonest-to-expire entry goes; then `nonce` is stored
/// with `entry` (replacing an entry of the same nonce).
pub open spec fn insert_outcome(
    m: NonceMap,
    cap: nat,
    nonce: Seq<char>,
    entry: NonceEntry,
    now: u64,
    result: NonceMap,
) -> bool {
    let live = live_entries(m, now);
    if live.len() >= cap {
        exists|k: Seq<char>|
            soonest_to_expire(live, k) && result == live.remove(k).insert(nonce, entry)
    } else {
        result == live.insert(nonce, entry)
    }
}

/// Dropping entries keeps a finite map finite and no larger.
proof fn lemma_keep_matching_len(m: NonceMap, pred: spec_fn(NonceEntry) -> bool)
    requires
        m.dom().finite(),
    ensures
        keep_matching(m, pred).dom().finite(),
        keep_matching(m, pred).len() <= m.len(),
{
    let k = keep_matching(m, pred);
    assert(k.dom().subset_of(m.dom()));
    vstd::set_lib::lemma_len_subset(k.dom(), m.dom());
}

/// A fresh random nonce: 24 bytes from the operating system, hex-encoded (48 lowercase hex
/// characters); `None` where the operating system cannot supply randomness.
pub fn random_nonce() -> (r: Option<String>)
    ensures
        r matches Some(nonce) ==> nonce@.len() == 2 * NONCE_BYTES && forall|i: int|
            0 <= i < nonce@.len() ==> is_lower_hex_char(#[trigger] nonce@[i]),
{
    match os_random_bytes(NONCE_BYTES) {
        Some(bytes) => {
            let s = hex_encode(bytes.as_slice());
            proof {
                lemma_lower_hex(bytes@);
            }
            Some(s)
        },
        None => None,
    }
}

/// Process-local nonce store.
pub struct InMemoryNonceStore {
    /// Lifetime of each issued nonce, in nanoseconds.
    ttl_ns: u64,
    /// The same lifetime in milliseconds, for the reported Unix expiry.
    ttl_ms: u64,
    /// Hard cap on live entries (at least 1).
    max_entries: usize,
    /// The tracked nonces.
    entries: KeyedTable<NonceEntry>,
    /// Origin of the store's monotonic clock.
    origin: Instant,
}

impl View for InMemoryNonceStore {
    type V = NonceMap;

    closed spec fn view(&self) -> NonceMap {
        self.entries@
    }
}

impl InMemoryNonceStore {
    /// Lifetime of a nonce in nanoseconds.
    pub closed spec fn ttl_nanos(&self) -> u64 {
        self.ttl_ns
    }

    /// Lifetime of a nonce in milliseconds.
    pub closed spec fn ttl_millis(&self) -> u64 {
        self.ttl_ms
    }

    /// The entry cap.
    pub closed spec fn capacity(&self) -> nat {
        self.max_entries as nat
    }

    /// Well-formedness: a finite map within a cap of at least one entry.
    pub closed spec fn wf(&self) -> bool {
        &&& self.entries.wf()
        &&& self.max_entries >= 1
        &&& self.entries@.dom().finite()
        &&& self.entries@.len() <= self.max_entries
    }

    /// The hard cap: a well-formed store holds a finite map of at most `capacity()` entries,
    /// and the cap is at least one.
    pub proof fn lemma_within_capacity(&self)
        requires
            self.wf(),
        ensures
            self@.dom().finite(),
            self@.len() <= self.capacity(),
            self.capacity() >= 1,
    {
    }

    /// Creates a store whose nonces live `ttl_secs` seconds, holding at most `max_entries`
    /// entries (at least one).
    pub fn new(ttl_secs: u64, max_entries: usize) -> (s: Self)
        ensures
            s.wf(),
            s@ == NonceMap::empty(),
            s.ttl_nanos() == sat_mul(ttl_secs, NANOS_PER_SEC),
            s.ttl_millis() == sat_mul(ttl_secs, MILLIS_PER_SEC),
            s.capacity() == (if max_entries >= 1 { max_entries as nat } else { 1 }),
    {
        let entries = KeyedTable::new();
        proof {
            entries.lemma_view();
        }
        InMemoryNonceStore {
            ttl_ns: saturating_mul(ttl_secs, NANOS_PER_SEC),
            ttl_ms: saturating_mul(ttl_secs, MILLIS_PER_SEC),
            max_entries: if max_entries >= 1 { max_entries } else { 1 },
            entries,
            origin: monotonic_now(),
        }
    }

    /// Number of tracked entries.
    pub fn len(&self) -> (n: usize)
        requires
            self.wf(),
        ensures
            n == self@.len(),
    {
        self.entries.len()
    }

    /// Drops the entries that are expired at `now`.
    pub fn prune_at(&mut self, now: u64)
        requires
            old(self).wf(),
        ensures
            final(self).wf(),
            final(self)@ == live_entries(old(self)@, now),
            final(self).ttl_nanos() == old(self).ttl_nanos(),
            final(self).ttl_millis() == old(self).ttl_millis(),
            final(self).capacity() == old(self).capacity(),
    {
        let n = self.entries.len();
        let mut keep: Vec<bool> = Vec::new();
        let mut i: usize = 0;
        while i < n
            invariant
                n == self.entries.slots().len(),
                i <= n,
                keep@.len() == i,
                forall|j: int| 0 <= j < i ==> #[trigger] keep@[j] == (self.entries.slots()[j].1.expiry > now),
            decreases n - i,
        {
            let e = self.entries.value_at(i);
            keep.push(e.expiry > now);
            i = i + 1;
        }
        let ghost pred = |e: NonceEntry| e.expiry > now;
        self.entries.retain_marked(&keep, Ghost(pred));
        proof {
            lemma_keep_matching_len(old(self)@, pred);
            assert(self.entries@ == live_entries(old(self)@, now));
        }
    }

    /// Drops the entries that are expired now.
    pub fn prune(&mut self)
        requires
            old(self).wf(),
        ensures
            final(self).wf(),
            exists|now: u64| final(self)@ == live_entries(old(self)@, now),
            final(self).ttl_nanos() == old(self).ttl_nanos(),
            final(self).ttl_millis() == old(self).ttl_millis(),
            final(self).capacity() == old(self).capacity(),
    {
        let now = nanos_since(&self.origin);
        self.prune_at(now);
    }

    /// Stores `nonce` as issued at `now` (monotonic) and `unix_now_ms` (wall clock); returns
    /// the nonce and its Unix expiry in milliseconds. Expired entries go first; if the store is
    /// still full, a soonest-to-expire entry is evicted.
    pub fn insert_at(&mut self, nonce: String, now: u64, unix_now_ms: u64) -> (r: (String, u64))
        requires
            old(self).wf(),
        ensures
            final(self).wf(),
            r.0@ == nonce@,
            r.1 == sat_add(unix_now_ms, old(self).ttl_millis()),
            final(self)@.contains_key(nonce@),
            final(self)@[nonce@] == fresh_entry(now, old(self).ttl_nanos()),
            final(self)@.len() <= final(self).capacity(),
            insert_outcome(
                old(self)@,
                old(self).capacity(),
                nonce@,
                fresh_entry(now, old(self).ttl_nanos()),
                now,
                final(self)@,
            ),
            final(self).ttl_nanos() == old(self).ttl_nanos(),
            final(self).ttl_millis() == old(self).ttl_millis(),
            final(self).capacity() == old(self).capacity(),
    {
        let ghost m0 = self@;
        let entry = NonceEntry { expiry: now.saturating_add(self.ttl_ns), used: false };
        self.prune_at(now);
        let ghost live = self@;
        let n = self.entries.len();
        if n >= self.max_entries {
            let mut best: usize = 0;
            let mut i: usize = 1;
            while i < n
                invariant
                    n == self.entries.slots().len(),
                    n >= 1,
                    best < n,
                    1 <= i <= n,
                    forall|j: int|
                        0 <= j < i ==> self.entries.slots()[best as int].1.expiry
                            <= #[trigger] self.entries.slots()[j].1.expiry,
                decreases n - i,
            {
                if self.entries.value_at(i).expiry < self.entries.value_at(best).expiry {
                    best = i;
                }
                i = i + 1;
            }
            let ghost k = self.entries.slots()[best as int].0;
            proof {
                self.entries.lemma_view();
                assert forall|j: Seq<char>| #[trigger] live.contains_key(j) implies live[k].expiry
                    <= live[j].expiry by {
                    let jj = choose|jj: int|
                        0 <= jj < self.entries.slots().len() && self.entries.slots()[jj].0 == j;
                    assert(self.entries@[self.entries.slots()[jj].0] == self.entries.slots()[jj].1);
                }
                assert(self.entries@[self.entries.slots()[best as int].0]
                    == self.entries.slots()[best as int].1);
                assert(soonest_to_expire(live, k));
            }
            self.entries.remove_at(best);
            let key = nonce.clone();
            self.entries.insert(key, entry);
            proof {
                self.entries.lemma_view();
                assert(self@ == live.remove(k).insert(nonce@, entry));
            }
        } else {
            let key = nonce.clone();
            self.entries.insert(key, entry);
            proof {
                self.entries.lemma_view();
            }
        }
        let expires_at = unix_now_ms.saturating_add(self.ttl_ms);
        (nonce, expires_at)
    }

    /// Stores `nonce` as issued now; returns it with its Unix expiry in milliseconds, or `None`
    /// (storing nothing) where the wall clock stands before the Unix epoch.
    pub fn insert(&mut self, nonce: String) -> (r: Option<(String, u64)>)
        requires
            old(self).wf(),
        ensures
            final(self).wf(),
            r is None ==> final(self)@ == old(self)@,
            r matches Some(p) ==> p.0@ == nonce@ && exists|now: u64, unix_now_ms: u64|
                p.1 == sat_add(unix_now_ms, old(self).ttl_millis()) && insert_outcome(
                    old(self)@,
                    old(self).capacity(),
                    nonce@,
                    fresh_entry(now, old(self).ttl_nanos()),
                    now,
                    final(self)@,
                ),
            final(self).ttl_nanos() == old(self).ttl_nanos(),
            final(self).ttl_millis() == old(self).ttl_millis(),
            final(self).capacity() == old(self).capacity(),
    {
        let unix_now_ms = match now_ms() {
            Some(t) => t,
            None => {
                return None;
            },
        };
        let now = nanos_since(&self.origin);
        Some(self.insert_at(nonce, now, unix_now_ms))
    }

    /// Issues a fresh random nonce; returns it with its Unix expiry in milliseconds, or `None`
    /// (storing nothing) where randomness or the wall clock is unavailable.
    pub fn issue(&mut self) -> (r: Option<(String, u64)>)
        requires
            old(self).wf(),
        ensures
            final(self).wf(),
            r is None ==> final(self)@ == old(self)@,
            r matches Some(p) ==> p.0@.len() == 2 * NONCE_BYTES && (forall|i: int|
                0 <= i < p.0@.len() ==> is_lower_hex_char(#[trigger] p.0@[i])) && exists|
                now: u64,
                unix_now_ms: u64,
            |
                p.1 == sat_add(unix_now_ms, old(self).ttl_millis()) && insert_outcome(
                    old(self)@,
                    old(self).capacity(),
                    p.0@,
                    fresh_entry(now, old(self).ttl_nanos()),
                    now,
                    final(self)@,
                ),
            final(self).ttl_nanos() == old(self).ttl_nanos(),
            final(self).ttl_millis() == old(self).ttl_millis(),
            final(self).capacity() == old(self).capacity(),
    {
        match random_nonce() {
            Some(nonce) => self.insert(nonce),
            None => None,
        }
    }

    /// Consumes `nonce` at `now`: true iff it was present, unexpired and unused; a valid
    /// nonce is marked used.
    pub fn take_if_valid_at(&mut self, nonce: &str, now: u64) -> (ok: bool)
        requires
            old(self).wf(),
        ensures
            final(self).wf(),
            ok == nonce_valid_at(old(self)@, nonce@, now),
            final(self)@ == after_take(old(self)@, nonce@, now),
            final(self).ttl_nanos() == old(self).ttl_nanos(),
            final(self).ttl_millis() == old(self).ttl_millis(),
            final(self).capacity() == old(self).capacity(),
    {
        proof {
            self.entries.lemma_view();
        }
        let key = nonce.to_owned();
        match self.entries.find(&key) {
            Some(i) => {
                let e = self.entries.value_at(i);
                proof {
                    assert(self.entries@[self.entries.slots()[i as int].0] == self.entries.slots()[i as int].1);
                }
                if !e.used && e.expiry > now {
                    self.entries.set_at(i, NonceEntry { expiry: e.expiry, used: true });
                    proof {
                        self.entries.lemma_view();
                    }
                    true
                } else {
                    false
                }
            },
            None => false,
        }
    }

    /// Consumes `nonce` now: true iff it was present, unexpired and unused; a valid nonce is
    /// marked used.
    pub fn take_if_valid(&mut self, nonce: &str) -> (ok: bool)
        requires
            old(self).wf(),
        ensures
            final(self).wf(),
            exists|now: u64|
                ok == nonce_valid_at(old(self)@, nonce@, now) && final(self)@ == after_take(
                    old(self)@,
                    nonce@,
                    now,
                ),
            final(self).ttl_nanos() == old(self).ttl_nanos(),
            final(self).ttl_millis() == old(self).ttl_millis(),
            final(self).capacity() == old(self).capacity(),
    {
        let now = nanos_since(&self.origin);
        self.take_if_valid_at(nonce, now)
    }
}


/// A nonce is consumed at most once: once a take of `nonce` at `t1` has succeeded, no later
/// take of it succeeds, whatever its time.
pub proof fn law_nonce_single_use(m: NonceMap, nonce: Seq<char>, t1: u64, t2: u64)
    requires
        nonce_valid_at(m, nonce, t1),
    ensures
        !nonce_valid_at(after_take(m, nonce, t1), nonce, t2),
        after_take(after_take(m, nonce, t1), nonce, t2) == after_take(m, nonce, t1),
{
}

/// The answers of successive takes of `nonce` at `times`, starting from `m`.
pub open spec fn run_takes(m: NonceMap, nonce: Seq<char>, times: Seq<u64>) -> (NonceMap, Seq<bool>)
    decreases times.len(),
{
    if times.len() == 0 {
        (m, Seq::empty())
    } else {
        let (m1, r1) = run_takes(m, nonce, times.drop_last());
        (after_take(m1, nonce, times.last()), r1.push(nonce_valid_at(m1, nonce, times.last())))
    }
}

/// How many of `answers` are true.
pub open spec fn count_true(answers: Seq<bool>) -> nat
    decreases answers.len(),
{
    if answers.len() == 0 {
        0
    } else {
        count_true(answers.drop_last()) + if answers.last() { 1nat } else { 0 }
    }
}

proof fn lemma_run_takes(m: NonceMap, nonce: Seq<char>, times: Seq<u64>)
    ensures
        run_takes(m, nonce, times).1.len() == times.len(),
        count_true(run_takes(m, nonce, times).1) <= 1,
        count_true(run_takes(m, nonce, times).1) == 1 ==> run_takes(m, nonce, times).0.contains_key(nonce)
            && run_takes(m, nonce, times).0[nonce].used,
        m.contains_key(nonce) && m[nonce].used ==> count_true(run_takes(m, nonce, times).1) == 0,
        m.contains_key(nonce) && m[nonce].used ==> run_takes(m, nonce, times).0 == m,
        !m.contains_key(nonce) ==> count_true(run_takes(m, nonce, times).1) == 0 && run_takes(m, nonce, times).0 == m,
        count_true(run_takes(m, nonce, times).1) == 0 ==> run_takes(m, nonce, times).0 == m,
    decreases times.len(),
{
    if times.len() > 0 {
        let p = times.drop_last();
        lemma_run_takes(m, nonce, p);
        let (m1, r1) = run_takes(m, nonce, p);
        let r = run_takes(m, nonce, times).1;
        assert(r.drop_last() =~= r1);
    }
}

/// Serialised takes of one nonce, in any number and at any times, succeed at most once, and
/// once one has succeeded every later take fails. (Concurrent callers reach the store one at
/// a time.)
pub proof fn law_at_most_one_take(m: NonceMap, nonce: Seq<char>, times: Seq<u64>)
    ensures
        count_true(run_takes(m, nonce, times).1) <= 1,
        forall|i: int, j: int|
            0 <= i < j < times.len() && #[trigger] run_takes(m, nonce, times).1[i] ==> !#[trigger] run_takes(
                m,
                nonce,
                times,
            ).1[j],
    decreases times.len(),
{
    lemma_run_takes(m, nonce, times);
    if times.len() > 0 {
        let p = times.drop_last();
        law_at_most_one_take(m, nonce, p);
        lemma_run_takes(m, nonce, p);
        let (m1, r1) = run_takes(m, nonce, p);
        let r = run_takes(m, nonce, times).1;
        assert(r.drop_last() =~= r1);
        assert forall|i: int, j: int|
            0 <= i < j < times.len() && #[trigger] r[i] implies !#[trigger] r[j] by {
            if j < p.len() {
                assert(r[i] == r1[i] && r[j] == r1[j]);
            } else {
                assert(r1[i]);
                lemma_true_counted(r1, i);
            }
        }
    }
}

proof fn lemma_true_counted(answers: Seq<bool>, i: int)
    requires
        0 <= i < answers.len(),
        answers[i],
    ensures
        count_true(answers) >= 1,
    decreases answers.len(),
{
    if i < answers.len() - 1 {
        lemma_true_counted(answers.drop_last(), i);
    }
}

/// A nonce that was never stored is rejected, and the attempt changes nothing.
pub proof fn law_unknown_nonce_rejected(m: NonceMap, nonce: Seq<char>, now: u64)
    requires
        !m.contains_key(nonce),
    ensures
        !nonce_valid_at(m, nonce, now),
        after_take(m, nonce, now) == m,
{
}

/// A rejected take changes nothing, and a take never touches another nonce's entry.
pub proof fn law_take_is_local(m: NonceMap, nonce: Seq<char>, now: u64, other: Seq<char>)
    requires
        other != nonce,
    ensures
        !nonce_valid_at(m, nonce, now) ==> after_take(m, nonce, now) == m,
        after_take(m, nonce, now).contains_key(other) == m.contains_key(other),
        m.contains_key(other) ==> after_take(m, nonce, now)[other] == m[other],
{
}

/// A freshly issued nonce can be consumed at any time before its lifetime has passed.
pub proof fn law_fresh_nonce_valid_until_expiry(
    m: NonceMap,
    cap: nat,
    nonce: Seq<char>,
    now: u64,
    ttl_ns: u64,
    result: NonceMap,
    t: u64,
)
    requires
        insert_outcome(m, cap, nonce, fresh_entry(now, ttl_ns), now, result),
        t < sat_add(now, ttl_ns),
    ensures
        nonce_valid_at(result, nonce, t),
{
    let live = live_entries(m, now);
    if live.len() >= cap {
        let k = choose|k: Seq<char>|
            soonest_to_expire(live, k) && result == live.remove(k).insert(
                nonce,
                fresh_entry(now, ttl_ns),
            );
        assert(result[nonce] == fresh_entry(now, ttl_ns));
    }
}

/// What an issue keeps: the new nonce is stored with its fresh entry; every other entry that
/// remains was in the store, unexpired at `now`, and is unchanged; and an unexpired entry that
/// expires strictly later than some other unexpired entry is never the one evicted. So when
/// the store is full, only a soonest-to-expire entry can make room.
pub proof fn law_issue_evicts_only_soonest_to_expire(
    m: NonceMap,
    cap: nat,
    nonce: Seq<char>,
    entry: NonceEntry,
    now: u64,
    result: NonceMap,
)
    requires
        insert_outcome(m, cap, nonce, entry, now, result),
    ensures
        result.contains_key(nonce) && result[nonce] == entry,
        forall|j: Seq<char>|
            j != nonce && #[trigger] result.contains_key(j) ==> m.contains_key(j) && m[j].expiry > now
                && result[j] == m[j],
        forall|i: Seq<char>, j: Seq<char>|
            j != nonce && #[trigger] m.contains_key(i) && #[trigger] m.contains_key(j) && m[i].expiry > now
                && m[j].expiry > now && m[i].expiry < m[j].expiry ==> result.contains_key(j) && result[j]
                == m[j],
{
    let live = live_entries(m, now);
    assert forall|j: Seq<char>| #[trigger] live.contains_key(j) <==> (m.contains_key(j) && m[j].expiry > now) by {}
    if live.len() >= cap {
        let k = choose|k: Seq<char>|
            soonest_to_expire(live, k) && result == live.remove(k).insert(nonce, entry);
        assert forall|i: Seq<char>, j: Seq<char>|
            j != nonce && #[trigger] m.contains_key(i) && #[trigger] m.contains_key(j) && m[i].expiry > now
                && m[j].expiry > now && m[i].expiry < m[j].expiry implies result.contains_key(j) && result[j]
                == m[j] by {
            assert(live.contains_key(i) && live.contains_key(j));
            assert(live[k].expiry <= live[i].expiry);
            assert(k != j);
        }
    }
}

/// With a lifetime of zero a nonce is expired as soon as it is issued.
pub proof fn law_zero_ttl_expires_immediately(
    m: NonceMap,
    cap: nat,
    nonce: Seq<char>,
    now: u64,
    result: NonceMap,
    t: u64,
)
    requires
        insert_outcome(m, cap, nonce, fresh_entry(now, 0), now, result),
        now <= t,
    ensures
        !nonce_valid_at(result, nonce, t),
{
    let live = live_entries(m, now);
    if live.len() >= cap {
        let k = choose|k: Seq<char>|
            soonest_to_expire(live, k) && result == live.remove(k).insert(
                nonce,
                fresh_entry(now, 0),
            );
        assert(result[nonce] == fresh_entry(now, 0));
    }
}

/// The hard cap: issuing into a store within its cap of at least one entry leaves it within
/// the cap, whatever the issue rate.
pub proof fn law_issue_respects_cap(
    m: NonceMap,
    cap: nat,
    nonce: Seq<char>,
    entry: NonceEntry,
    now: u64,
    result: NonceMap,
)
    requires
        m.dom().finite(),
        m.len() <= cap,
        cap >= 1,
        insert_outcome(m, cap, nonce, entry, now, result),
    ensures
        result.dom().finite(),
        result.len() <= cap,
{
    let live = live_entries(m, now);
    lemma_keep_matching_len(m, |e: NonceEntry| e.expiry > now);
    if live.len() >= cap {
        let k = choose|k: Seq<char>|
            soonest_to_expire(live, k) && result == live.remove(k).insert(nonce, entry);
        assert(live.remove(k).len() == live.len() - 1);
    }
}

/// Pruning keeps exactly the entries unexpired at `now`, unchanged, and pruning twice at the
/// same time is pruning once.
pub proof fn law_prune_keeps_exactly_live(m: NonceMap, now: u64, k: Seq<char>)
    ensures
        live_entries(m, now).contains_key(k) == (m.contains_key(k) && m[k].expiry > now),
        live_entries(m, now).contains_key(k) ==> live_entries(m, now)[k] == m[k],
        live_entries(live_entries(m, now), now) == live_entries(m, now),
{
    assert(live_entries(live_entries(m, now), now) =~= live_entries(m, now));
}

/// Key prefix of every nonce in the shared Redis-protocol store.
pub const REDIS_NONCE_PREFIX: &'static str = "nftgate:nonce:";

/// What a `GETDEL` of a nonce key answered.
#[derive(Clone, Copy, Debug, PartialEq, Eq)]
pub enum GetDelReply {
    /// The key held a value (now deleted).
    Value,
    /// The key was missing or expired.
    Missing,
    /// The command failed.
    Failed,
}

/// The layout of nonces in the shared Redis-protocol store: a key prefix and a key TTL.
pub struct RedisNonceLayout {
    /// Key TTL in milliseconds (`SET … PX`).
    ttl_ms: u64,
}

impl RedisNonceLayout {
    /// The key TTL in milliseconds.
    pub closed spec fn ttl_millis(&self) -> u64 {
        self.ttl_ms
    }

    /// The layout for nonces that live `ttl_secs` seconds.
    pub fn new(ttl_secs: u64) -> (l: Self)
        ensures
            l.ttl_millis() == sat_mul(ttl_secs, MILLIS_PER_SEC),
    {
        RedisNonceLayout { ttl_ms: saturating_mul(ttl_secs, MILLIS_PER_SEC) }
    }

    /// The key TTL in milliseconds.
    pub fn ttl_ms(&self) -> (t: u64)
        ensures
            t == self.ttl_millis(),
    {
        self.ttl_ms
    }

    /// The full key for `nonce`.
    pub fn key(&self, nonce: &str) -> (k: String)
        ensures
            k@ == REDIS_NONCE_PREFIX@ + nonce@,
    {
        let mut k = REDIS_NONCE_PREFIX.to_owned();
        k.append(nonce);
        k
    }

    /// The Unix expiry (milliseconds) reported for a nonce stored at `unix_now_ms`.
    pub fn expires_at(&self, unix_now_ms: u64) -> (t: u64)
        ensures
            t == sat_add(unix_now_ms, self.ttl_millis()),
    {
        unix_now_ms.saturating_add(self.ttl_ms)
    }

    /// The Unix expiry (milliseconds) reported for a nonce stored now; `None` where the wall
    /// clock stands before the Unix epoch.
    pub fn expires_now(&self) -> (t: Option<u64>)
        ensures
            t matches Some(x) ==> exists|unix_now_ms: u64| x == sat_add(unix_now_ms, self.ttl_millis()),
    {
        match now_ms() {
            Some(u) => Some(self.expires_at(u)),
            None => None,
        }
    }

    /// Whether a `GETDEL` reply consumes the nonce: only a present value does; a missing key
    /// and a failed command both reject (the store fails closed).
    pub fn consumed(reply: GetDelReply) -> (ok: bool)
        ensures
            ok == (reply == GetDelReply::Value),
    {
        match reply {
            GetDelReply::Value => true,
            GetDelReply::Missing => false,
            GetDelReply::Failed => false,
        }
    }
}

} // verus!
