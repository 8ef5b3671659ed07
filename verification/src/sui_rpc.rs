//! The decisions taken on Sui JSON-RPC replies: whether an owned-objects page grants access,
//! whether consume events and a consume transaction match a challenge, the event type to
//! query, and the optional ownership cache. The RPC round-trips lie outside the library; the
//! replies reach it as the plain records below.
use crate::challenge::sat_add;
use crate::challenge::sat_mul;
use crate::challenge::saturating_mul;
use crate::clock::monotonic_now;
use crate::clock::nanos_since;
use crate::encoding::base64_decode_standard;
use crate::encoding::base64_standard_decoding;
use crate::table::KeyedTable;
use crate::text::ends_with;
use crate::text::is_suffix_of;
use crate::text::text_eq;
use std::time::Instant;
use vstd::prelude::*;
use vstd::string::StringSliceAdditionalSpecFns;

verus! {

/// Nanoseconds per millisecond.
pub const NANOS_PER_MILLI: u64 = 1_000_000;

/// Type suffix of the on-chain consume event.
pub const CONSUMED_EVENT_SUFFIX: &'static str = "::access_gate::AccessConsumedEvent";

/// An optional string slice taken by its view.
pub open spec fn opt_view(o: Option<&str>) -> Option<Seq<char>> {
    match o {
        Some(s) => Some(s@),
        None => None,
    }
}

/// `s` holds the module separator `::` at `i`.
pub open spec fn separator_at(s: Seq<char>, i: int) -> bool {
    0 <= i && i + 1 < s.len() && s[i] == ':' && s[i + 1] == ':'
}

/// Index of the first `::` in `s` at or after `i`, or the length of `s` if there is none.
pub open spec fn first_separator_from(s: Seq<char>, i: int) -> int
    decreases s.len() - i,
{
    if i < 0 || i + 1 >= s.len() {
        s.len() as int
    } else if s[i] == ':' && s[i + 1] == ':' {
        i
    } else {
        first_separator_from(s, i + 1)
    }
}

/// The package id of a `<pkg>::module::Type` string: the text before its first `::` (all of
/// it when there is none).
pub open spec fn package_prefix(s: Seq<char>) -> Seq<char> {
    s.subrange(0, first_separator_from(s, 0))
}

/// The ownership-cache key of a query: `address|nft_type|gate_id`, with `-` for no gate.
pub open spec fn ownership_cache_key(address: Seq<char>, nft_type: Seq<char>, gate_id: Option<Seq<char>>) -> Seq<char> {
    address + "|"@ + nft_type + "|"@ + match gate_id {
        Some(g) => g,
        None => "-"@,
    }
}

/// The nonce field of an event as the RPC renders it.
#[derive(Clone, Debug)]
pub enum EventNonce {
    /// An array; each element as an unsigned 64-bit number, `None` where it is not one.
    Numbers(Vec<Option<u64>>),
    /// A string (base64 of the nonce bytes).
    Text(String),
    /// Any other JSON value.
    Other,
}

/// The fields of a Sui event that the checks read; `None` where a field is missing or not a
/// string.
#[derive(Clone, Debug)]
pub struct ChainEvent {
    /// `type`.
    pub event_type: Option<String>,
    /// `sender`.
    pub sender: Option<String>,
    /// `parsedJson.nonce`.
    pub nonce: Option<EventNonce>,
    /// `parsedJson.gate_id`.
    pub gate_id: Option<String>,
}

/// The fields of a `sui_getTransactionBlock` reply that the consume check reads.
#[derive(Clone, Debug)]
pub struct TransactionReport {
    /// `effects.status.status`, where it is a string.
    pub status: Option<String>,
    /// `events` (empty where missing).
    pub events: Vec<ChainEvent>,
}

/// The event's type names an `access_gate::AccessConsumedEvent`.
pub open spec fn is_consumed_event_spec(ev: ChainEvent) -> bool {
    match ev.event_type {
        Some(t) => is_suffix_of(CONSUMED_EVENT_SUFFIX@, t@),
        None => false,
    }
}

/// The rendered event nonce stands for the nonce bytes `nonce`: an array of exactly those
/// byte values, or base64 text that decodes to them.
pub open spec fn nonce_matches_spec(en: EventNonce, nonce: Seq<u8>) -> bool {
    match en {
        EventNonce::Numbers(v) => v@.len() == nonce.len() && forall|i: int|
            0 <= i < nonce.len() ==> #[trigger] v@[i] == Some(nonce[i] as u64),
        EventNonce::Text(t) => base64_standard_decoding(t@) == Some(nonce),
        EventNonce::Other => false,
    }
}

/// An event matches a challenge: its sender is `address`, its nonce stands for `nonce`, and,
/// where a gate is given, its gate id is that gate.
pub open spec fn event_matches_spec(ev: ChainEvent, nonce: Seq<u8>, address: Seq<char>, gate_id: Option<Seq<char>>) -> bool {
    &&& match ev.sender {
        Some(s) => s@ == address,
        None => false,
    }
    &&& match ev.nonce {
        Some(n) => nonce_matches_spec(n, nonce),
        None => false,
    }
    &&& match gate_id {
        Some(g) => match ev.gate_id {
            Some(x) => x@ == g,
            None => false,
        },
        None => true,
    }
}

/// Some event in `events` matches the challenge.
pub open spec fn some_event_matches(events: Seq<ChainEvent>, nonce: Seq<u8>, address: Seq<char>, gate_id: Option<Seq<char>>) -> bool {
    exists|i: int| 0 <= i < events.len() && event_matches_spec(#[trigger] events[i], nonce, address, gate_id)
}

/// A transaction confirms the consume: it succeeded and emitted a matching consume event.
pub open spec fn transaction_confirms_spec(tx: TransactionReport, nonce: Seq<u8>, address: Seq<char>, gate_id: Option<Seq<char>>) -> bool {
    &&& match tx.status {
        Some(s) => s@ == "success"@,
        None => false,
    }
    &&& exists|i: int|
        0 <= i < tx.events@.len() && is_consumed_event_spec(#[trigger] tx.events@[i])
            && event_matches_spec(tx.events@[i], nonce, address, gate_id)
}

/// An owned-objects page grants access: without a gate, any object of the type does; with
/// one, an object bound to that gate is needed. `gate_ids` holds each object's gate id.
pub open spec fn owned_objects_grant_spec(gate_ids: Seq<Option<String>>, gate_id: Option<Seq<char>>) -> bool {
    match gate_id {
        None => gate_ids.len() > 0,
        Some(g) => exists|i: int|
            0 <= i < gate_ids.len() && match #[trigger] gate_ids[i] {
                Some(x) => x@ == g,
                None => false,
            },
    }
}

/// True if the event's type is an `access_gate::AccessConsumedEvent`.
pub fn is_consumed_event(ev: &ChainEvent) -> (b: bool)
    ensures
        b == is_consumed_event_spec(*ev),
{
    match &ev.event_type {
        Some(t) => ends_with(t.as_str(), CONSUMED_EVENT_SUFFIX),
        None => false,
    }
}

#[verifier::loop_isolation(false)]
/// Whether a rendered event nonce stands for the UTF-8 bytes of `nonce`: usually an array of
/// byte numbers, sometimes base64 text.
pub fn nonce_matches(event_nonce: &EventNonce, nonce: &str) -> (b: bool)
    ensures
        b == nonce_matches_spec(*event_nonce, nonce.spec_bytes()),
{
    let want = nonce.as_bytes();
    match event_nonce {
        EventNonce::Numbers(arr) => {
            if arr.len() != want.len() {
                return false;
            }
            let mut i: usize = 0;
            while i < arr.len()
                invariant
                    arr@.len() == want@.len(),
                    want@ == nonce.spec_bytes(),
                    i <= arr@.len(),
                    forall|j: int| 0 <= j < i ==> #[trigger] arr@[j] == Some(want@[j] as u64),
                decreases arr@.len() - i,
            {
                match arr[i] {
                    Some(a) => {
                        if a != want[i] as u64 {
                            assert(arr@[i as int] != Some(nonce.spec_bytes()[i as int] as u64));
                            return false;
                        }
                    },
                    None => {
                        assert(arr@[i as int] != Some(nonce.spec_bytes()[i as int] as u64));
                        return false;
                    },
                }
                i = i + 1;
            }
            true
        },
        EventNonce::Text(s) => match base64_decode_standard(s.as_str()) {
            Ok(d) => {
                if d.len() != want.len() {
                    return false;
                }
                let mut i: usize = 0;
                while i < d.len()
                    invariant
                        d@.len() == want@.len(),
                        i <= d@.len(),
                        forall|j: int| 0 <= j < i ==> d@[j] == want@[j],
                    decreases d@.len() - i,
                {
                    if d[i] != want[i] {
                        assert(d@ != want@) by {
                            assert(d@[i as int] != want@[i as int]);
                        }
                        return false;
                    }
                    i = i + 1;
                }
                assert(d@ =~= want@);
                true
            },
            Err(_) => false,
        },
        EventNonce::Other => false,
    }
}

/// Does a single event match this challenge: sender is `address`, nonce matches, and (if
/// given) gate id matches.
pub fn event_matches(ev: &ChainEvent, nonce: &str, address: &str, gate_id: Option<&str>) -> (b: bool)
    ensures
        b == event_matches_spec(*ev, nonce.spec_bytes(), address@, opt_view(gate_id)),
{
    let sender_ok = match &ev.sender {
        Some(s) => text_eq(s.as_str(), address),
        None => false,
    };
    let nonce_ok = match &ev.nonce {
        Some(n) => nonce_matches(n, nonce),
        None => false,
    };
    let gate_ok = match gate_id {
        Some(g) => match &ev.gate_id {
            Some(x) => text_eq(x.as_str(), g),
            None => false,
        },
        None => true,
    };
    sender_ok && nonce_ok && gate_ok
}

#[verifier::loop_isolation(false)]
/// Whether the caller holds a qualifying NFT. `gate_ids` lists, for every owned object of
/// the NFT type, its gate id (`None` where it is bound to none).
pub fn owned_objects_grant_access(gate_ids: &Vec<Option<String>>, gate_id: Option<&str>) -> (b: bool)
    ensures
        b == owned_objects_grant_spec(gate_ids@, opt_view(gate_id)),
{
    match gate_id {
        None => gate_ids.len() > 0,
        Some(want) => {
            let mut i: usize = 0;
            while i < gate_ids.len()
                invariant
                    i <= gate_ids@.len(),
                    forall|j: int|
                        0 <= j < i ==> !(match #[trigger] gate_ids@[j] {
                            Some(x) => x@ == want@,
                            None => false,
                        }),
                decreases gate_ids@.len() - i,
            {
                match &gate_ids[i] {
                    Some(x) => {
                        if text_eq(x.as_str(), want) {
                            assert(match gate_ids@[i as int] {
                                Some(x) => x@ == want@,
                                None => false,
                            });
                            return true;
                        }
                    },
                    None => {},
                }
                i = i + 1;
            }
            false
        },
    }
}

/// Whether some event in `events` matches the challenge.
pub fn any_event_matches(events: &Vec<ChainEvent>, nonce: &str, address: &str, gate_id: Option<&str>) -> (b: bool)
    ensures
        b == some_event_matches(events@, nonce.spec_bytes(), address@, opt_view(gate_id)),
{
    let mut i: usize = 0;
    while i < events.len()
        invariant
            i <= events@.len(),
            forall|j: int|
                0 <= j < i ==> !event_matches_spec(#[trigger] events@[j], nonce.spec_bytes(), address@, opt_view(gate_id)),
        decreases events@.len() - i,
    {
        if event_matches(&events[i], nonce, address, gate_id) {
            return true;
        }
        i = i + 1;
    }
    false
}

#[verifier::loop_isolation(false)]
/// Whether the consume transaction confirms the challenge: it must have succeeded and emitted
/// a consume event that matches the nonce, the address and, where one is set, its gate id.
pub fn transaction_confirms_consume(tx: &TransactionReport, nonce: &str, address: &str, gate_id: Option<&str>) -> (b: bool)
    ensures
        b == transaction_confirms_spec(*tx, nonce.spec_bytes(), address@, opt_view(gate_id)),
{
    let status_ok = match &tx.status {
        Some(s) => text_eq(s.as_str(), "success"),
        None => false,
    };
    if !status_ok {
        return false;
    }
    let mut i: usize = 0;
    while i < tx.events.len()
        invariant
            i <= tx.events@.len(),
            forall|j: int|
                0 <= j < i ==> !(is_consumed_event_spec(#[trigger] tx.events@[j]) && event_matches_spec(
                    tx.events@[j],
                    nonce.spec_bytes(),
                    address@,
                    opt_view(gate_id),
                )),
        decreases tx.events@.len() - i,
    {
        let ev = &tx.events[i];
        if is_consumed_event(ev) && event_matches(ev, nonce, address, gate_id) {
            assert(is_consumed_event_spec(tx.events@[i as int]));
            return true;
        }
        i = i + 1;
    }
    false
}


/// The event type to query for consume events of `nft_type`: its package id followed by
/// `::access_gate::AccessConsumedEvent`.
pub fn consumed_event_type(nft_type: &str) -> (t: String)
    ensures
        t@ == package_prefix(nft_type@) + CONSUMED_EVENT_SUFFIX@,
{
    let pkg = match SuiRpc::package_of(nft_type) {
        Some(p) => p,
        None => nft_type,
    };
    let mut t = pkg.to_owned();
    t.append(CONSUMED_EVENT_SUFFIX);
    t
}

/// What the consume check does next after the event query.
#[derive(Clone, Debug, PartialEq, Eq)]
pub enum ConsumeStep {
    /// The check is decided with this answer.
    Decided(bool),
    /// A matching event was found; the transaction with this digest must confirm it too.
    VerifyTransaction(String),
}

/// The consume check after the event query: no matching event rejects; a match is enough
/// when no consume digest was supplied, and otherwise that transaction must be verified.
pub fn consume_events_step(
    events: &Vec<ChainEvent>,
    nonce: &str,
    address: &str,
    gate_id: Option<&str>,
    consume_digest: Option<&str>,
) -> (step: ConsumeStep)
    ensures
        !some_event_matches(events@, nonce.spec_bytes(), address@, opt_view(gate_id)) ==> step
            == ConsumeStep::Decided(false),
        some_event_matches(events@, nonce.spec_bytes(), address@, opt_view(gate_id)) ==> match consume_digest {
            Some(d) => step matches ConsumeStep::VerifyTransaction(x) && x@ == d@,
            None => step == ConsumeStep::Decided(true),
        },
{
    if !any_event_matches(events, nonce, address, gate_id) {
        return ConsumeStep::Decided(false);
    }
    match consume_digest {
        Some(d) => ConsumeStep::VerifyTransaction(d.to_owned()),
        None => ConsumeStep::Decided(true),
    }
}

/// A cached ownership answer.
#[derive(Clone, Copy, Debug, PartialEq, Eq)]
pub struct CachedOwnership {
    /// Whether the address owned the NFT when queried.
    pub owns: bool,
    /// Expiry on the client's monotonic clock (nanoseconds).
    pub expiry: u64,
}

/// The ownership cache: cache key text to its answer.
pub type OwnershipMap = Map<Seq<char>, CachedOwnership>;

/// What an ownership check does first.
#[derive(Clone, Debug, PartialEq, Eq)]
pub enum OwnershipStep {
    /// A fresh cached answer.
    Known(bool),
    /// The chain must be queried; the answer is then recorded under this key, if any.
    Query(Option<String>),
}

/// An optional `String` taken by its view.
pub open spec fn opt_string_view(o: Option<String>) -> Option<Seq<char>> {
    match o {
        Some(s) => Some(s@),
        None => None,
    }
}

/// `step` is the right first step of an ownership check for cache key `key` at `now`: with
/// the cache off (`ttl` 0) query without recording; with a fresh cached entry, its answer;
/// otherwise query and record under `key`.
pub open spec fn ownership_step_fits(m: OwnershipMap, ttl: u64, key: Seq<char>, now: u64, step: OwnershipStep) -> bool {
    if ttl == 0 {
        step == OwnershipStep::Query(None)
    } else if m.contains_key(key) && m[key].expiry > now {
        step == OwnershipStep::Known(m[key].owns)
    } else {
        step matches OwnershipStep::Query(Some(k)) && k@ == key
    }
}

/// The cache after recording the answer `owns` at `now` under `key`, if there is one.
pub open spec fn after_record(m: OwnershipMap, key: Option<Seq<char>>, owns: bool, now: u64, ttl: u64) -> OwnershipMap {
    match key {
        Some(k) => m.insert(k, CachedOwnership { owns, expiry: sat_add(now, ttl) }),
        None => m,
    }
}

/// The Sui JSON-RPC client's state: the endpoint and the optional ownership cache.
pub struct SuiRpc {
    /// Sui JSON-RPC endpoint URL.
    rpc_url: String,
    /// Ownership-cache lifetime in nanoseconds; 0 disables the cache.
    cache_ttl_ns: u64,
    /// Cached ownership answers.
    cache: KeyedTable<CachedOwnership>,
    /// Origin of the client's monotonic clock.
    origin: Instant,
}

impl View for SuiRpc {
    type V = OwnershipMap;

    closed spec fn view(&self) -> OwnershipMap {
        self.cache@
    }
}

impl SuiRpc {
    /// The endpoint URL.
    pub closed spec fn url(&self) -> Seq<char> {
        self.rpc_url@
    }

    /// The cache lifetime in nanoseconds.
    pub closed spec fn cache_ttl_nanos(&self) -> u64 {
        self.cache_ttl_ns
    }

    /// Well-formedness of the cache table.
    pub closed spec fn wf(&self) -> bool {
        self.cache.wf()
    }

    /// A client for `rpc_url`; `cache_ttl_ms` of 0 disables the ownership cache (every check
    /// is live on-chain).
    pub fn new(rpc_url: String, cache_ttl_ms: u64) -> (r: Self)
        ensures
            r.wf(),
            r.url() == rpc_url@,
            r.cache_ttl_nanos() == sat_mul(cache_ttl_ms, NANOS_PER_MILLI),
            r@ == OwnershipMap::empty(),
    {
        SuiRpc {
            rpc_url,
            cache_ttl_ns: saturating_mul(cache_ttl_ms, NANOS_PER_MILLI),
            cache: KeyedTable::new(),
            origin: monotonic_now(),
        }
    }

    /// The endpoint URL.
    pub fn rpc_url(&self) -> (u: &str)
        ensures
            u@ == self.url(),
    {
        self.rpc_url.as_str()
    }

    /// The package id of a `<pkg>::module::Type` string: the text before the first `::`.
    pub fn package_of(nft_type: &str) -> (p: Option<&str>)
        ensures
            p matches Some(x) && x@ == package_prefix(nft_type@),
    {
        let n = nft_type.unicode_len();
        let mut i: usize = 0;
        while n > 0 && i < n - 1 && !(nft_type.get_char(i) == ':' && nft_type.get_char(i + 1) == ':')
            invariant
                n == nft_type@.len(),
                i <= n,
                first_separator_from(nft_type@, 0) == first_separator_from(nft_type@, i as int),
            decreases n - i,
        {
            i = i + 1;
        }
        let end = if n > 0 && i < n - 1 { i } else { n };
        Some(nft_type.substring_char(0, end))
    }

    /// A stable cache key from the three ownership-query parameters.
    pub fn cache_key(address: &str, nft_type: &str, gate_id: Option<&str>) -> (k: String)
        ensures
            k@ == ownership_cache_key(address@, nft_type@, opt_view(gate_id)),
    {
        let mut k = address.to_owned();
        k.append("|");
        k.append(nft_type);
        k.append("|");
        match gate_id {
            Some(g) => k.append(g),
            None => k.append("-"),
        }
        k
    }

    /// The first step of an ownership check at `now`: with the cache off, query; with it on,
    /// answer from a fresh cached entry, or query and record under the cache key.
    pub fn begin_ownership_check_at(&self, address: &str, nft_type: &str, gate_id: Option<&str>, now: u64) -> (step: OwnershipStep)
        requires
            self.wf(),
        ensures
            ownership_step_fits(
                self@,
                self.cache_ttl_nanos(),
                ownership_cache_key(address@, nft_type@, opt_view(gate_id)),
                now,
                step,
            ),
    {
        if self.cache_ttl_ns == 0 {
            return OwnershipStep::Query(None);
        }
        let key = Self::cache_key(address, nft_type, gate_id);
        match self.cache.get(&key) {
            Some(e) => {
                if e.expiry > now {
                    OwnershipStep::Known(e.owns)
                } else {
                    OwnershipStep::Query(Some(key))
                }
            },
            None => OwnershipStep::Query(Some(key)),
        }
    }

    /// The first step of an ownership check now.
    pub fn begin_ownership_check(&self, address: &str, nft_type: &str, gate_id: Option<&str>) -> (step: OwnershipStep)
        requires
            self.wf(),
        ensures
            exists|now: u64|
                ownership_step_fits(
                    self@,
                    self.cache_ttl_nanos(),
                    ownership_cache_key(address@, nft_type@, opt_view(gate_id)),
                    now,
                    step,
                ),
    {
        let now = nanos_since(&self.origin);
        self.begin_ownership_check_at(address, nft_type, gate_id, now)
    }

    /// Records the chain's answer `owns` at `now` under `cache_key`, if one was handed out.
    pub fn finish_ownership_check_at(&mut self, cache_key: Option<String>, owns: bool, now: u64)
        requires
            old(self).wf(),
        ensures
            final(self).wf(),
            final(self).url() == old(self).url(),
            final(self).cache_ttl_nanos() == old(self).cache_ttl_nanos(),
            final(self)@ == after_record(old(self)@, opt_string_view(cache_key), owns, now, old(self).cache_ttl_nanos()),
    {
        if let Some(k) = cache_key {
            let expiry = now.saturating_add(self.cache_ttl_ns);
            self.cache.insert(k, CachedOwnership { owns, expiry });
        }
    }

    /// Records the chain's answer `owns` now under `cache_key`, if one was handed out.
    pub fn finish_ownership_check(&mut self, cache_key: Option<String>, owns: bool)
        requires
            old(self).wf(),
        ensures
            final(self).wf(),
            final(self).url() == old(self).url(),
            final(self).cache_ttl_nanos() == old(self).cache_ttl_nanos(),
            exists|now: u64|
                final(self)@ == #[trigger] after_record(old(self)@, opt_string_view(cache_key), owns, now, old(self).cache_ttl_nanos()),
    {
        let now = nanos_since(&self.origin);
        self.finish_ownership_check_at(cache_key, owns, now)
    }
}


/// With the cache off every ownership check goes to the chain, and nothing is recorded.
pub proof fn law_cache_off_checks_live(m: OwnershipMap, key: Seq<char>, now: u64, step: OwnershipStep, owns: bool)
    requires
        ownership_step_fits(m, 0, key, now, step),
    ensures
        step == OwnershipStep::Query(None),
        after_record(m, None, owns, now, 0) == m,
{
}

/// An answer recorded at `t` is served from the cache until its lifetime has passed.
pub proof fn law_recorded_answer_served(
    m: OwnershipMap,
    ttl: u64,
    key: Seq<char>,
    owns: bool,
    t: u64,
    later: u64,
    step: OwnershipStep,
)
    requires
        ttl > 0,
        later < sat_add(t, ttl),
        ownership_step_fits(after_record(m, Some(key), owns, t, ttl), ttl, key, later, step),
    ensures
        step == OwnershipStep::Known(owns),
{
}

/// A cached answer whose lifetime has passed is not served: the chain is queried again and
/// the answer recorded under the same key.
pub proof fn law_stale_answer_requeried(m: OwnershipMap, ttl: u64, key: Seq<char>, now: u64, step: OwnershipStep)
    requires
        ttl > 0,
        m.contains_key(key),
        m[key].expiry <= now,
        ownership_step_fits(m, ttl, key, now, step),
    ensures
        step matches OwnershipStep::Query(Some(k)) && k@ == key,
{
}

/// The package id is a prefix of the type string and holds no `::`.
pub proof fn law_package_prefix(s: Seq<char>)
    ensures
        package_prefix(s).len() <= s.len(),
        package_prefix(s) == s.subrange(0, package_prefix(s).len() as int),
        forall|i: int| #![trigger separator_at(package_prefix(s), i)] !separator_at(package_prefix(s), i),
{
    lemma_first_separator(s, 0);
    let k = first_separator_from(s, 0);
    let p = package_prefix(s);
    assert forall|i: int| #![trigger separator_at(p, i)] !separator_at(p, i) by {
        if separator_at(p, i) {
            assert(p[i] == s[i] && p[i + 1] == s[i + 1]);
            assert(separator_at(s, i));
        }
    }
}

proof fn lemma_first_separator(s: Seq<char>, i: int)
    requires
        0 <= i,
    ensures
        i <= first_separator_from(s, i) <= s.len() || (i > s.len() && first_separator_from(s, i) == s.len()),
        first_separator_from(s, i) <= s.len(),
        forall|j: int| i <= j < first_separator_from(s, i) ==> !separator_at(s, j),
        first_separator_from(s, i) < s.len() ==> first_separator_from(s, i) + 1 < s.len()
            && s[first_separator_from(s, i)] == ':' && s[first_separator_from(s, i) + 1] == ':',
    decreases s.len() - i,
{
    if i + 1 < s.len() && !(s[i] == ':' && s[i + 1] == ':') {
        lemma_first_separator(s, i + 1);
    }
}

/// The package id is the longest `::`-free start of the type string: either the whole string,
/// which then holds no `::` at all, or the string goes on with `::` right after it.
pub proof fn law_package_prefix_maximal(s: Seq<char>)
    ensures
        ({
            let p = package_prefix(s);
            &&& p.len() <= s.len()
            &&& p == s.subrange(0, p.len() as int)
            &&& forall|i: int| 0 <= i && i + 1 < p.len() ==> !(#[trigger] p[i] == ':' && p[i + 1] == ':')
            &&& p.len() < s.len() ==> p.len() + 1 < s.len() && s[p.len() as int] == ':' && s[p.len() as int + 1] == ':'
            &&& p.len() == s.len() ==> forall|i: int| 0 <= i && i + 1 < s.len() ==> !(#[trigger] s[i] == ':' && s[i + 1] == ':')
        }),
{
    lemma_first_separator(s, 0);
    let p = package_prefix(s);
    assert forall|i: int| 0 <= i && i + 1 < p.len() implies !(#[trigger] p[i] == ':' && p[i + 1] == ':') by {
        assert(p[i] == s[i] && p[i + 1] == s[i + 1]);
        assert(!separator_at(s, i));
    }
    assert forall|i: int| p.len() == s.len() && 0 <= i && i + 1 < s.len() implies !(#[trigger] s[i] == ':' && s[i + 1] == ':') by {
        assert(!separator_at(s, i));
    }
}

/// The package id of `p::rest` is `p`, whenever `p` holds no `::` and does not end in `:`
/// (so the first `::` of the whole string is the one right after `p`), whatever the lengths.
pub proof fn law_package_of_composed_type(p: Seq<char>, rest: Seq<char>)
    requires
        forall|i: int| 0 <= i && i + 1 < p.len() ==> !(#[trigger] p[i] == ':' && p[i + 1] == ':'),
        p.len() == 0 || p.last() != ':',
    ensures
        package_prefix(p + seq![':', ':'] + rest) == p,
{
    let s = p + seq![':', ':'] + rest;
    let k = p.len() as int;
    assert(s[k] == ':' && s[k + 1] == ':');
    assert forall|j: int| 0 <= j < k implies !separator_at(s, j) by {
        if j + 1 < k {
            assert(s[j] == p[j] && s[j + 1] == p[j + 1]);
        } else {
            assert(s[j] == p[j]);
        }
    }
    lemma_first_separator_is_first(s, 0, k);
    assert(s.subrange(0, k) =~= p);
}

proof fn lemma_first_separator_is_first(s: Seq<char>, i: int, k: int)
    requires
        0 <= i <= k,
        k + 1 < s.len(),
        s[k] == ':' && s[k + 1] == ':',
        forall|j: int| i <= j < k ==> !separator_at(s, j),
    ensures
        first_separator_from(s, i) == k,
    decreases k - i,
{
    if i < k {
        assert(!separator_at(s, i));
        lemma_first_separator_is_first(s, i + 1, k);
    }
}

/// Searching events is a search for any match: the events of two lists joined match exactly
/// when one of the lists has a match, a list with a matching event at any position has a
/// match, and an empty list has none. Adding a non-matching event never changes the answer.
pub proof fn law_event_search_is_any(
    e1: Seq<ChainEvent>,
    e2: Seq<ChainEvent>,
    extra: ChainEvent,
    nonce: Seq<u8>,
    address: Seq<char>,
    gate_id: Option<Seq<char>>,
)
    ensures
        some_event_matches(e1 + e2, nonce, address, gate_id) == (some_event_matches(e1, nonce, address, gate_id)
            || some_event_matches(e2, nonce, address, gate_id)),
        forall|i: int|
            0 <= i < e1.len() && event_matches_spec(#[trigger] e1[i], nonce, address, gate_id)
                ==> some_event_matches(e1, nonce, address, gate_id),
        !some_event_matches(Seq::<ChainEvent>::empty(), nonce, address, gate_id),
        !event_matches_spec(extra, nonce, address, gate_id) ==> some_event_matches(
            e1.push(extra),
            nonce,
            address,
            gate_id,
        ) == some_event_matches(e1, nonce, address, gate_id),
        event_matches_spec(extra, nonce, address, gate_id) ==> some_event_matches(
            e1.push(extra),
            nonce,
            address,
            gate_id,
        ),
{
    let e = e1 + e2;
    if some_event_matches(e, nonce, address, gate_id) {
        let i = choose|i: int| 0 <= i < e.len() && event_matches_spec(#[trigger] e[i], nonce, address, gate_id);
        if i < e1.len() {
            assert(e[i] == e1[i]);
        } else {
            assert(e[i] == e2[i - e1.len()]);
        }
    }
    if some_event_matches(e1, nonce, address, gate_id) {
        let i = choose|i: int| 0 <= i < e1.len() && event_matches_spec(#[trigger] e1[i], nonce, address, gate_id);
        assert(e[i] == e1[i]);
    }
    if some_event_matches(e2, nonce, address, gate_id) {
        let i = choose|i: int| 0 <= i < e2.len() && event_matches_spec(#[trigger] e2[i], nonce, address, gate_id);
        assert(e[i + e1.len()] == e2[i]);
    }
    let ep = e1.push(extra);
    if some_event_matches(ep, nonce, address, gate_id) {
        let i = choose|i: int| 0 <= i < ep.len() && event_matches_spec(#[trigger] ep[i], nonce, address, gate_id);
        if i < e1.len() {
            assert(ep[i] == e1[i]);
        }
    }
    if some_event_matches(e1, nonce, address, gate_id) {
        let i = choose|i: int| 0 <= i < e1.len() && event_matches_spec(#[trigger] e1[i], nonce, address, gate_id);
        assert(ep[i] == e1[i]);
    }
    assert(ep[e1.len() as int] == extra);
}

/// Whether an owned object whose gate id is `x` is bound to `g`.
pub open spec fn carries_gate(x: Option<String>, g: Seq<char>) -> bool {
    match x {
        Some(y) => y@ == g,
        None => false,
    }
}

/// Ownership with a gate is a search over the whole page: two pages joined grant access
/// exactly when one of them does, a one-object page grants access exactly when that object
/// carries that gate id, and an empty page grants nothing. Without a gate any owned object is
/// enough. So the answer does not depend on where in the page the object stands.
pub proof fn law_owned_objects_search_is_any(s1: Seq<Option<String>>, s2: Seq<Option<String>>, x: Option<String>, g: Seq<char>)
    ensures
        owned_objects_grant_spec(s1 + s2, Some(g)) == (owned_objects_grant_spec(s1, Some(g))
            || owned_objects_grant_spec(s2, Some(g))),
        owned_objects_grant_spec(seq![x], Some(g)) == carries_gate(x, g),
        !owned_objects_grant_spec(Seq::<Option<String>>::empty(), Some(g)),
        owned_objects_grant_spec(s1 + s2, Some(g)) == owned_objects_grant_spec(s2 + s1, Some(g)),
        owned_objects_grant_spec(s1, None) == (s1.len() > 0),
        forall|i: int| 0 <= i < s1.len() && carries_gate(#[trigger] s1[i], g) ==> owned_objects_grant_spec(s1, Some(g)),
{
    lemma_owned_concat(s1, s2, g);
    lemma_owned_concat(s2, s1, g);
    let one = seq![x];
    if owned_objects_grant_spec(one, Some(g)) {
        let i = choose|i: int| 0 <= i < one.len() && match #[trigger] one[i] {
            Some(y) => y@ == g,
            None => false,
        };
        assert(i == 0);
    }
    if carries_gate(x, g) {
        assert(one[0] == x);
    }
    assert forall|i: int| 0 <= i < s1.len() && carries_gate(#[trigger] s1[i], g) implies owned_objects_grant_spec(s1, Some(g)) by {
        assert(match s1[i] {
            Some(y) => y@ == g,
            None => false,
        });
    }
}

proof fn lemma_owned_concat(s1: Seq<Option<String>>, s2: Seq<Option<String>>, g: Seq<char>)
    ensures
        owned_objects_grant_spec(s1 + s2, Some(g)) == (owned_objects_grant_spec(s1, Some(g))
            || owned_objects_grant_spec(s2, Some(g))),
{
    let s = s1 + s2;
    if owned_objects_grant_spec(s, Some(g)) {
        let i = choose|i: int| 0 <= i < s.len() && match #[trigger] s[i] {
            Some(y) => y@ == g,
            None => false,
        };
        if i < s1.len() {
            assert(s[i] == s1[i]);
        } else {
            assert(s[i] == s2[i - s1.len()]);
        }
    }
    if owned_objects_grant_spec(s1, Some(g)) {
        let i = choose|i: int| 0 <= i < s1.len() && match #[trigger] s1[i] {
            Some(y) => y@ == g,
            None => false,
        };
        assert(s[i] == s1[i]);
    }
    if owned_objects_grant_spec(s2, Some(g)) {
        let i = choose|i: int| 0 <= i < s2.len() && match #[trigger] s2[i] {
            Some(y) => y@ == g,
            None => false,
        };
        assert(s[i + s1.len()] == s2[i]);
    }
}


/// What a matching event must carry: its sender is exactly the address, its nonce field is
/// present and stands for the nonce bytes, and, when a gate is required, its gate id is that
/// gate. With no gate required the event's gate id is ignored, and a byte-array nonce matches
/// exactly the array of the nonce's own bytes.
pub proof fn law_event_match_fields(ev: ChainEvent, nonce: Seq<u8>, address: Seq<char>, g: Seq<char>, other_gate: Option<String>)
    ensures
        event_matches_spec(ev, nonce, address, None) ==> (ev.sender matches Some(s) && s@ == address),
        event_matches_spec(ev, nonce, address, None) ==> ev.nonce is Some,
        event_matches_spec(ev, nonce, address, Some(g)) ==> (ev.gate_id matches Some(x) && x@ == g),
        event_matches_spec(ev, nonce, address, Some(g)) ==> event_matches_spec(ev, nonce, address, None),
        event_matches_spec(ev, nonce, address, None) == event_matches_spec(
            ChainEvent { gate_id: other_gate, ..ev },
            nonce,
            address,
            None,
        ),
{
}

/// A byte-array rendering of the nonce matches exactly the array of the nonce's own bytes, in
/// order; any other JSON value never matches.
pub proof fn law_nonce_array_is_exact(v: Vec<Option<u64>>, nonce: Seq<u8>)
    ensures
        nonce_matches_spec(EventNonce::Numbers(v), nonce) <==> v@ == nonce.map_values(|b: u8| Some(b as u64)),
        !nonce_matches_spec(EventNonce::Other, nonce),
{
    let want = nonce.map_values(|b: u8| Some(b as u64));
    if nonce_matches_spec(EventNonce::Numbers(v), nonce) {
        assert(v@ =~= want);
    }
    if v@ == want {
        assert forall|i: int| 0 <= i < nonce.len() implies #[trigger] v@[i] == Some(nonce[i] as u64) by {
            assert(want[i] == Some(nonce[i] as u64));
        }
    }
}

/// The consume transaction is checked over all its events: joining two event lists confirms
/// exactly when one list does (under the same status), a failed or missing status never
/// confirms, and only consume events count.
pub proof fn law_transaction_search_is_any(
    status: Option<String>,
    e1: Vec<ChainEvent>,
    e2: Vec<ChainEvent>,
    joined: Vec<ChainEvent>,
    nonce: Seq<u8>,
    address: Seq<char>,
    gate_id: Option<Seq<char>>,
)
    requires
        joined@ == e1@ + e2@,
    ensures
        transaction_confirms_spec(TransactionReport { status, events: joined }, nonce, address, gate_id) == (
        transaction_confirms_spec(TransactionReport { status, events: e1 }, nonce, address, gate_id)
            || transaction_confirms_spec(TransactionReport { status, events: e2 }, nonce, address, gate_id)),
        !(status matches Some(s) && s@ == "success"@) ==> !transaction_confirms_spec(
            TransactionReport { status, events: joined },
            nonce,
            address,
            gate_id,
        ),
        transaction_confirms_spec(TransactionReport { status, events: joined }, nonce, address, gate_id) ==> exists|i: int|
            0 <= i < joined@.len() && is_consumed_event_spec(#[trigger] joined@[i]) && event_matches_spec(
                joined@[i],
                nonce,
                address,
                gate_id,
            ),
{
    let s = joined@;
    let t = TransactionReport { status, events: joined };
    let t1 = TransactionReport { status, events: e1 };
    let t2 = TransactionReport { status, events: e2 };
    if transaction_confirms_spec(t, nonce, address, gate_id) {
        let i = choose|i: int|
            0 <= i < s.len() && is_consumed_event_spec(#[trigger] s[i]) && event_matches_spec(s[i], nonce, address, gate_id);
        if i < e1@.len() {
            assert(s[i] == e1@[i]);
            assert(is_consumed_event_spec(t1.events@[i]));
            assert(transaction_confirms_spec(t1, nonce, address, gate_id));
        } else {
            let j = i - e1@.len();
            assert(s[i] == e2@[j]);
            assert(is_consumed_event_spec(t2.events@[j]));
            assert(transaction_confirms_spec(t2, nonce, address, gate_id));
        }
    }
    if transaction_confirms_spec(t1, nonce, address, gate_id) {
        let i = choose|i: int|
            0 <= i < e1@.len() && is_consumed_event_spec(#[trigger] e1@[i]) && event_matches_spec(e1@[i], nonce, address, gate_id);
        assert(s[i] == e1@[i]);
        assert(is_consumed_event_spec(t.events@[i]));
        assert(transaction_confirms_spec(t, nonce, address, gate_id));
    }
    if transaction_confirms_spec(t2, nonce, address, gate_id) {
        let i = choose|i: int|
            0 <= i < e2@.len() && is_consumed_event_spec(#[trigger] e2@[i]) && event_matches_spec(e2@[i], nonce, address, gate_id);
        assert(s[i + e1@.len()] == e2@[i]);
        assert(is_consumed_event_spec(t.events@[i + e1@.len()]));
        assert(transaction_confirms_spec(t, nonce, address, gate_id));
    }
}

} // verus!
