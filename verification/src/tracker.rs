//! Per-peer rate limiting: a sliding one-minute window of request times and
//! temporary blocks for peers that exceed the limits.

use vstd::prelude::*;

verus! {

/// Width of the sliding window in which requests are counted, in nanoseconds (one minute).
pub const RATE_WINDOW_NANOS: u64 = 60_000_000_000;

/// How long a peer stays blocked once it exceeded a limit, in nanoseconds (five minutes).
pub const BLOCK_DURATION_NANOS: u64 = 300_000_000_000;

/// Most requests a peer may make within the window before it is blocked.
pub const MAX_CONNECTIONS_PER_IP: usize = 10;

/// Most requests per minute a peer may make before it is blocked.
pub const MAX_REQUESTS_PER_MINUTE: usize = 60;

/// A peer's socket address, compared field by field as a socket address is.
#[derive(Clone, Copy, Debug, PartialEq, Eq, Structural)]
pub enum PeerAddr {
    V4 { ipv4: u32, port: u16 },
    V6 { ipv6: u128, port: u16, flowinfo: u32, scope_id: u32 },
}

/// The abstract state of a tracker: what each peer did and who is blocked until when.
/// Times are nanoseconds on the caller's monotonic clock.
pub struct TrackerView {
    /// Request times recorded per peer (oldest first).
    pub connections: Map<PeerAddr, Seq<u64>>,
    /// The instant until which each blocked peer stays blocked (exclusive).
    pub blocked: Map<PeerAddr, int>,
    pub max_connections_per_ip: nat,
    pub max_requests_per_minute: nat,
    pub block_duration: nat,
}

/// A request made at `t` still counts at `now` when it lies less than one window before `now`.
pub open spec fn is_recent(t: u64, now: u64) -> bool {
    t + RATE_WINDOW_NANOS > now
}

/// The request times of `times` that still count at `now`, in their order.
pub open spec fn recent_times(times: Seq<u64>, now: u64) -> Seq<u64> {
    times.filter(|t: u64| is_recent(t, now))
}

impl TrackerView {
    /// The request times recorded for `ip` (none if it never made a request).
    pub open spec fn history(self, ip: PeerAddr) -> Seq<u64> {
        if self.connections.contains_key(ip) {
            self.connections[ip]
        } else {
            Seq::empty()
        }
    }

    /// The times recorded for `ip` after it makes a request at `now`:
    /// the ones that still count, then `now`.
    pub open spec fn times_after_request(self, ip: PeerAddr, now: u64) -> Seq<u64> {
        recent_times(self.history(ip), now).push(now)
    }

    /// Whether `count` requests in the window exceed one of the limits.
    pub open spec fn over_limit(self, count: nat) -> bool {
        count > self.max_connections_per_ip || count > self.max_requests_per_minute
    }

    /// Whether `ip` is blocked at `now`.
    pub open spec fn blocked_at(self, ip: PeerAddr, now: u64) -> bool {
        self.blocked.contains_key(ip) && now < self.blocked[ip]
    }

    /// The state after a block check at `now`: blocks that ended by `now` are dropped.
    pub open spec fn after_block_check(self, now: u64) -> TrackerView {
        TrackerView {
            blocked: Map::new(|k: PeerAddr| self.blocked_at(k, now), |k: PeerAddr| self.blocked[k]),
            ..self
        }
    }

    /// Whether a request of `ip` at `now` exceeds a limit.
    pub open spec fn request_exceeds_limit(self, ip: PeerAddr, now: u64) -> bool {
        self.over_limit(self.times_after_request(ip, now).len())
    }

    /// The state after `ip` makes a request at `now`: its times are updated and,
    /// when a limit is exceeded, it is blocked for the block duration from `now`.
    pub open spec fn after_request(self, ip: PeerAddr, now: u64) -> TrackerView {
        TrackerView {
            connections: self.connections.insert(ip, self.times_after_request(ip, now)),
            blocked: if self.request_exceeds_limit(ip, now) {
                self.blocked.insert(ip, now + self.block_duration)
            } else {
                self.blocked
            },
            ..self
        }
    }

    /// Whether a connection of `ip` at `now` is refused: it is blocked, or,
    /// after the block check, its request exceeds a limit.
    pub open spec fn refuses(self, ip: PeerAddr, now: u64) -> bool {
        self.blocked_at(ip, now) || self.after_block_check(now).request_exceeds_limit(ip, now)
    }

    /// The state after a connection of `ip` at `now` was admitted or refused.
    pub open spec fn after_connection(self, ip: PeerAddr, now: u64) -> TrackerView {
        if self.blocked_at(ip, now) {
            self.after_block_check(now)
        } else {
            self.after_block_check(now).after_request(ip, now)
        }
    }
}

/// The state of a fresh tracker: no history, no blocks, the default limits.
pub open spec fn initial_tracker() -> TrackerView {
    TrackerView {
        connections: Map::empty(),
        blocked: Map::empty(),
        max_connections_per_ip: MAX_CONNECTIONS_PER_IP as nat,
        max_requests_per_minute: MAX_REQUESTS_PER_MINUTE as nat,
        block_duration: BLOCK_DURATION_NANOS as nat,
    }
}

/// Whether `k` is the key of an entry of `s`.
pub open spec fn holds_key<T>(s: Seq<(PeerAddr, T)>, k: PeerAddr) -> bool {
    exists|i: int| 0 <= i < s.len() && #[trigger] s[i].0 == k
}

/// Whether no two entries of `s` have the same key.
pub open spec fn keys_unique<T>(s: Seq<(PeerAddr, T)>) -> bool {
    forall|i: int, j: int|
        0 <= i < s.len() && 0 <= j < s.len() && i != j ==> #[trigger] s[i].0 != #[trigger] s[j].0
}

/// The position of an entry with key `k` in `s`.
pub open spec fn key_index<T>(s: Seq<(PeerAddr, T)>, k: PeerAddr) -> int {
    choose|i: int| 0 <= i < s.len() && #[trigger] s[i].0 == k
}

proof fn lemma_key_index<T>(s: Seq<(PeerAddr, T)>, i: int)
    requires
        keys_unique(s),
        0 <= i < s.len(),
    ensures
        holds_key(s, s[i].0),
        key_index(s, s[i].0) == i,
{
    let k = s[i].0;
    assert(holds_key(s, k));
    let j = key_index(s, k);
    assert(s[j].0 == k);
}

/// The request times held by a table of entries, by peer.
pub open spec fn history_map(s: Seq<(PeerAddr, Vec<u64>)>) -> Map<PeerAddr, Seq<u64>> {
    Map::new(|k: PeerAddr| holds_key(s, k), |k: PeerAddr| s[key_index(s, k)].1@)
}

/// The block ends held by a table of entries, by peer.
pub open spec fn block_map(s: Seq<(PeerAddr, u128)>) -> Map<PeerAddr, int> {
    Map::new(|k: PeerAddr| holds_key(s, k), |k: PeerAddr| s[key_index(s, k)].1 as int)
}

proof fn lemma_update_entry<T>(s: Seq<(PeerAddr, T)>, i: int, v: T)
    requires
        keys_unique(s),
        0 <= i < s.len(),
    ensures
        keys_unique(s.update(i, (s[i].0, v))),
        forall|k: PeerAddr| #[trigger] holds_key(s.update(i, (s[i].0, v)), k) == holds_key(s, k),
        forall|k: PeerAddr|
            holds_key(s, k) && k != s[i].0 ==> #[trigger] s.update(i, (s[i].0, v))[key_index(
                s.update(i, (s[i].0, v)),
                k,
            )] == s[key_index(s, k)],
        s.update(i, (s[i].0, v))[key_index(s.update(i, (s[i].0, v)), s[i].0)] == (s[i].0, v),
{
    let u = s.update(i, (s[i].0, v));
    assert(keys_unique(u)) by {
        assert forall|a: int, b: int| 0 <= a < u.len() && 0 <= b < u.len() && a != b implies #[trigger] u[a].0 != #[trigger] u[b].0 by {
            assert(u[a].0 == s[a].0);
            assert(u[b].0 == s[b].0);
        }
    }
    assert forall|k: PeerAddr| #[trigger] holds_key(u, k) == holds_key(s, k) by {
        if holds_key(s, k) {
            let j = key_index(s, k);
            assert(u[j].0 == k);
        }
        if holds_key(u, k) {
            let j = key_index(u, k);
            assert(s[j].0 == k);
        }
    }
    assert forall|k: PeerAddr| holds_key(s, k) && k != s[i].0 implies #[trigger] u[key_index(u, k)] == s[key_index(s, k)] by {
        let j = key_index(s, k);
        lemma_key_index(s, j);
        assert(u[j].0 == k);
        lemma_key_index(u, j);
    }
    lemma_key_index(u, i);
}

proof fn lemma_push_entry<T>(s: Seq<(PeerAddr, T)>, k: PeerAddr, v: T)
    requires
        keys_unique(s),
        !holds_key(s, k),
    ensures
        keys_unique(s.push((k, v))),
        forall|k2: PeerAddr| #[trigger] holds_key(s.push((k, v)), k2) == (holds_key(s, k2) || k2 == k),
        forall|k2: PeerAddr|
            holds_key(s, k2) ==> #[trigger] s.push((k, v))[key_index(s.push((k, v)), k2)] == s[key_index(s, k2)],
        s.push((k, v))[key_index(s.push((k, v)), k)] == (k, v),
{
    let u = s.push((k, v));
    assert(keys_unique(u)) by {
        assert forall|a: int, b: int| 0 <= a < u.len() && 0 <= b < u.len() && a != b implies #[trigger] u[a].0 != #[trigger] u[b].0 by {
            if a < s.len() && b < s.len() {
                assert(u[a] == s[a]);
                assert(u[b] == s[b]);
            } else if a < s.len() {
                assert(u[a] == s[a]);
                assert(s[a].0 != k);
            } else {
                assert(u[b] == s[b]);
                assert(s[b].0 != k);
            }
        }
    }
    assert forall|k2: PeerAddr| #[trigger] holds_key(u, k2) == (holds_key(s, k2) || k2 == k) by {
        if holds_key(s, k2) {
            let j = key_index(s, k2);
            assert(u[j].0 == k2);
        }
        if k2 == k {
            assert(u[s.len() as int].0 == k);
        }
        if holds_key(u, k2) && k2 != k {
            let j = key_index(u, k2);
            assert(j < s.len());
            assert(s[j].0 == k2);
        }
    }
    assert forall|k2: PeerAddr| holds_key(s, k2) implies #[trigger] u[key_index(u, k2)] == s[key_index(s, k2)] by {
        let j = key_index(s, k2);
        lemma_key_index(s, j);
        assert(u[j] == s[j]);
        lemma_key_index(u, j);
    }
    lemma_key_index(u, s.len() as int);
}

/// The blocks of `s` that have not ended by `now`.
pub open spec fn live_blocks(s: Seq<(PeerAddr, u128)>, now: u64) -> Map<PeerAddr, int> {
    Map::new(
        |k: PeerAddr| block_map(s).contains_key(k) && now < block_map(s)[k],
        |k: PeerAddr| block_map(s)[k],
    )
}

proof fn lemma_prefix_step<T>(s: Seq<(PeerAddr, T)>, i: int)
    requires
        keys_unique(s),
        0 <= i < s.len(),
    ensures
        keys_unique(s.take(i)),
        s.take(i + 1) == s.take(i).push(s[i]),
        !holds_key(s.take(i), s[i].0),
{
    let p = s.take(i);
    assert(s.take(i + 1) =~= p.push(s[i]));
    assert(keys_unique(p)) by {
        assert forall|a: int, b: int| 0 <= a < p.len() && 0 <= b < p.len() && a != b implies #[trigger] p[a].0 != #[trigger] p[b].0 by {
            assert(p[a] == s[a]);
            assert(p[b] == s[b]);
        }
    }
    if holds_key(p, s[i].0) {
        let j = key_index(p, s[i].0);
        assert(p[j] == s[j]);
    }
}

/// The entries of `entries` whose block has not ended by `now`.
fn drop_ended_blocks(entries: &Vec<(PeerAddr, u128)>, now: u64) -> (kept: Vec<(PeerAddr, u128)>)
    requires
        keys_unique(entries@),
    ensures
        keys_unique(kept@),
        block_map(kept@) == live_blocks(entries@, now),
{
    let ghost s = entries@;
    let mut kept: Vec<(PeerAddr, u128)> = Vec::new();
    let mut i: usize = 0;
    proof {
        assert(block_map(kept@) =~= live_blocks(s.take(0), now));
    }
    while i < entries.len()
        invariant
            s == entries@,
            keys_unique(s),
            i <= s.len(),
            keys_unique(kept@),
            block_map(kept@) == live_blocks(s.take(i as int), now),
        decreases s.len() - i,
    {
        let entry = entries[i];
        proof {
            lemma_prefix_step(s, i as int);
            lemma_push_entry(s.take(i as int), entry.0, entry.1);
        }
        let ghost before = kept@;
        if (now as u128) < entry.1 {
            proof {
                if holds_key(kept@, entry.0) {
                    assert(block_map(kept@).contains_key(entry.0));
                }
                lemma_push_entry(kept@, entry.0, entry.1);
            }
            kept.push(entry);
            proof {
                let t1 = s.take(i + 1);
                assert(t1 == s.take(i as int).push(entry));
                assert(kept@ == before.push(entry));
                assert(block_map(t1) =~= block_map(s.take(i as int)).insert(entry.0, entry.1 as int));
                assert(block_map(kept@) =~= block_map(before).insert(entry.0, entry.1 as int));
                assert(block_map(kept@) =~= live_blocks(t1, now));
            }
        } else {
            proof {
                let t1 = s.take(i + 1);
                assert(t1 == s.take(i as int).push(entry));
                assert(block_map(t1) == block_map(s.take(i as int)).insert(entry.0, entry.1 as int));
                assert(!live_blocks(t1, now).contains_key(entry.0));
                assert(!block_map(kept@).contains_key(entry.0));
                assert(block_map(kept@) =~= live_blocks(t1, now));
            }
        }
        i = i + 1;
    }
    assert(s.take(s.len() as int) =~= s);
    kept
}

/// Sets the block end of `ip` to `until`, adding an entry when `ip` has none.
fn upsert_block(entries: &mut Vec<(PeerAddr, u128)>, ip: PeerAddr, until: u128)
    requires
        keys_unique(old(entries)@),
    ensures
        keys_unique(final(entries)@),
        block_map(final(entries)@) == block_map(old(entries)@).insert(ip, until as int),
{
    let ghost s = entries@;
    match find_key(entries, ip) {
        Some(i) => {
            entries.set(i, (ip, until));
            proof {
                lemma_update_entry(s, i as int, until);
                assert(entries@ == s.update(i as int, (s[i as int].0, until)));
                assert(block_map(entries@) =~= block_map(s).insert(ip, until as int));
            }
        },
        None => {
            entries.push((ip, until));
            proof {
                lemma_push_entry(s, ip, until);
                assert(block_map(entries@) =~= block_map(s).insert(ip, until as int));
            }
        },
    }
}

/// Records request times and blocks per peer.
pub struct ConnectionTracker {
    connections: Vec<(PeerAddr, Vec<u64>)>,
    blocked_ips: Vec<(PeerAddr, u128)>,
    max_connections_per_ip: usize,
    max_requests_per_minute: usize,
    block_duration: u64,
}

impl View for ConnectionTracker {
    type V = TrackerView;

    closed spec fn view(&self) -> TrackerView {
        TrackerView {
            connections: history_map(self.connections@),
            blocked: block_map(self.blocked_ips@),
            max_connections_per_ip: self.max_connections_per_ip as nat,
            max_requests_per_minute: self.max_requests_per_minute as nat,
            block_duration: self.block_duration as nat,
        }
    }
}

/// The position of the entry with key `ip`, if there is one.
fn find_key<T>(entries: &Vec<(PeerAddr, T)>, ip: PeerAddr) -> (r: Option<usize>)
    ensures
        r matches Some(i) ==> i < entries@.len() && entries@[i as int].0 == ip,
        r is None ==> !holds_key(entries@, ip),
{
    let mut i: usize = 0;
    while i < entries.len()
        invariant
            i <= entries@.len(),
            forall|j: int| 0 <= j < i ==> #[trigger] entries@[j].0 != ip,
        decreases entries@.len() - i,
    {
        if entries[i].0 == ip {
            return Some(i);
        }
        i = i + 1;
    }
    None
}

/// The times of `times` that still count at `now`.
fn keep_recent(times: &Vec<u64>, now: u64) -> (kept: Vec<u64>)
    ensures
        kept@ == recent_times(times@, now),
{
    let mut kept: Vec<u64> = Vec::new();
    let mut i: usize = 0;
    while i < times.len()
        invariant
            i <= times@.len(),
            kept@ == recent_times(times@.take(i as int), now),
        decreases times@.len() - i,
    {
        let t = times[i];
        let recent = now < RATE_WINDOW_NANOS || t > now - RATE_WINDOW_NANOS;
        proof {
            reveal_with_fuel(Seq::<_>::filter, 1);
            assert(times@.take(i + 1).drop_last() =~= times@.take(i as int));
            assert(times@.take(i + 1).last() == t);
        }
        if recent {
            kept.push(t);
        }
        i = i + 1;
    }
    assert(times@.take(times@.len() as int) =~= times@);
    kept
}

impl ConnectionTracker {
    /// No two entries of either table share a peer.
    pub closed spec fn wf(&self) -> bool {
        keys_unique(self.connections@) && keys_unique(self.blocked_ips@)
    }

    /// A tracker with no history and no blocks, with the limits of ten requests
    /// within a minute (and sixty per minute) and blocks of five minutes.
    pub fn new() -> (t: Self)
        ensures
            t.wf(),
            t@ == initial_tracker(),
    {
        let t = ConnectionTracker {
            connections: Vec::new(),
            blocked_ips: Vec::new(),
            max_connections_per_ip: MAX_CONNECTIONS_PER_IP,
            max_requests_per_minute: MAX_REQUESTS_PER_MINUTE,
            block_duration: BLOCK_DURATION_NANOS,
        };
        assert(t@.connections =~= Map::<PeerAddr, Seq<u64>>::empty());
        assert(t@.blocked =~= Map::<PeerAddr, int>::empty());
        t
    }

    /// Drops the blocks that ended by `now` and tells whether `ip` is still blocked.
    pub fn is_ip_blocked(&mut self, ip: PeerAddr, now: u64) -> (blocked: bool)
        requires
            old(self).wf(),
        ensures
            final(self).wf(),
            final(self)@ == old(self)@.after_block_check(now),
            blocked == old(self)@.blocked_at(ip, now),
    {
        let kept = drop_ended_blocks(&self.blocked_ips, now);
        proof {
            assert(block_map(kept@) =~= old(self)@.after_block_check(now).blocked);
        }
        self.blocked_ips = kept;
        match find_key(&self.blocked_ips, ip) {
            Some(i) => {
                proof {
                    assert(holds_key(self.blocked_ips@, self.blocked_ips@[i as int].0));
                    assert(self@.blocked.contains_key(ip));
                }
                true
            },
            None => {
                proof {
                    assert(!self@.blocked.contains_key(ip));
                }
                false
            },
        }
    }

    /// Records a request of `ip` at `now`: forgets its requests older than the
    /// window, adds this one, and blocks `ip` for the block duration when it
    /// now exceeds a limit. Tells whether it was blocked.
    pub fn should_block_ip(&mut self, ip: PeerAddr, now: u64) -> (blocked: bool)
        requires
            old(self).wf(),
        ensures
            final(self).wf(),
            final(self)@ == old(self)@.after_request(ip, now),
            blocked == old(self)@.request_exceeds_limit(ip, now),
    {
        let ghost s0 = self.connections@;
        let idx: usize = match find_key(&self.connections, ip) {
            Some(i) => {
                proof {
                    lemma_key_index(s0, i as int);
                    assert(history_map(s0) =~= history_map(s0).insert(ip, old(self)@.history(ip)));
                }
                i
            },
            None => {
                self.connections.push((ip, Vec::new()));
                proof {
                    let fresh = self.connections@[s0.len() as int].1;
                    assert(self.connections@ == s0.push((ip, fresh)));
                    lemma_push_entry(s0, ip, fresh);
                    assert(history_map(self.connections@) =~= history_map(s0).insert(ip, old(self)@.history(ip)));
                }
                self.connections.len() - 1
            },
        };
        let ghost s1 = self.connections@;
        proof {
            assert(s1[idx as int].0 == ip);
            assert(s1[idx as int].1@ == old(self)@.history(ip));
            lemma_key_index(s1, idx as int);
        }
        let mut times = keep_recent(&self.connections[idx].1, now);
        times.push(now);
        let count = times.len();
        proof {
            lemma_update_entry(s1, idx as int, times);
        }
        self.connections.set(idx, (ip, times));
        proof {
            let s2 = self.connections@;
            assert(s2 == s1.update(idx as int, (s1[idx as int].0, times)));
            assert(history_map(s2) =~= history_map(s1).insert(ip, times@));
            assert(history_map(s2) =~= history_map(s0).insert(ip, old(self)@.times_after_request(ip, now)));
        }
        if count > self.max_connections_per_ip || count > self.max_requests_per_minute {
            let until: u128 = now as u128 + self.block_duration as u128;
            upsert_block(&mut self.blocked_ips, ip, until);
            return true;
        }
        false
    }
}

/// Decides on a connection of `ip` at `now`: it is refused when `ip` is
/// blocked; otherwise its request is recorded and it is refused when that
/// request exceeds a limit (which also blocks `ip`).
pub fn refuse_connection(tracker: &mut ConnectionTracker, ip: PeerAddr, now: u64) -> (refused: bool)
    requires
        old(tracker).wf(),
    ensures
        final(tracker).wf(),
        final(tracker)@ == old(tracker)@.after_connection(ip, now),
        refused == old(tracker)@.refuses(ip, now),
{
    if tracker.is_ip_blocked(ip, now) {
        true
    } else {
        tracker.should_block_ip(ip, now)
    }
}

proof fn lemma_none_recent(times: Seq<u64>, now: u64)
    requires
        forall|i: int| 0 <= i < times.len() ==> !is_recent(#[trigger] times[i], now),
    ensures
        recent_times(times, now) == Seq::<u64>::empty(),
    decreases times.len(),
{
    reveal_with_fuel(Seq::<_>::filter, 1);
    if times.len() > 0 {
        let rest = times.drop_last();
        assert forall|i: int| 0 <= i < rest.len() implies !is_recent(#[trigger] rest[i], now) by {
            assert(rest[i] == times[i]);
        }
        lemma_none_recent(rest, now);
        assert(!is_recent(times[times.len() - 1], now));
    }
    assert(recent_times(times, now) =~= Seq::<u64>::empty());
}

/// A peer that exceeds a limit stays blocked, and its connections are refused,
/// from that request until the block duration has passed.
pub proof fn law_block_holds_for_block_duration(v: TrackerView, ip: PeerAddr, now: u64, later: u64)
    requires
        v.request_exceeds_limit(ip, now),
        now <= later,
        later < now + v.block_duration,
    ensures
        v.after_request(ip, now).blocked_at(ip, later),
        v.after_request(ip, now).refuses(ip, later),
{
}

/// A block set by a request at `now` is over once the block duration has passed.
pub proof fn law_block_ends_after_block_duration(v: TrackerView, ip: PeerAddr, now: u64, later: u64)
    requires
        v.request_exceeds_limit(ip, now),
        later >= now + v.block_duration,
    ensures
        !v.after_request(ip, now).blocked_at(ip, later),
{
}

/// A block check keeps no ended block, and changes nobody's status at `now` or later.
pub proof fn law_block_check_forgets_only_ended_blocks(v: TrackerView, now: u64)
    ensures
        forall|k: PeerAddr| #[trigger] v.after_block_check(now).blocked.contains_key(k) ==> now < v.after_block_check(now).blocked[k],
        forall|k: PeerAddr, t: u64| now <= t ==> (#[trigger] v.after_block_check(now).blocked_at(k, t) == v.blocked_at(k, t)),
        v.after_block_check(now).connections == v.connections,
{
}

/// Checking blocks twice at the same instant changes nothing the first check did not.
pub proof fn law_block_check_idempotent(v: TrackerView, now: u64)
    ensures
        v.after_block_check(now).after_block_check(now) == v.after_block_check(now),
{
    assert(v.after_block_check(now).after_block_check(now).blocked =~= v.after_block_check(now).blocked);
}

/// A blocked peer is refused, and its refused connection is not recorded as a request.
pub proof fn law_blocked_peer_refused(v: TrackerView, ip: PeerAddr, now: u64)
    requires
        v.blocked_at(ip, now),
    ensures
        v.refuses(ip, now),
        v.after_connection(ip, now).connections == v.connections,
{
}

/// A request is within the limits while the requests of the last minute,
/// this one included, number no more than either limit.
pub proof fn law_requests_within_limits_pass(v: TrackerView, ip: PeerAddr, now: u64)
    requires
        recent_times(v.history(ip), now).len() + 1 <= v.max_connections_per_ip,
        recent_times(v.history(ip), now).len() + 1 <= v.max_requests_per_minute,
    ensures
        !v.request_exceeds_limit(ip, now),
        v.after_request(ip, now).blocked == v.blocked,
{
}

/// A request is over the limit once the peer already made as many requests
/// within the last minute as the per-peer connection limit allows.
pub proof fn law_request_over_limit_blocks(v: TrackerView, ip: PeerAddr, now: u64)
    requires
        recent_times(v.history(ip), now).len() >= v.max_connections_per_ip,
    ensures
        v.request_exceeds_limit(ip, now),
        v.after_request(ip, now).blocked_at(ip, now) <==> v.block_duration > 0,
{
}

/// Requests older than the window no longer count: a peer whose recorded
/// requests are all older than a minute is left with only the new one.
pub proof fn law_old_requests_forgotten(v: TrackerView, ip: PeerAddr, now: u64)
    requires
        forall|i: int| 0 <= i < v.history(ip).len() ==> !is_recent(#[trigger] v.history(ip)[i], now),
        v.max_connections_per_ip >= 1,
        v.max_requests_per_minute >= 1,
    ensures
        v.times_after_request(ip, now) == seq![now],
        !v.request_exceeds_limit(ip, now),
{
    lemma_none_recent(v.history(ip), now);
    assert(v.times_after_request(ip, now) =~= seq![now]);
}

/// The limits are per peer: a request of one peer changes neither the
/// history nor the block of any other peer.
pub proof fn law_other_peers_unaffected(v: TrackerView, ip: PeerAddr, other: PeerAddr, now: u64, t: u64)
    requires
        other != ip,
    ensures
        v.after_request(ip, now).history(other) == v.history(other),
        v.after_request(ip, now).blocked_at(other, t) == v.blocked_at(other, t),
{
}

/// A fresh tracker admits any first connection.
pub proof fn law_fresh_tracker_admits(ip: PeerAddr, now: u64)
    ensures
        !initial_tracker().refuses(ip, now),
{
    let v = initial_tracker().after_block_check(now);
    assert(v.history(ip) =~= Seq::<u64>::empty());
    lemma_none_recent(v.history(ip), now);
}

/// Whether a connection is admitted depends only on the peer's requests of the
/// last minute: for a peer that is not blocked, the connection at `now` is
/// refused exactly when its recorded requests made less than one minute
/// before `now`, plus this one, exceed a limit; its history becomes those
/// requests followed by `now`; and a refusal blocks it for the block duration.
pub proof fn law_admission_counts_only_the_last_minute(v: TrackerView, ip: PeerAddr, now: u64)
    requires
        !(v.blocked.contains_key(ip) && now < v.blocked[ip]),
    ensures
        ({
            let recorded = if v.connections.contains_key(ip) {
                v.connections[ip]
            } else {
                Seq::<u64>::empty()
            };
            let recent = recorded.filter(|t: u64| t + 60_000_000_000 > now);
            let next = v.after_connection(ip, now);
            &&& v.refuses(ip, now) == (recent.len() + 1 > v.max_connections_per_ip || recent.len() + 1
                > v.max_requests_per_minute)
            &&& next.connections.contains_key(ip)
            &&& next.connections[ip] == recent.push(now)
            &&& v.refuses(ip, now) ==> next.blocked.contains_key(ip) && next.blocked[ip] == now
                + v.block_duration
            &&& !v.refuses(ip, now) ==> !next.blocked.contains_key(ip)
        }),
{
    let recorded = v.history(ip);
    assert((|t: u64| is_recent(t, now)) =~= (|t: u64| t + 60_000_000_000 > now));
    assert(v.after_block_check(now).history(ip) == recorded);
}

} // verus!
