//! Per-client sliding-window rate limiting.
//!
//! Each client address keeps the times of its admitted requests that are
//! still inside the window. A request is admitted while fewer than `limit`
//! of them remain; otherwise it is refused with the number of seconds after
//! which the oldest one leaves the window. Once per window, clients whose
//! newest request has left the window are forgotten, so that memory does not
//! grow over a long run.
//!
//! Times are nanoseconds on a monotonic clock, counted from the moment the
//! limiter was created.

use std::collections::HashMap;
use std::collections::VecDeque;
use std::hash::Hash;
use vstd::prelude::*;
use vstd::std_specs::hash::obeys_key_model;
use vstd::std_specs::iter::IteratorSpec;
use vstd::string::StrSliceExecFns;

verus! {

broadcast use {
    vstd::std_specs::hash::group_hash_axioms,
    vstd::std_specs::vecdeque::group_vec_dequeue_axioms,
};

/// Nanoseconds in a second.
pub const NANOS_PER_SEC: u64 = 1_000_000_000;

/// The window length in nanoseconds.
pub open spec fn window_nanos(window_secs: u64) -> int {
    window_secs * 1_000_000_000
}

/// Time passed from `then` to `now`, or 0 when `then` is later.
pub open spec fn elapsed(now: u64, then: u64) -> int {
    if now >= then {
        now - then
    } else {
        0
    }
}

/// Whether a request at `t` has left a window of `w` nanoseconds at `now`.
pub open spec fn expired(now: u64, t: u64, w: int) -> bool {
    elapsed(now, t) > w
}

/// The queue without its leading requests that have left the window.
pub open spec fn prune_spec(q: Seq<u64>, now: u64, w: int) -> Seq<u64>
    decreases q.len(),
{
    if q.len() > 0 && expired(now, q[0], w) {
        prune_spec(q.drop_first(), now, w)
    } else {
        q
    }
}

/// Whether a periodic sweep keeps a client's queue: its newest request is
/// still inside the window.
pub open spec fn kept_by_sweep(q: Seq<u64>, now: u64, w: int) -> bool {
    q.len() > 0 && !expired(now, q.last(), w)
}

/// Seconds to wait before retrying, for a pruned queue that is full:
/// what is left of the window for its oldest request, in whole seconds,
/// and at least 1.
pub open spec fn retry_after_spec(q: Seq<u64>, now: u64, w: int) -> u64 {
    let oldest = if q.len() > 0 {
        q[0]
    } else {
        now
    };
    let left = w - elapsed(now, oldest);
    let secs = if left > 0 {
        left / 1_000_000_000
    } else {
        0
    };
    if secs >= 1 {
        secs as u64
    } else {
        1
    }
}

/// Time passed from `then` to `now`, saturating at 0.
fn elapsed_exec(now: u64, then: u64) -> (e: u64)
    ensures
        e == elapsed(now, then),
{
    if now >= then {
        now - then
    } else {
        0
    }
}

/// The window length in nanoseconds.
fn window_in_nanos(window_secs: u64) -> (w: u128)
    ensures
        w == window_nanos(window_secs),
{
    proof {
        assert(window_secs * 1_000_000_000 <= 0xffff_ffff_ffff_ffff * 1_000_000_000) by (nonlinear_arith)
            requires
                window_secs <= 0xffff_ffff_ffff_ffff,
        ;
    }
    (window_secs as u128) * (NANOS_PER_SEC as u128)
}

/// Drops the leading requests of `q` that have left the window.
fn prune(q: &mut VecDeque<u64>, now: u64, w: u128)
    ensures
        final(q)@ == prune_spec(old(q)@, now, w as int),
{
    while q.len() > 0 && (elapsed_exec(now, q[0]) as u128) > w
        invariant
            prune_spec(q@, now, w as int) == prune_spec(old(q)@, now, w as int),
        decreases q@.len(),
    {
        let ghost before = q@;
        q.pop_front();
        assert(q@ =~= before.drop_first());
    }
}

/// Seconds to wait before retrying, for a pruned queue that is full.
fn retry_after(q: &VecDeque<u64>, now: u64, window_secs: u64) -> (secs: u64)
    ensures
        secs == retry_after_spec(q@, now, window_nanos(window_secs)),
{
    let w: u128 = window_in_nanos(window_secs);
    let oldest = if q.len() > 0 {
        q[0]
    } else {
        now
    };
    let e = elapsed_exec(now, oldest) as u128;
    let s: u128 = if w > e {
        (w - e) / (NANOS_PER_SEC as u128)
    } else {
        0
    };
    proof {
        if w > e {
            assert((w - e) / 1_000_000_000 <= w / 1_000_000_000) by (nonlinear_arith)
                requires
                    w > e,
                    e >= 0,
            ;
            assert(w / 1_000_000_000 == window_secs) by (nonlinear_arith)
                requires
                    w == window_secs * 1_000_000_000,
            ;
        }
    }
    if s >= 1 {
        s as u64
    } else {
        1
    }
}

/// The queues of a map of clients, by their views.
pub open spec fn queues<K>(m: Map<K, VecDeque<u64>>) -> Map<K, Seq<u64>> {
    Map::new(|k: K| m.contains_key(k), |k: K| m[k]@)
}

/// What a sweep leaves of a map of queues: the clients whose newest request
/// is still inside the window.
pub open spec fn swept<K>(m: Map<K, Seq<u64>>, now: u64, w: int) -> Map<K, Seq<u64>> {
    Map::new(|k: K| m.contains_key(k) && kept_by_sweep(m[k], now, w), |k: K| m[k])
}

/// Whether a queue is kept by a sweep.
fn kept_exec(q: &VecDeque<u64>, now: u64, w: u128) -> (r: bool)
    ensures
        r == kept_by_sweep(q@, now, w as int),
{
    let n = q.len();
    n > 0 && (elapsed_exec(now, q[n - 1]) as u128) <= w
}

/// Forgets the clients whose newest request has left the window.
fn sweep_map<K: Copy + Eq + Hash>(m: &mut HashMap<K, VecDeque<u64>>, now: u64, w: u128)
    requires
        obeys_key_model::<K>(),
    ensures
        queues(final(m)@) == swept(queues(old(m)@), now, w as int),
{
    let mut doomed: Vec<K> = Vec::new();
    let ghost m0 = m@;
    let ks = m.keys();
    proof {
        assert(ks.remaining().unref().to_set() == m0.dom());
    }
    for k in it: ks
        invariant
            m@ == m0,
            obeys_key_model::<K>(),
            it.seq().unref().to_set() == m0.dom(),
            forall|j: int|
                0 <= j < doomed@.len() ==> m0.contains_key(#[trigger] doomed@[j]) && !kept_by_sweep(
                    m0[doomed@[j]]@,
                    now,
                    w as int,
                ),
            forall|j: int|
                0 <= j < it.index() ==> (!kept_by_sweep(m0[*it.seq()[j]]@, now, w as int)
                    ==> doomed@.contains(*#[trigger] it.seq()[j])),
    {
        let ghost idx = it.index();
        let ghost before = doomed@;
        proof {
            assert(it.seq().unref()[idx] == *k);
            assert(it.seq().unref().to_set().contains(*k));
        }
        let q = m.get(k).unwrap();
        if !kept_exec(q, now, w) {
            doomed.push(*k);
        }
        proof {
            assert forall|j: int|
                0 <= j < idx + 1 && !kept_by_sweep(
                    m0[*it.seq()[j]]@,
                    now,
                    w as int,
                ) implies doomed@.contains(*#[trigger] it.seq()[j]) by {
                if j < idx {
                    let d = choose|d: int| 0 <= d < before.len() && before[d] == *it.seq()[j];
                    assert(doomed@[d] == before[d]);
                } else {
                    assert(doomed@[doomed@.len() - 1] == *k);
                }
            }
        }
    }
    let mut i: usize = 0;
    while i < doomed.len()
        invariant
            obeys_key_model::<K>(),
            i <= doomed@.len(),
            forall|j: int|
                0 <= j < doomed@.len() ==> m0.contains_key(#[trigger] doomed@[j]) && !kept_by_sweep(
                    m0[doomed@[j]]@,
                    now,
                    w as int,
                ),
            forall|k: K|
                #[trigger] m@.contains_key(k) <==> (m0.contains_key(k) && !doomed@.take(
                    i as int,
                ).contains(k)),
            forall|k: K| #[trigger] m@.contains_key(k) ==> m@[k] == m0[k],
        decreases doomed@.len() - i,
    {
        let key = doomed[i];
        let ghost before = m@;
        m.remove(&key);
        proof {
            let t0 = doomed@.take(i as int);
            let t1 = doomed@.take(i + 1);
            assert(t1 =~= t0.push(key));
            assert forall|k: K| #[trigger] t1.contains(k) <==> (t0.contains(k) || k == key) by {
                if t1.contains(k) && k != key {
                    let d = choose|d: int| 0 <= d < t1.len() && #[trigger] t1[d] == k;
                    assert(t0[d] == k);
                }
                if t0.contains(k) {
                    let d = choose|d: int| 0 <= d < t0.len() && #[trigger] t0[d] == k;
                    assert(t1[d] == k);
                }
                if k == key {
                    assert(t1[i as int] == k);
                }
            }
        }
        i = i + 1;
    }
    assert(doomed@.take(i as int) =~= doomed@);
    assert(queues(m@) =~= swept(queues(m0), now, w as int));
}

/// The queue a client has before its request is decided: its stored queue,
/// or an empty one for a client not seen yet.
pub open spec fn queue_or_empty<K>(m: Map<K, Seq<u64>>, k: K) -> Seq<u64> {
    if m.contains_key(k) {
        m[k]
    } else {
        Seq::<u64>::empty()
    }
}

/// The decision on one request, from the client's stored queue: the queue
/// afterwards and, for a refused request, the seconds to wait.
///
/// The queue is first pruned of requests that have left the window; the
/// request is admitted and recorded while fewer than `limit` remain.
pub open spec fn admit_spec(q0: Seq<u64>, now: u64, limit: u32, window_secs: u64) -> (
    Seq<u64>,
    Option<u64>,
) {
    let w = window_nanos(window_secs);
    let q = prune_spec(q0, now, w);
    if q.len() >= limit {
        (q, Some(retry_after_spec(q, now, w)))
    } else {
        (q.push(now), None)
    }
}

proof fn lemma_prune_shrinks(q: Seq<u64>, now: u64, w: int)
    ensures
        prune_spec(q, now, w).len() <= q.len(),
    decreases q.len(),
{
    if q.len() > 0 && expired(now, q[0], w) {
        lemma_prune_shrinks(q.drop_first(), now, w);
    }
}

/// Decides a request of client `key` at `now` against its queue in `m`.
fn admit_in<K: Copy + Eq + Hash>(
    m: &mut HashMap<K, VecDeque<u64>>,
    key: K,
    now: u64,
    limit: u32,
    window_secs: u64,
) -> (r: Option<u64>)
    requires
        obeys_key_model::<K>(),
        forall|k: K| #[trigger] old(m)@.contains_key(k) ==> old(m)@[k]@.len() <= limit,
    ensures
        ({
            let (q, retry) = admit_spec(queue_or_empty(queues(old(m)@), key), now, limit, window_secs);
            &&& queues(final(m)@) == queues(old(m)@).insert(key, q)
            &&& r == retry
        }),
        forall|k: K| #[trigger] final(m)@.contains_key(k) ==> final(m)@[k]@.len() <= limit,
{
    let ghost m0 = m@;
    let w: u128 = window_in_nanos(window_secs);
    let mut q = match m.remove(&key) {
        Some(q) => q,
        None => VecDeque::new(),
    };
    assert(q@ == queue_or_empty(queues(m0), key));
    proof {
        lemma_prune_shrinks(q@, now, w as int);
    }
    prune(&mut q, now, w);
    let r = if (q.len() as u32) >= limit {
        Some(retry_after(&q, now, window_secs))
    } else {
        q.push_back(now);
        None
    };
    m.insert(key, q);
    assert(queues(m@) =~= queues(m0).insert(key, q@));
    r
}

/// The address of a client: IPv4 or IPv6, as its numeric value.
#[derive(Clone, Copy, Debug, PartialEq, Eq, Structural)]
pub enum ClientIp {
    V4(u32),
    V6(u128),
}

/// The state of a rate limiter as the contracts see it.
pub struct RateLimitView {
    /// Requests admitted per client within one window.
    pub limit: u32,
    /// Length of the window in seconds.
    pub window_secs: u64,
    /// Whether the left-most `X-Forwarded-For` address names the client.
    pub trust_proxy: bool,
    /// The admitted request times that each known client still holds.
    pub clients: Map<ClientIp, Seq<u64>>,
    /// Time of the last sweep.
    pub last_sweep: u64,
}

/// The clients of both address families, merged into one map.
pub open spec fn merged(v4: Map<u32, Seq<u64>>, v6: Map<u128, Seq<u64>>) -> Map<ClientIp, Seq<u64>> {
    Map::new(
        |c: ClientIp|
            match c {
                ClientIp::V4(a) => v4.contains_key(a),
                ClientIp::V6(a) => v6.contains_key(a),
            },
        |c: ClientIp|
            match c {
                ClientIp::V4(a) => v4[a],
                ClientIp::V6(a) => v6[a],
            },
    )
}

/// The state after the sweep that a request at `now` triggers: when more
/// than a window has passed since the last sweep, clients whose newest
/// request has left the window are forgotten and the sweep time becomes `now`.
pub open spec fn sweep_spec(v: RateLimitView, now: u64) -> RateLimitView {
    let w = window_nanos(v.window_secs);
    if elapsed(now, v.last_sweep) > w {
        RateLimitView { clients: swept(v.clients, now, w), last_sweep: now, ..v }
    } else {
        v
    }
}

/// The state after a request from `ip` at `now`, and the seconds to wait when
/// it is refused (`None` when it is admitted). A request whose client address
/// is unknown passes and changes nothing.
pub open spec fn check_spec(v: RateLimitView, ip: Option<ClientIp>, now: u64) -> (
    RateLimitView,
    Option<u64>,
) {
    match ip {
        None => (v, None),
        Some(c) => {
            let s = sweep_spec(v, now);
            let (q, retry) = admit_spec(queue_or_empty(s.clients, c), now, s.limit, s.window_secs);
            (RateLimitView { clients: s.clients.insert(c, q), ..s }, retry)
        },
    }
}

/// Every client holds at most `limit` request times.
pub open spec fn bounded(v: RateLimitView) -> bool {
    forall|c: ClientIp| #[trigger] v.clients.contains_key(c) ==> v.clients[c].len() <= v.limit
}

/// A per-client sliding-window rate limiter.
pub struct RateLimit {
    limit: u32,
    window_secs: u64,
    trust_proxy: bool,
    v4: HashMap<u32, VecDeque<u64>>,
    v6: HashMap<u128, VecDeque<u64>>,
    last_sweep: u64,
}

impl View for RateLimit {
    type V = RateLimitView;

    closed spec fn view(&self) -> RateLimitView {
        RateLimitView {
            limit: self.limit,
            window_secs: self.window_secs,
            trust_proxy: self.trust_proxy,
            clients: merged(queues(self.v4@), queues(self.v6@)),
            last_sweep: self.last_sweep,
        }
    }
}

impl RateLimit {
    /// The limiter's internal consistency: every stored queue holds at most
    /// `limit` times.
    pub closed spec fn wf(&self) -> bool {
        &&& forall|k: u32| #[trigger] self.v4@.contains_key(k) ==> self.v4@[k]@.len() <= self.limit
        &&& forall|k: u128| #[trigger] self.v6@.contains_key(k) ==> self.v6@[k]@.len() <= self.limit
    }

    /// A limiter admitting `limit` requests per client in each window of
    /// `window_secs` seconds, with no client known yet. Its clock starts now:
    /// later times are counted from this moment.
    pub fn new(limit: u32, window_secs: u64, trust_proxy: bool) -> (r: Self)
        ensures
            r.wf(),
            r@.limit == limit,
            r@.window_secs == window_secs,
            r@.trust_proxy == trust_proxy,
            r@.clients == Map::<ClientIp, Seq<u64>>::empty(),
            r@.last_sweep == 0,
    {
        let r = RateLimit {
            limit,
            window_secs,
            trust_proxy,
            v4: HashMap::new(),
            v6: HashMap::new(),
            last_sweep: 0,
        };
        assert(r@.clients =~= Map::<ClientIp, Seq<u64>>::empty());
        r
    }

    /// Requests admitted per client within one window.
    pub fn limit(&self) -> (r: u32)
        ensures
            r == self@.limit,
    {
        self.limit
    }

    /// Length of the window in seconds.
    pub fn window_secs(&self) -> (r: u64)
        ensures
            r == self@.window_secs,
    {
        self.window_secs
    }

    /// Whether the `X-Forwarded-For` header names the client.
    pub fn trust_proxy(&self) -> (r: bool)
        ensures
            r == self@.trust_proxy,
    {
        self.trust_proxy
    }

    /// The client a request comes from: behind a trusted proxy the left-most
    /// `X-Forwarded-For` address where it parses, else the peer address.
    pub fn client_ip(&self, forwarded: Option<ClientIp>, peer: Option<ClientIp>) -> (r: Option<
        ClientIp,
    >)
        ensures
            r == (if self@.trust_proxy && forwarded is Some {
                forwarded
            } else {
                peer
            }),
    {
        if self.trust_proxy {
            if let Some(ip) = forwarded {
                return Some(ip);
            }
        }
        peer
    }

    /// Sweeps out the clients whose newest request has left the window, when
    /// more than one window has passed since the last sweep.
    pub fn sweep_if_due(&mut self, now: u64)
        requires
            old(self).wf(),
        ensures
            final(self).wf(),
            final(self)@ == sweep_spec(old(self)@, now),
    {
        let ghost v0 = self@;
        let ghost old4 = self.v4@;
        let ghost old6 = self.v6@;
        let w: u128 = window_in_nanos(self.window_secs);
        if (elapsed_exec(now, self.last_sweep) as u128) > w {
            self.last_sweep = now;
            sweep_map(&mut self.v4, now, w);
            sweep_map(&mut self.v6, now, w);
            assert(self@.clients =~= swept(v0.clients, now, w as int));
            assert forall|k: u32| #[trigger] self.v4@.contains_key(k) implies self.v4@[k]@.len()
                <= self.limit by {
                assert(queues(self.v4@).contains_key(k));
                assert(swept(queues(old4), now, w as int).contains_key(k));
                assert(old4.contains_key(k));
                assert(queues(self.v4@)[k] == queues(old4)[k]);
            }
            assert forall|k: u128| #[trigger] self.v6@.contains_key(k) implies self.v6@[k]@.len()
                <= self.limit by {
                assert(queues(self.v6@).contains_key(k));
                assert(swept(queues(old6), now, w as int).contains_key(k));
                assert(old6.contains_key(k));
                assert(queues(self.v6@)[k] == queues(old6)[k]);
            }
        }
    }

    /// Decides a request from `ip` at `now`: `None` admits it, `Some(secs)`
    /// refuses it and tells the client to retry after `secs` seconds.
    pub fn check(&mut self, ip: Option<ClientIp>, now: u64) -> (r: Option<u64>)
        requires
            old(self).wf(),
        ensures
            final(self).wf(),
            (final(self)@, r) == check_spec(old(self)@, ip, now),
    {
        match ip {
            None => None,
            Some(c) => {
                self.sweep_if_due(now);
                let ghost s = self@;
                let r = match c {
                    ClientIp::V4(a) => admit_in(
                        &mut self.v4,
                        a,
                        now,
                        self.limit,
                        self.window_secs,
                    ),
                    ClientIp::V6(a) => admit_in(
                        &mut self.v6,
                        a,
                        now,
                        self.limit,
                        self.window_secs,
                    ),
                };
                let ghost (q, retry) = admit_spec(
                    queue_or_empty(s.clients, c),
                    now,
                    s.limit,
                    s.window_secs,
                );
                assert(self@.clients =~= s.clients.insert(c, q));
                r
            },
        }
    }
}

/// The characters of `s` before its first comma (all of `s` when it has none).
pub open spec fn first_field(s: Seq<char>) -> Seq<char>
    decreases s.len(),
{
    if s.len() == 0 || s[0] == ',' {
        Seq::<char>::empty()
    } else {
        seq![s[0]] + first_field(s.drop_first())
    }
}

proof fn lemma_first_field_prefix(s: Seq<char>, i: int)
    requires
        0 <= i <= s.len(),
        forall|j: int| 0 <= j < i ==> s[j] != ',',
    ensures
        first_field(s) == s.take(i) + first_field(s.skip(i)),
    decreases i,
{
    if i > 0 {
        lemma_first_field_prefix(s.drop_first(), i - 1);
        assert(s.drop_first().skip(i - 1) =~= s.skip(i));
        assert(s.take(i) =~= seq![s[0]] + s.drop_first().take(i - 1));
    } else {
        assert(s.skip(0) =~= s);
        assert(s.take(0) + first_field(s) =~= first_field(s));
    }
}

/// The left-most address of an `X-Forwarded-For` header value: the text
/// before its first comma, without surrounding white space.
pub fn first_hop(header: &str) -> (r: &str)
    ensures
        r@ == crate::text::trim_spec(first_field(header@)),
{
    let cs = crate::text::chars_of(header);
    let n = cs.len();
    let mut i: usize = 0;
    while i < n && cs[i] != ','
        invariant
            cs@ == header@,
            n == header@.len(),
            i <= n,
            forall|j: int| 0 <= j < i ==> header@[j] != ',',
        decreases n - i,
    {
        i = i + 1;
    }
    proof {
        lemma_first_field_prefix(header@, i as int);
        assert(first_field(header@.skip(i as int)) =~= Seq::<char>::empty());
        assert(first_field(header@) =~= header@.subrange(0, i as int));
    }
    crate::text::trim(header.substring_char(0, i))
}

/// The limiter's state and answers after a sequence of requests, each given
/// as its client address (if known) and its time.
pub open spec fn run(v: RateLimitView, reqs: Seq<(Option<ClientIp>, u64)>) -> (
    RateLimitView,
    Seq<Option<u64>>,
)
    decreases reqs.len(),
{
    if reqs.len() == 0 {
        (v, Seq::<Option<u64>>::empty())
    } else {
        let (v1, rs) = run(v, reqs.drop_last());
        let (v2, r) = check_spec(v1, reqs.last().0, reqs.last().1);
        (v2, rs.push(r))
    }
}

/// The times of the requests from `c` that were admitted, in order, given
/// the requests and the answers to them.
pub open spec fn admitted_times(
    reqs: Seq<(Option<ClientIp>, u64)>,
    rs: Seq<Option<u64>>,
    c: ClientIp,
) -> Seq<u64>
    decreases reqs.len(),
{
    if reqs.len() == 0 || rs.len() != reqs.len() {
        Seq::<u64>::empty()
    } else {
        let prev = admitted_times(reqs.drop_last(), rs.drop_last(), c);
        if reqs.last().0 == Some(c) && rs.last() is None {
            prev.push(reqs.last().1)
        } else {
            prev
        }
    }
}

/// How many of the times in `s` are inside the window of `w` nanoseconds
/// that ends at `now`.
pub open spec fn count_within(s: Seq<u64>, now: u64, w: int) -> nat
    decreases s.len(),
{
    if s.len() == 0 {
        0
    } else {
        count_within(s.drop_last(), now, w) + if expired(now, s.last(), w) {
            0nat
        } else {
            1nat
        }
    }
}

/// Request times never go backwards.
pub open spec fn nondecreasing_times(reqs: Seq<(Option<ClientIp>, u64)>) -> bool {
    forall|a: int, b: int| 0 <= a <= b < reqs.len() ==> #[trigger] reqs[a].1 <= #[trigger] reqs[b].1
}

/// `q` is what the limiter should hold for a client whose admitted request
/// times are `a`: a suffix of `a`, everything before it having left the
/// window by `now`.
spec fn tracks(q: Seq<u64>, a: Seq<u64>, now: u64, w: int) -> bool {
    &&& q.len() <= a.len()
    &&& q =~= a.skip(a.len() - q.len())
    &&& forall|j: int| 0 <= j < a.len() - q.len() ==> #[trigger] expired(now, a[j], w)
}

/// `a` is sorted and no later than `now`.
spec fn sorted_upto(a: Seq<u64>, now: u64) -> bool {
    &&& forall|i: int, j: int| 0 <= i <= j < a.len() ==> #[trigger] a[i] <= #[trigger] a[j]
    &&& forall|i: int| 0 <= i < a.len() ==> #[trigger] a[i] <= now
}

/// The invariant that links the state after `n` requests to their history.
spec fn history_inv(
    v: RateLimitView,
    reqs: Seq<(Option<ClientIp>, u64)>,
    rs: Seq<Option<u64>>,
    now: u64,
) -> bool {
    &&& rs.len() == reqs.len()
    &&& forall|c: ClientIp|
        {
            let a = #[trigger] admitted_times(reqs, rs, c);
            &&& sorted_upto(a, now)
            &&& tracks(queue_or_empty(v.clients, c), a, now, window_nanos(v.window_secs))
        }
}

proof fn lemma_count_within_append(x: Seq<u64>, y: Seq<u64>, now: u64, w: int)
    ensures
        count_within(x + y, now, w) == count_within(x, now, w) + count_within(y, now, w),
    decreases y.len(),
{
    if y.len() == 0 {
        assert(x + y =~= x);
    } else {
        lemma_count_within_append(x, y.drop_last(), now, w);
        assert((x + y).drop_last() =~= x + y.drop_last());
    }
}

proof fn lemma_count_all_expired(s: Seq<u64>, now: u64, w: int)
    requires
        forall|j: int| 0 <= j < s.len() ==> #[trigger] expired(now, s[j], w),
    ensures
        count_within(s, now, w) == 0,
    decreases s.len(),
{
    if s.len() > 0 {
        assert(expired(now, s[s.len() - 1], w));
        lemma_count_all_expired(s.drop_last(), now, w);
    }
}

proof fn lemma_count_none_expired(s: Seq<u64>, now: u64, w: int)
    requires
        forall|j: int| 0 <= j < s.len() ==> !#[trigger] expired(now, s[j], w),
    ensures
        count_within(s, now, w) == s.len(),
    decreases s.len(),
{
    if s.len() > 0 {
        assert(!expired(now, s[s.len() - 1], w));
        lemma_count_none_expired(s.drop_last(), now, w);
    }
}

/// Pruning a sorted queue drops exactly the requests that have left the
/// window.
proof fn lemma_prune_sorted(q: Seq<u64>, now: u64, w: int)
    requires
        w >= 0,
        sorted_upto(q, now),
    ensures
        ({
            let p = prune_spec(q, now, w);
            &&& p.len() <= q.len()
            &&& p =~= q.skip(q.len() - p.len())
            &&& forall|j: int| 0 <= j < q.len() - p.len() ==> #[trigger] expired(now, q[j], w)
            &&& forall|j: int| 0 <= j < p.len() ==> !#[trigger] expired(now, p[j], w)
        }),
    decreases q.len(),
{
    if q.len() > 0 && expired(now, q[0], w) {
        let r = q.drop_first();
        assert forall|i: int, j: int| 0 <= i <= j < r.len() implies #[trigger] r[i] <= #[trigger] r[j] by {
            assert(q[i + 1] <= q[j + 1]);
        }
        assert forall|i: int| 0 <= i < r.len() implies #[trigger] r[i] <= now by {
            assert(q[i + 1] <= now);
        }
        lemma_prune_sorted(r, now, w);
        let p = prune_spec(r, now, w);
        assert(r.skip(r.len() - p.len()) =~= q.skip(q.len() - p.len()));
        assert forall|j: int| 0 <= j < q.len() - p.len() implies #[trigger] expired(now, q[j], w) by {
            if j > 0 {
                assert(q[j] == r[j - 1]);
                assert(expired(now, r[j - 1], w));
            }
        }
    } else if q.len() > 0 {
        assert forall|j: int| 0 <= j < q.len() implies !#[trigger] expired(now, q[j], w) by {
            assert(q[0] <= q[j]);
            assert(q[j] <= now);
        }
        assert(q.skip(0) =~= q);
    } else {
        assert(q.skip(0) =~= q);
    }
}

proof fn lemma_expired_later(t: u64, t2: u64, x: u64, w: int)
    requires
        w >= 0,
        t <= t2,
        expired(t, x, w),
    ensures
        expired(t2, x, w),
{
}

proof fn lemma_tracks_later(q: Seq<u64>, a: Seq<u64>, t: u64, t2: u64, w: int)
    requires
        w >= 0,
        t <= t2,
        tracks(q, a, t, w),
    ensures
        tracks(q, a, t2, w),
{
    assert forall|j: int| 0 <= j < a.len() - q.len() implies #[trigger] expired(t2, a[j], w) by {
        assert(expired(t, a[j], w));
        lemma_expired_later(t, t2, a[j], w);
    }
}

proof fn lemma_sorted_later(a: Seq<u64>, t: u64, t2: u64)
    requires
        t <= t2,
        sorted_upto(a, t),
    ensures
        sorted_upto(a, t2),
{
    assert forall|i: int| 0 <= i < a.len() implies #[trigger] a[i] <= t2 by {
        assert(a[i] <= t);
    }
}

/// A suffix of a sorted sequence is sorted.
proof fn lemma_suffix_sorted(q: Seq<u64>, a: Seq<u64>, now: u64)
    requires
        sorted_upto(a, now),
        q.len() <= a.len(),
        q =~= a.skip(a.len() - q.len()),
    ensures
        sorted_upto(q, now),
{
    let k = a.len() - q.len();
    assert forall|i: int, j: int| 0 <= i <= j < q.len() implies #[trigger] q[i] <= #[trigger] q[j] by {
        assert(q[i] == a[k + i]);
        assert(q[j] == a[k + j]);
    }
    assert forall|i: int| 0 <= i < q.len() implies #[trigger] q[i] <= now by {
        assert(q[i] == a[k + i]);
    }
}

/// What a sweep at `t` leaves of a client's queue still tracks its history.
proof fn lemma_sweep_keeps_tracking(
    v: RateLimitView,
    a: Seq<u64>,
    c: ClientIp,
    t0: u64,
    t: u64,
)
    requires
        t0 <= t,
        sorted_upto(a, t0),
        tracks(queue_or_empty(v.clients, c), a, t0, window_nanos(v.window_secs)),
    ensures
        tracks(queue_or_empty(sweep_spec(v, t).clients, c), a, t, window_nanos(v.window_secs)),
{
    let w = window_nanos(v.window_secs);
    let q = queue_or_empty(v.clients, c);
    lemma_tracks_later(q, a, t0, t, w);
    let s = sweep_spec(v, t);
    if elapsed(t, v.last_sweep) > w {
        if v.clients.contains_key(c) && kept_by_sweep(v.clients[c], t, w) {
            assert(s.clients.contains_key(c));
            assert(queue_or_empty(s.clients, c) == q);
        } else {
            assert(!s.clients.contains_key(c));
            assert(queue_or_empty(s.clients, c) =~= Seq::<u64>::empty());
            let k = a.len() - q.len();
            assert forall|j: int| 0 <= j < a.len() implies #[trigger] expired(t, a[j], w) by {
                if j >= k {
                    assert(q.len() > 0);
                    assert(q.last() == a[a.len() - 1]);
                    assert(a[j] <= a[a.len() - 1]);
                    assert(a[a.len() - 1] <= t0);
                }
            }
        }
    }
}

/// One request keeps the invariant; for a request with a known client
/// address, it is admitted exactly when fewer than `limit` admitted requests
/// of that client are inside the window ending at its time.
proof fn lemma_step(
    v: RateLimitView,
    reqs: Seq<(Option<ClientIp>, u64)>,
    rs: Seq<Option<u64>>,
    t0: u64,
    ip: Option<ClientIp>,
    t: u64,
)
    requires
        history_inv(v, reqs, rs, t0),
        t0 <= t,
    ensures
        ({
            let (v2, r) = check_spec(v, ip, t);
            let reqs2 = reqs.push((ip, t));
            let rs2 = rs.push(r);
            &&& history_inv(v2, reqs2, rs2, t)
            &&& v2.limit == v.limit
            &&& v2.window_secs == v.window_secs
            &&& (ip matches Some(c) ==> (r is None <==> count_within(
                admitted_times(reqs, rs, c),
                t,
                window_nanos(v.window_secs),
            ) < v.limit))
        }),
{
    let w = window_nanos(v.window_secs);
    let (v2, r) = check_spec(v, ip, t);
    let reqs2 = reqs.push((ip, t));
    let rs2 = rs.push(r);
    assert(reqs2.drop_last() =~= reqs);
    assert(rs2.drop_last() =~= rs);
    match ip {
        None => {
            assert forall|c: ClientIp| {
                let a = #[trigger] admitted_times(reqs2, rs2, c);
                &&& sorted_upto(a, t)
                &&& tracks(queue_or_empty(v2.clients, c), a, t, w)
            } by {
                let a = admitted_times(reqs, rs, c);
                assert(admitted_times(reqs2, rs2, c) == a);
                lemma_sorted_later(a, t0, t);
                lemma_tracks_later(queue_or_empty(v.clients, c), a, t0, t, w);
            }
        },
        Some(c) => {
            let s = sweep_spec(v, t);
            let a = admitted_times(reqs, rs, c);
            lemma_sweep_keeps_tracking(v, a, c, t0, t);
            lemma_sorted_later(a, t0, t);
            let q0 = queue_or_empty(s.clients, c);
            lemma_suffix_sorted(q0, a, t);
            lemma_prune_sorted(q0, t, w);
            let p = prune_spec(q0, t, w);
            let k = a.len() - p.len();
            assert(p =~= a.skip(k));
            assert forall|j: int| 0 <= j < k implies #[trigger] expired(t, a[j], w) by {
                let k0 = a.len() - q0.len();
                if j >= k0 {
                    assert(a[j] == q0[j - k0]);
                    assert(expired(t, q0[j - k0], w));
                }
            }
            assert(tracks(p, a, t, w));
            assert(a =~= a.take(k) + p);
            lemma_count_within_append(a.take(k), p, t, w);
            lemma_count_all_expired(a.take(k), t, w);
            lemma_count_none_expired(p, t, w);
            assert(count_within(a, t, w) == p.len());
            assert forall|c2: ClientIp| {
                let a2 = #[trigger] admitted_times(reqs2, rs2, c2);
                &&& sorted_upto(a2, t)
                &&& tracks(queue_or_empty(v2.clients, c2), a2, t, w)
            } by {
                if c2 == c {
                    if r is None {
                        let a2 = a.push(t);
                        assert(admitted_times(reqs2, rs2, c2) == a2);
                        assert(queue_or_empty(v2.clients, c2) == p.push(t));
                        assert(p.push(t) =~= a2.skip(a2.len() - (p.len() + 1)));
                        assert forall|i: int, j: int| 0 <= i <= j < a2.len() implies #[trigger] a2[i]
                            <= #[trigger] a2[j] by {
                            if j < a.len() {
                                assert(a2[i] == a[i]);
                                assert(a2[j] == a[j]);
                            } else if i < a.len() {
                                assert(a2[i] == a[i]);
                                assert(a[i] <= t);
                            }
                        }
                        assert forall|j: int| 0 <= j < a2.len() - (p.len() + 1) implies #[trigger] expired(
                            t,
                            a2[j],
                            w,
                        ) by {
                            assert(a2[j] == a[j]);
                        }
                    } else {
                        assert(admitted_times(reqs2, rs2, c2) == a);
                        assert(queue_or_empty(v2.clients, c2) == p);
                    }
                } else {
                    let a2 = admitted_times(reqs, rs, c2);
                    assert(admitted_times(reqs2, rs2, c2) == a2);
                    lemma_sweep_keeps_tracking(v, a2, c2, t0, t);
                    lemma_sorted_later(a2, t0, t);
                    assert(queue_or_empty(v2.clients, c2) == queue_or_empty(s.clients, c2));
                }
            }
        },
    }
}

/// The time of the last request of a sequence, or 0 for none.
spec fn last_time(reqs: Seq<(Option<ClientIp>, u64)>) -> u64 {
    if reqs.len() == 0 {
        0
    } else {
        reqs.last().1
    }
}

proof fn lemma_run_inv(v: RateLimitView, reqs: Seq<(Option<ClientIp>, u64)>)
    requires
        v.clients == Map::<ClientIp, Seq<u64>>::empty(),
        nondecreasing_times(reqs),
    ensures
        ({
            let (vn, rs) = run(v, reqs);
            &&& rs.len() == reqs.len()
            &&& vn.limit == v.limit
            &&& vn.window_secs == v.window_secs
            &&& history_inv(vn, reqs, rs, last_time(reqs))
        }),
    decreases reqs.len(),
{
    if reqs.len() == 0 {
        assert forall|c: ClientIp| {
            let a = #[trigger] admitted_times(reqs, Seq::<Option<u64>>::empty(), c);
            &&& sorted_upto(a, 0)
            &&& tracks(queue_or_empty(v.clients, c), a, 0, window_nanos(v.window_secs))
        } by {
            assert(queue_or_empty(v.clients, c) =~= Seq::<u64>::empty());
            assert(admitted_times(reqs, Seq::<Option<u64>>::empty(), c) =~= Seq::<u64>::empty());
        }
    } else {
        let pre = reqs.drop_last();
        assert(nondecreasing_times(pre)) by {
            assert forall|a: int, b: int| 0 <= a <= b < pre.len() implies #[trigger] pre[a].1
                <= #[trigger] pre[b].1 by {
                assert(reqs[a].1 <= reqs[b].1);
            }
        }
        lemma_run_inv(v, pre);
        let (v1, rs1) = run(v, pre);
        if pre.len() > 0 {
            assert(reqs[pre.len() - 1].1 <= reqs[reqs.len() - 1].1);
        }
        lemma_step(v1, pre, rs1, last_time(pre), reqs.last().0, reqs.last().1);
        assert(pre.push(reqs.last()) =~= reqs);
    }
}

proof fn lemma_run_prefix(v: RateLimitView, reqs: Seq<(Option<ClientIp>, u64)>, n: int)
    requires
        0 <= n <= reqs.len(),
    ensures
        run(v, reqs.take(n)).1 == run(v, reqs).1.take(n),
        run(v, reqs).1.len() == reqs.len(),
    decreases reqs.len(),
{
    if reqs.len() > 0 {
        let pre = reqs.drop_last();
        if n < reqs.len() {
            lemma_run_prefix(v, pre, n);
            assert(pre.take(n) =~= reqs.take(n));
            assert(run(v, pre).1.take(n) =~= run(v, reqs).1.take(n));
        } else {
            lemma_run_prefix(v, pre, 0);
            assert(reqs.take(n) =~= reqs);
            assert(run(v, reqs).1.take(n) =~= run(v, reqs).1);
        }
    } else {
        assert(reqs.take(n) =~= reqs);
        assert(run(v, reqs).1.take(n) =~= run(v, reqs).1);
    }
}

/// The sliding window holds: starting from a limiter that knows no client,
/// and with request times that never go backwards, a request from a known
/// client address is admitted exactly when fewer than `limit` earlier
/// requests of that client were admitted inside the window that ends at its
/// time; so an admitted request never makes more than `limit` admitted
/// requests of its client in that window.
pub proof fn lemma_sliding_window(v: RateLimitView, reqs: Seq<(Option<ClientIp>, u64)>, i: int)
    requires
        v.clients == Map::<ClientIp, Seq<u64>>::empty(),
        nondecreasing_times(reqs),
        0 <= i < reqs.len(),
        reqs[i].0 is Some,
    ensures
        ({
            let rs = run(v, reqs).1;
            let c = reqs[i].0->0;
            let t = reqs[i].1;
            let w = window_nanos(v.window_secs);
            &&& rs.len() == reqs.len()
            &&& (rs[i] is None <==> count_within(admitted_times(reqs.take(i), rs.take(i), c), t, w)
                < v.limit)
            &&& (rs[i] is None ==> count_within(
                admitted_times(reqs.take(i + 1), rs.take(i + 1), c),
                t,
                w,
            ) <= v.limit)
        }),
{
    let rs = run(v, reqs).1;
    let c = reqs[i].0->0;
    let t = reqs[i].1;
    let w = window_nanos(v.window_secs);
    let pre = reqs.take(i);
    assert(nondecreasing_times(pre)) by {
        assert forall|a: int, b: int| 0 <= a <= b < pre.len() implies #[trigger] pre[a].1
            <= #[trigger] pre[b].1 by {
            assert(reqs[a].1 <= reqs[b].1);
        }
    }
    lemma_run_inv(v, pre);
    lemma_run_prefix(v, reqs, i);
    lemma_run_prefix(v, reqs, i + 1);
    let (v1, rs1) = run(v, pre);
    if i > 0 {
        assert(reqs[i - 1].1 <= reqs[i].1);
    }
    lemma_step(v1, pre, rs1, last_time(pre), reqs[i].0, t);
    let cur = reqs.take(i + 1);
    assert(cur.drop_last() =~= pre);
    assert(cur.last() == reqs[i]);
    assert(run(v, cur).1 == rs1.push(check_spec(v1, reqs[i].0, t).1));
    assert(rs.take(i + 1)[i] == rs[i]);
    assert(rs.take(i + 1).drop_last() =~= rs.take(i));
    let before = admitted_times(pre, rs1, c);
    if rs[i] is None {
        assert(admitted_times(cur, rs.take(i + 1), c) == before.push(t));
        assert(before.push(t).drop_last() =~= before);
        assert(count_within(before.push(t), t, w) == count_within(before, t, w) + 1);
    }
}

/// A refused client is told to wait at least one second, and never longer
/// than the window (or one second, for a window shorter than that).
pub proof fn lemma_retry_after_range(q: Seq<u64>, now: u64, window_secs: u64)
    ensures
        1 <= retry_after_spec(q, now, window_nanos(window_secs)),
        retry_after_spec(q, now, window_nanos(window_secs)) <= if window_secs >= 1 {
            window_secs
        } else {
            1
        },
{
    let w = window_nanos(window_secs);
    let oldest = if q.len() > 0 {
        q[0]
    } else {
        now
    };
    let left = w - elapsed(now, oldest);
    if left > 0 {
        assert(left / 1_000_000_000 <= w / 1_000_000_000) by (nonlinear_arith)
            requires
                0 < left <= w,
        ;
        assert(w / 1_000_000_000 == window_secs) by (nonlinear_arith)
            requires
                w == window_secs * 1_000_000_000,
        ;
    }
}

/// No request makes a client hold more than `limit` request times.
pub proof fn lemma_check_keeps_bound(v: RateLimitView, ip: Option<ClientIp>, now: u64)
    requires
        bounded(v),
    ensures
        bounded(check_spec(v, ip, now).0),
{
    if let Some(c) = ip {
        let s = sweep_spec(v, now);
        assert(bounded(s)) by {
            assert forall|c2: ClientIp| #[trigger] s.clients.contains_key(c2) implies s.clients[c2].len()
                <= s.limit by {
                assert(v.clients.contains_key(c2));
            }
        }
        let q0 = queue_or_empty(s.clients, c);
        lemma_prune_shrinks(q0, now, window_nanos(s.window_secs));
        let v2 = check_spec(v, ip, now).0;
        assert forall|c2: ClientIp| #[trigger] v2.clients.contains_key(c2) implies v2.clients[c2].len()
            <= v2.limit by {
            if c2 != c {
                assert(s.clients.contains_key(c2));
            }
        }
    }
}

/// How many of the times in `s` lie in `[lo, hi]`.
pub open spec fn count_between(s: Seq<u64>, lo: int, hi: int) -> nat
    decreases s.len(),
{
    if s.len() == 0 {
        0
    } else {
        count_between(s.drop_last(), lo, hi) + if lo <= s.last() <= hi {
            1nat
        } else {
            0nat
        }
    }
}

proof fn lemma_count_between_append(x: Seq<u64>, y: Seq<u64>, lo: int, hi: int)
    ensures
        count_between(x + y, lo, hi) == count_between(x, lo, hi) + count_between(y, lo, hi),
    decreases y.len(),
{
    if y.len() == 0 {
        assert(x + y =~= x);
    } else {
        lemma_count_between_append(x, y.drop_last(), lo, hi);
        assert((x + y).drop_last() =~= x + y.drop_last());
    }
}

proof fn lemma_count_between_none(s: Seq<u64>, lo: int, hi: int)
    requires
        forall|j: int| 0 <= j < s.len() ==> !(lo <= #[trigger] s[j] <= hi),
    ensures
        count_between(s, lo, hi) == 0,
    decreases s.len(),
{
    if s.len() > 0 {
        assert(!(lo <= s[s.len() - 1] <= hi));
        lemma_count_between_none(s.drop_last(), lo, hi);
    }
}

/// Every time counted in `[lo, hi]` is inside the window ending at `t`, so
/// the window count is at least as large.
proof fn lemma_count_between_le_within(s: Seq<u64>, lo: int, hi: int, t: u64, w: int)
    requires
        forall|j: int| 0 <= j < s.len() && lo <= #[trigger] s[j] <= hi ==> !expired(t, s[j], w),
    ensures
        count_between(s, lo, hi) <= count_within(s, t, w),
    decreases s.len(),
{
    if s.len() > 0 {
        let r = s.drop_last();
        assert forall|j: int| 0 <= j < r.len() && lo <= #[trigger] r[j] <= hi implies !expired(t, r[j], w) by {
            assert(r[j] == s[j]);
        }
        lemma_count_between_le_within(r, lo, hi, t, w);
        assert(lo <= s[s.len() - 1] <= hi ==> !expired(t, s[s.len() - 1], w));
    }
}

/// Every admitted time of a client comes from one of its requests, and the
/// times admitted up to that request are the ones before it.
proof fn lemma_admitted_source(
    reqs: Seq<(Option<ClientIp>, u64)>,
    rs: Seq<Option<u64>>,
    c: ClientIp,
    p: int,
) -> (i: int)
    requires
        rs.len() == reqs.len(),
        0 <= p < admitted_times(reqs, rs, c).len(),
    ensures
        0 <= i < reqs.len(),
        reqs[i].0 == Some(c),
        rs[i] is None,
        reqs[i].1 == admitted_times(reqs, rs, c)[p],
        admitted_times(reqs.take(i + 1), rs.take(i + 1), c) == admitted_times(reqs, rs, c).take(
            p + 1,
        ),
    decreases reqs.len(),
{
    let a = admitted_times(reqs, rs, c);
    let pre = reqs.drop_last();
    let prs = rs.drop_last();
    let prev = admitted_times(pre, prs, c);
    let n = reqs.len() - 1;
    if reqs.last().0 == Some(c) && rs.last() is None && p == prev.len() {
        assert(reqs.take(n + 1) =~= reqs);
        assert(rs.take(n + 1) =~= rs);
        assert(a.take(p + 1) =~= a);
        n
    } else {
        assert(p < prev.len());
        let i = lemma_admitted_source(pre, prs, c, p);
        assert(pre.take(i + 1) =~= reqs.take(i + 1));
        assert(prs.take(i + 1) =~= rs.take(i + 1));
        assert(a.take(p + 1) =~= prev.take(p + 1));
        assert(a[p] == prev[p]);
        i
    }
}

/// The position of the last time not after `hi`, in a sorted sequence,
/// searching from a position that is not after it.
proof fn lemma_last_not_after(a: Seq<u64>, hi: u64, j0: int) -> (p: int)
    requires
        0 <= j0 < a.len(),
        a[j0] <= hi,
        forall|i: int, j: int| 0 <= i <= j < a.len() ==> #[trigger] a[i] <= #[trigger] a[j],
    ensures
        j0 <= p < a.len(),
        a[p] <= hi,
        forall|q: int| p < q < a.len() ==> #[trigger] a[q] > hi,
    decreases a.len() - j0,
{
    if j0 + 1 < a.len() && a[j0 + 1] <= hi {
        lemma_last_not_after(a, hi, j0 + 1)
    } else {
        assert forall|q: int| j0 < q < a.len() implies #[trigger] a[q] > hi by {
            assert(a[j0 + 1] <= a[q]);
        }
        j0
    }
}

/// The rate limit holds in every window: starting from a limiter that knows
/// no client, with request times that never go backwards, no client has more
/// than `limit` requests admitted within any window `[hi - w, hi]` of the
/// limiter's length.
pub proof fn lemma_at_most_limit_per_window(
    v: RateLimitView,
    reqs: Seq<(Option<ClientIp>, u64)>,
    c: ClientIp,
    hi: u64,
)
    requires
        v.clients == Map::<ClientIp, Seq<u64>>::empty(),
        nondecreasing_times(reqs),
    ensures
        count_between(
            admitted_times(reqs, run(v, reqs).1, c),
            hi - window_nanos(v.window_secs),
            hi as int,
        ) <= v.limit,
{
    let rs = run(v, reqs).1;
    let w = window_nanos(v.window_secs);
    let lo = hi - w;
    lemma_run_inv(v, reqs);
    let a = admitted_times(reqs, rs, c);
    assert(sorted_upto(a, last_time(reqs)));
    if exists|j: int| 0 <= j < a.len() && lo <= #[trigger] a[j] <= hi {
        // The last admitted time that is not after `hi`.
        let j0 = choose|j: int| 0 <= j < a.len() && lo <= #[trigger] a[j] <= hi;
        let p = lemma_last_not_after(a, hi, j0);
        let i = lemma_admitted_source(reqs, rs, c, p);
        lemma_sliding_window(v, reqs, i);
        let before = a.take(p + 1);
        assert(a =~= before + a.skip(p + 1));
        lemma_count_between_append(before, a.skip(p + 1), lo, hi as int);
        assert forall|j: int| 0 <= j < a.skip(p + 1).len() implies !(lo <= #[trigger] a.skip(
            p + 1,
        )[j] <= hi) by {
            assert(a.skip(p + 1)[j] == a[p + 1 + j]);
        }
        lemma_count_between_none(a.skip(p + 1), lo, hi as int);
        assert forall|j: int| 0 <= j < before.len() && lo <= #[trigger] before[j] <= hi implies !expired(
            a[p],
            before[j],
            w,
        ) by {
            assert(a[j] <= a[p]);
        }
        lemma_count_between_le_within(before, lo, hi as int, a[p], w);
    } else {
        lemma_count_between_none(a, lo, hi as int);
    }
}

} // verus!
