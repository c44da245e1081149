//! Automatic reconnection: how long to wait before each retry, and which
//! tunnels have a retry pending or an attempt in flight.
//!
//! Time is given as plain integers: points in time (`now`, `due_at`) and
//! runtimes are milliseconds on a monotonic clock that the caller chooses,
//! intervals and delays are whole seconds.
use std::collections::HashMap;
use vstd::prelude::*;
use vstd::arithmetic::power2::pow2;
use vstd::std_specs::hash::group_hash_axioms;
use vstd::std_specs::iter::IteratorSpec;

verus! {

/// A connection that survives this long (in milliseconds) starts a fresh retry
/// budget after its next disconnect.
pub const STABLE_CONNECTION_TIME: u64 = 30_000;

/// The longest wait between two attempts, in seconds.
pub const MAX_RETRY_DELAY: u64 = 300;

/// The largest `now` the tracker accepts: a retry due time must still fit.
pub const MAX_NOW: u64 = 18_446_744_073_709_251_615;

/// A retry that waits for its time.
#[derive(Debug, Clone, Copy, PartialEq, Eq, Structural)]
pub struct PendingRetry {
    /// Which attempt this is, counting from 1.
    pub attempt: u16,
    /// When it is due, in milliseconds.
    pub due_at: u64,
    /// How long it waits, in seconds.
    pub delay: u64,
}

/// What happens after a tunnel went down.
#[derive(Debug, Clone, Copy, PartialEq, Eq, Structural)]
pub enum RetryDecision {
    /// Attempt number `attempt` runs after `delay` seconds.
    Scheduled { attempt: u16, delay: u64 },
    /// The budget is spent after `attempts` attempts; nothing is scheduled.
    Exhausted { attempts: u16 },
}

/// The wait before attempt `attempt`: the initial interval (at least one
/// second) doubled for each attempt after the first, capped at five minutes.
pub open spec fn spec_retry_delay(initial_interval: u64, attempt: u16) -> u64 {
    let base: nat = if initial_interval >= 1 { initial_interval as nat } else { 1 };
    let exponent: nat = if attempt >= 1 { (attempt - 1) as nat } else { 0 };
    let product = base * pow2(exponent);
    if product < MAX_RETRY_DELAY { product as u64 } else { MAX_RETRY_DELAY }
}

proof fn lemma_pow2_ge(e: nat, f: nat)
    requires
        e >= f,
    ensures
        pow2(e) >= pow2(f),
    decreases e,
{
    vstd::arithmetic::power2::lemma_pow2_pos(e);
    if e > f {
        lemma_pow2_ge((e - 1) as nat, f);
        vstd::arithmetic::power2::lemma_pow2_unfold(e);
    }
}

proof fn lemma_mul_ge_pow(base: nat, e: nat)
    requires
        base >= 1,
    ensures
        base * pow2(e) >= pow2(e),
{
    vstd::arithmetic::power2::lemma_pow2_pos(e);
    assert(base * pow2(e) >= 1 * pow2(e)) by (nonlinear_arith)
        requires
            base >= 1,
            pow2(e) > 0,
    ;
}

/// How long to wait before attempt `attempt` (in seconds), given the initial interval in seconds.
pub fn retry_delay(initial_interval: u64, attempt: u16) -> (delay: u64)
    ensures
        delay == spec_retry_delay(initial_interval, attempt),
{
    let exponent: u16 = attempt.saturating_sub(1);
    let base: u64 = if initial_interval >= 1 { initial_interval } else { 1 };
    if exponent >= 9 {
        proof {
            lemma_pow2_ge(exponent as nat, 9);
            vstd::arithmetic::power2::lemma2_to64();
            lemma_mul_ge_pow(base as nat, exponent as nat);
        }
        return MAX_RETRY_DELAY;
    }
    let multiplier: u64 = 1u64 << (exponent as u64);
    proof {
        vstd::arithmetic::power2::lemma2_to64();
        lemma_pow2_ge(8, exponent as nat);
        vstd::bits::lemma_u64_shl_is_mul(1, exponent as u64);
    }
    let seconds: u64 = if base > MAX_RETRY_DELAY / multiplier {
        proof {
            assert(base * multiplier >= MAX_RETRY_DELAY) by (nonlinear_arith)
                requires
                    base > MAX_RETRY_DELAY / multiplier,
                    multiplier > 0,
            ;
        }
        MAX_RETRY_DELAY
    } else {
        proof {
            assert(base * multiplier <= MAX_RETRY_DELAY) by (nonlinear_arith)
                requires
                    base <= MAX_RETRY_DELAY / multiplier,
                    multiplier > 0,
            ;
        }
        let product = base * multiplier;
        if product < MAX_RETRY_DELAY {
            product
        } else {
            MAX_RETRY_DELAY
        }
    };
    seconds
}


/// The retry state of every tunnel: a retry waiting for its time, and the
/// attempt number of a retry that is running now.
#[derive(Debug)]
pub struct ReconnectTracker {
    pending: HashMap<u128, PendingRetry>,
    active_attempts: HashMap<u128, u16>,
}

/// The tracker's state as two maps keyed by tunnel id.
pub struct TrackerView {
    pub pending: Map<u128, PendingRetry>,
    pub active: Map<u128, u16>,
}

impl View for ReconnectTracker {
    type V = TrackerView;

    closed spec fn view(&self) -> TrackerView {
        TrackerView { pending: self.pending@, active: self.active_attempts@ }
    }
}

/// Whether the retry for `id` is pending and due at `now`.
pub open spec fn is_due(pending: Map<u128, PendingRetry>, now: u64, id: u128) -> bool {
    pending.contains_key(id) && pending[id].due_at <= now
}

/// The pending retries that are not yet due at `now`.
pub open spec fn not_due(pending: Map<u128, PendingRetry>, now: u64) -> Map<u128, PendingRetry> {
    Map::new(|id: u128| pending.contains_key(id) && pending[id].due_at > now, |id: u128| pending[id])
}

/// The attempt that follows `completed` attempts (`u16::saturating_add(1)`).
pub open spec fn next_attempt(completed: u16) -> u16 {
    if completed < u16::MAX { (completed + 1) as u16 } else { u16::MAX }
}

/// What a failure after `completed` attempts does to the pending retries and
/// what it answers: exhausted when the next attempt would pass the budget,
/// otherwise the next attempt is scheduled after its delay.
pub open spec fn failure_outcome(
    pending: Map<u128, PendingRetry>,
    id: u128,
    completed: u16,
    max_attempts: u16,
    initial_interval: u64,
    now: u64,
) -> (Map<u128, PendingRetry>, RetryDecision) {
    let next = next_attempt(completed);
    if next > max_attempts {
        (pending.remove(id), RetryDecision::Exhausted { attempts: completed })
    } else {
        let delay = spec_retry_delay(initial_interval, next);
        (
            pending.insert(id, PendingRetry { attempt: next, due_at: (now + delay * 1000) as u64, delay }),
            RetryDecision::Scheduled { attempt: next, delay },
        )
    }
}

/// The attempts that a tunnel which ran for `runtime` milliseconds has used:
/// none once the connection was stable, otherwise those recorded as active.
pub open spec fn completed_after_exit(active: Map<u128, u16>, id: u128, runtime: u64) -> u16 {
    if runtime >= STABLE_CONNECTION_TIME {
        0
    } else if active.contains_key(id) {
        active[id]
    } else {
        0
    }
}

/// The entries of `keys` that are due, with their attempt numbers, in the order of `keys`.
pub open spec fn due_entries(keys: Seq<u128>, pending: Map<u128, PendingRetry>, now: u64) -> Seq<(u128, u16)>
    decreases keys.len(),
{
    if keys.len() == 0 {
        Seq::empty()
    } else {
        let rest = due_entries(keys.drop_last(), pending, now);
        let k = keys.last();
        if is_due(pending, now, k) {
            rest.push((k, pending[k].attempt))
        } else {
            rest
        }
    }
}

proof fn lemma_due_entries_members(keys: Seq<u128>, pending: Map<u128, PendingRetry>, now: u64)
    ensures
        forall|x: (u128, u16)| #[trigger] due_entries(keys, pending, now).contains(x) <==> (keys.contains(x.0)
            && is_due(pending, now, x.0) && x.1 == pending[x.0].attempt),
        keys.no_duplicates() ==> ids_distinct(due_entries(keys, pending, now)),
    decreases keys.len(),
{
    if keys.len() > 0 {
        let rest = keys.drop_last();
        lemma_due_entries_members(rest, pending, now);
        let d = due_entries(keys, pending, now);
        let dr = due_entries(rest, pending, now);
        assert forall|x: (u128, u16)| #[trigger] d.contains(x) <==> (keys.contains(x.0) && is_due(pending, now, x.0)
            && x.1 == pending[x.0].attempt) by {
            if d.contains(x) {
                if dr.contains(x) {
                    let j = choose|j: int| 0 <= j < rest.len() && rest[j] == x.0;
                    assert(keys[j] == x.0);
                } else {
                    assert(keys[keys.len() - 1] == x.0);
                }
            }
            if keys.contains(x.0) && is_due(pending, now, x.0) && x.1 == pending[x.0].attempt {
                let j = choose|j: int| 0 <= j < keys.len() && keys[j] == x.0;
                if j < keys.len() - 1 {
                    assert(rest[j] == x.0);
                    assert(dr.contains(x));
                    let i = choose|i: int| 0 <= i < dr.len() && dr[i] == x;
                    if is_due(pending, now, keys.last()) {
                        assert(d[i] == x);
                    }
                } else {
                    assert(d.last() == x);
                }
            }
        }
        if keys.no_duplicates() {
            assert(rest.no_duplicates());
            if is_due(pending, now, keys.last()) {
                assert forall|i: int, j: int| 0 <= i < j < d.len() implies d[i].0 != d[j].0 by {
                    if j == d.len() - 1 {
                        assert(dr.contains(d[i]));
                        let m = choose|m: int| 0 <= m < rest.len() && rest[m] == d[i].0;
                        assert(keys[m] == rest[m]);
                    }
                }
            }
        }
    }
}

/// No two entries carry the same id.
pub open spec fn ids_distinct(s: Seq<(u128, u16)>) -> bool {
    forall|i: int, j: int| 0 <= i < j < s.len() ==> s[i].0 != s[j].0
}

/// The entries in strictly increasing order of id.
pub open spec fn ids_increasing(s: Seq<(u128, u16)>) -> bool {
    forall|i: int, j: int| 0 <= i < j < s.len() ==> s[i].0 < s[j].0
}

/// The entries of `v` ordered by id.
fn sort_by_id(v: &Vec<(u128, u16)>) -> (r: Vec<(u128, u16)>)
    requires
        ids_distinct(v@),
    ensures
        ids_increasing(r@),
        forall|x: (u128, u16)| r@.contains(x) <==> v@.contains(x),
{
    let mut r: Vec<(u128, u16)> = Vec::new();
    for k in 0..v.len()
        invariant
            ids_distinct(v@),
            ids_increasing(r@),
            forall|x: (u128, u16)| r@.contains(x) <==> v@.take(k as int).contains(x),
    {
        let e = v[k];
        let mut pos: usize = 0;
        while pos < r.len() && r[pos].0 < e.0
            invariant
                pos <= r.len(),
                forall|j: int| 0 <= j < pos ==> r@[j].0 < e.0,
            decreases r.len() - pos,
        {
            pos += 1;
        }
        let ghost old_r = r@;
        proof {
            if pos < r.len() {
                assert(old_r.contains(old_r[pos as int]));
                assert(v@.take(k as int).contains(old_r[pos as int]));
                let m = choose|m: int| 0 <= m < k && v@.take(k as int)[m] == old_r[pos as int];
                assert(v@[m] == old_r[pos as int]);
                assert(old_r[pos as int].0 != e.0);
            }
        }
        r.insert(pos, e);
        proof {
            assert forall|x: (u128, u16)| r@.contains(x) <==> v@.take(k + 1).contains(x) by {
                assert(v@.take(k + 1) == v@.take(k as int).push(e));
                if r@.contains(x) {
                    let i = choose|i: int| 0 <= i < r@.len() && r@[i] == x;
                    if i != pos {
                        let oi = if i < pos { i } else { i - 1 };
                        assert(old_r[oi] == x);
                        assert(old_r.contains(x));
                        assert(v@.take(k as int).contains(x));
                        let m = choose|m: int| 0 <= m < k && v@.take(k as int)[m] == x;
                        assert(v@.take(k + 1)[m] == x);
                    } else {
                        assert(v@.take(k + 1)[k as int] == x);
                    }
                }
                if v@.take(k + 1).contains(x) {
                    if x != e {
                        assert(v@.take(k as int).contains(x));
                        assert(old_r.contains(x));
                        let i = choose|i: int| 0 <= i < old_r.len() && old_r[i] == x;
                        if i < pos {
                            assert(r@[i] == x);
                        } else {
                            assert(r@[i + 1] == x);
                        }
                    } else {
                        assert(r@[pos as int] == e);
                    }
                }
            }
        }
    }
    assert(v@.take(v.len() as int) == v@);
    r
}

impl Default for ReconnectTracker {
    fn default() -> (t: Self)
        ensures
            t@.pending == Map::<u128, PendingRetry>::empty(),
            t@.active == Map::<u128, u16>::empty(),
    {
        ReconnectTracker { pending: HashMap::new(), active_attempts: HashMap::new() }
    }
}

impl ReconnectTracker {
    /// A tracker with nothing pending and nothing active.
    pub fn new() -> (t: Self)
        ensures
            t@.pending == Map::<u128, PendingRetry>::empty(),
            t@.active == Map::<u128, u16>::empty(),
    {
        ReconnectTracker { pending: HashMap::new(), active_attempts: HashMap::new() }
    }

    /// Forgets every retry state of the tunnel `id`.
    pub fn cancel(&mut self, id: u128)
        ensures
            final(self)@.pending == old(self)@.pending.remove(id),
            final(self)@.active == old(self)@.active.remove(id),
    {
        broadcast use group_hash_axioms;

        self.pending.remove(&id);
        self.active_attempts.remove(&id);
    }

    /// Records that the tunnel `id` was started: its pending retry is consumed,
    /// and the attempt it runs as (none for a start by hand) is remembered.
    pub fn mark_started(&mut self, id: u128, retry_attempt: Option<u16>)
        ensures
            final(self)@.pending == old(self)@.pending.remove(id),
            final(self)@.active == (match retry_attempt {
                Some(attempt) => old(self)@.active.insert(id, attempt),
                None => old(self)@.active.remove(id),
            }),
    {
        broadcast use group_hash_axioms;

        self.pending.remove(&id);
        match retry_attempt {
            Some(attempt) => {
                self.active_attempts.insert(id, attempt);
            },
            None => {
                self.active_attempts.remove(&id);
            },
        }
    }

    /// Decides what follows when the tunnel `id` exited after running for
    /// `runtime` milliseconds.
    pub fn after_exit(
        &mut self,
        id: u128,
        max_attempts: u16,
        initial_interval: u64,
        runtime: u64,
        now: u64,
    ) -> (decision: RetryDecision)
        requires
            now <= MAX_NOW,
        ensures
            ({
                let completed = completed_after_exit(old(self)@.active, id, runtime);
                let (pending, d) = failure_outcome(old(self)@.pending, id, completed, max_attempts, initial_interval, now);
                &&& final(self)@.pending == pending
                &&& decision == d
            }),
            final(self)@.active == old(self)@.active.remove(id),
    {
        broadcast use group_hash_axioms;

        let recorded = self.active_attempts.remove(&id);
        let completed_attempts = match recorded {
            Some(attempt) => attempt,
            None => 0,
        };
        let completed_attempts = if runtime >= STABLE_CONNECTION_TIME {
            0
        } else {
            completed_attempts
        };
        self.after_failure(id, completed_attempts, max_attempts, initial_interval, now)
    }

    /// Decides what follows when attempt `failed_attempt` could not even start
    /// the tunnel `id`.
    pub fn after_start_failure(
        &mut self,
        id: u128,
        failed_attempt: u16,
        max_attempts: u16,
        initial_interval: u64,
        now: u64,
    ) -> (decision: RetryDecision)
        requires
            now <= MAX_NOW,
        ensures
            ({
                let (pending, d) = failure_outcome(old(self)@.pending, id, failed_attempt, max_attempts, initial_interval, now);
                &&& final(self)@.pending == pending
                &&& decision == d
            }),
            final(self)@.active == old(self)@.active.remove(id),
    {
        broadcast use group_hash_axioms;

        self.active_attempts.remove(&id);
        self.after_failure(id, failed_attempt, max_attempts, initial_interval, now)
    }

    /// Removes and returns the retries that are due at `now`, ordered by tunnel id.
    pub fn take_due(&mut self, now: u64) -> (due: Vec<(u128, u16)>)
        ensures
            ids_increasing(due@),
            forall|i: int| 0 <= i < due@.len() ==> is_due(old(self)@.pending, now, #[trigger] due@[i].0)
                && due@[i].1 == old(self)@.pending[due@[i].0].attempt,
            forall|id: u128| is_due(old(self)@.pending, now, id) ==> exists|i: int| 0 <= i < due@.len()
                && #[trigger] due@[i].0 == id,
            final(self)@.pending == not_due(old(self)@.pending, now),
            final(self)@.active == old(self)@.active,
    {
        broadcast use group_hash_axioms;

        let ghost old_pending = self.pending@;
        let mut found: Vec<(u128, u16)> = Vec::new();
        let ghost all = vstd::std_specs::hash::spec_keys_iter(&self.pending).remaining();
        let ghost keys = all.unref();
        for id in it: self.pending.keys()
            invariant
                self.pending@ == old_pending,
                it.seq() == all,
                keys == all.unref(),
                found@ == due_entries(it.seq().take(it.index() as int).unref(), old_pending, now),
        {
            let ghost before = it.seq().take(it.index() as int).unref();
            let retry = self.pending.get(id).unwrap();
            assert(it.seq().take(it.index() + 1).unref().drop_last() == before);
            if retry.due_at <= now {
                found.push((*id, retry.attempt));
            }
        }
        proof {
            assert(all.take(all.len() as int) == all);
            assert(found@ == due_entries(keys, old_pending, now));
            assert(keys.to_set() == old_pending.dom());
            assert(keys.no_duplicates()) by {
                assert forall|i: int, j: int| 0 <= i < keys.len() && 0 <= j < keys.len() && i != j implies keys[i]
                    != keys[j] by {
                    assert(all[i] != all[j]);
                }
            }
            lemma_due_entries_members(keys, old_pending, now);
        }
        let due = sort_by_id(&found);
        let mut i: usize = 0;
        while i < due.len()
            invariant
                i <= due.len(),
                forall|k: u128| #[trigger] self.pending@.contains_key(k) <==> (old_pending.contains_key(k)
                    && !(exists|j: int| 0 <= j < i && due@[j].0 == k)),
                forall|k: u128| #[trigger] self.pending@.contains_key(k) ==> self.pending@[k] == old_pending[k],
                self.active_attempts@ == old(self).active_attempts@,
            decreases due.len() - i,
        {
            let k = due[i].0;
            self.pending.remove(&k);
            i += 1;
        }
        proof {
            assert forall|x: (u128, u16)| due@.contains(x) <==> (keys.contains(x.0) && is_due(old_pending, now, x.0)
                && x.1 == old_pending[x.0].attempt) by {
                assert(due@.contains(x) <==> found@.contains(x));
            }
            assert forall|k: u128| is_due(old_pending, now, k) implies exists|i: int| 0 <= i < due@.len()
                && #[trigger] due@[i].0 == k by {
                assert(old_pending.dom().contains(k));
                let x = (k, old_pending[k].attempt);
                assert(keys.to_set().contains(k));
                assert(keys.contains(k));
                assert(due@.contains(x));
            }
            assert forall|i: int| 0 <= i < due@.len() implies is_due(old_pending, now, #[trigger] due@[i].0)
                && due@[i].1 == old_pending[due@[i].0].attempt by {
                assert(due@.contains(due@[i]));
            }
            assert forall|k: u128| (exists|j: int| 0 <= j < due@.len() && due@[j].0 == k) <==> is_due(old_pending, now, k) by {
                if exists|j: int| 0 <= j < due@.len() && due@[j].0 == k {
                    let j = choose|j: int| 0 <= j < due@.len() && due@[j].0 == k;
                    assert(is_due(old_pending, now, due@[j].0));
                }
            }
            assert(i == due.len());
            assert forall|k: u128| self.pending@.contains_key(k) <==> not_due(old_pending, now).contains_key(k) by {
                assert(self.pending@.contains_key(k) <==> (old_pending.contains_key(k) && !is_due(old_pending, now, k)));
            }
            assert(self.pending@.dom() =~= not_due(old_pending, now).dom());
            assert(self.pending@ =~= not_due(old_pending, now));
        }
        due
    }

    /// The retry waiting for the tunnel `id`, if any.
    pub fn pending(&self, id: u128) -> (r: Option<&PendingRetry>)
        ensures
            r matches Some(p) ==> self@.pending.contains_key(id) && *p == self@.pending[id],
            r is None ==> !self@.pending.contains_key(id),
    {
        broadcast use group_hash_axioms;

        self.pending.get(&id)
    }

    /// The attempt number that the tunnel `id` is running as, if it was started by a retry.
    pub fn active_attempt(&self, id: u128) -> (r: Option<u16>)
        ensures
            r matches Some(a) ==> self@.active.contains_key(id) && a == self@.active[id],
            r is None ==> !self@.active.contains_key(id),
    {
        broadcast use group_hash_axioms;

        match self.active_attempts.get(&id) {
            Some(a) => Some(*a),
            None => None,
        }
    }

    /// Whether the tunnel `id` has a retry pending or running.
    pub fn contains(&self, id: u128) -> (r: bool)
        ensures
            r == (self@.pending.contains_key(id) || self@.active.contains_key(id)),
    {
        broadcast use group_hash_axioms;

        self.pending.contains_key(&id) || self.active_attempts.contains_key(&id)
    }

    fn after_failure(
        &mut self,
        id: u128,
        completed_attempts: u16,
        max_attempts: u16,
        initial_interval: u64,
        now: u64,
    ) -> (decision: RetryDecision)
        requires
            now <= MAX_NOW,
        ensures
            ({
                let (pending, d) = failure_outcome(old(self)@.pending, id, completed_attempts, max_attempts, initial_interval, now);
                &&& final(self)@.pending == pending
                &&& decision == d
            }),
            final(self)@.active == old(self)@.active,
    {
        broadcast use group_hash_axioms;

        let next_attempt = completed_attempts.saturating_add(1);
        if next_attempt > max_attempts {
            self.pending.remove(&id);
            RetryDecision::Exhausted { attempts: completed_attempts }
        } else {
            let delay = retry_delay(initial_interval, next_attempt);
            let due_at = now + delay * 1000;
            self.pending.insert(id, PendingRetry { attempt: next_attempt, due_at, delay });
            RetryDecision::Scheduled { attempt: next_attempt, delay }
        }
    }
}


/// The first attempt waits the initial interval (at least one second, at most
/// five minutes); every later attempt waits twice as long as the one before,
/// until the five-minute cap, which it never exceeds.
pub proof fn retry_delay_doubles_until_the_cap(initial_interval: u64, attempt: u16)
    requires
        1 <= attempt < u16::MAX,
    ensures
        spec_retry_delay(initial_interval, 1) == (if initial_interval == 0 {
            1u64
        } else if initial_interval < MAX_RETRY_DELAY {
            initial_interval
        } else {
            MAX_RETRY_DELAY
        }),
        1 <= spec_retry_delay(initial_interval, attempt) <= MAX_RETRY_DELAY,
        spec_retry_delay(initial_interval, (attempt + 1) as u16) as int == (if 2 * spec_retry_delay(
            initial_interval,
            attempt,
        ) < MAX_RETRY_DELAY {
            2 * spec_retry_delay(initial_interval, attempt)
        } else {
            MAX_RETRY_DELAY as int
        }),
{
    let base: nat = if initial_interval >= 1 { initial_interval as nat } else { 1 };
    let e = (attempt - 1) as nat;
    vstd::arithmetic::power2::lemma_pow2_unfold(e + 1);
    vstd::arithmetic::power2::lemma_pow2_pos(e);
    assert(pow2(0) == 1) by {
        vstd::arithmetic::power2::lemma2_to64();
    }
    assert(base * pow2(0) == base);
    lemma_mul_ge_pow(base, e);
    assert(base * pow2(e + 1) == 2 * (base * pow2(e))) by (nonlinear_arith)
        requires
            pow2(e + 1) == 2 * pow2(e),
    ;
}

/// A failure never schedules an attempt beyond the budget: either attempt
/// `completed + 1` (at most `max_attempts`) is pending with exactly the decided
/// delay, or the budget is reported exhausted after `completed` attempts and
/// nothing is pending for the tunnel.
pub proof fn failure_respects_the_attempt_budget(
    pending: Map<u128, PendingRetry>,
    id: u128,
    completed: u16,
    max_attempts: u16,
    initial_interval: u64,
    now: u64,
)
    requires
        now <= MAX_NOW,
    ensures
        ({
            let (after, decision) = failure_outcome(pending, id, completed, max_attempts, initial_interval, now);
            match decision {
                RetryDecision::Scheduled { attempt, delay } => {
                    &&& attempt <= max_attempts
                    &&& attempt == next_attempt(completed)
                    &&& after.contains_key(id)
                    &&& after[id] == PendingRetry { attempt, due_at: (now + delay * 1000) as u64, delay }
                    &&& 1 <= delay <= MAX_RETRY_DELAY
                    &&& now < after[id].due_at
                },
                RetryDecision::Exhausted { attempts } => {
                    &&& attempts == completed
                    &&& next_attempt(completed) > max_attempts
                    &&& !after.contains_key(id)
                },
            }
        }),
{
    let next = next_attempt(completed);
    if next <= max_attempts {
        if next < u16::MAX {
            retry_delay_doubles_until_the_cap(initial_interval, next);
        } else {
            let base: nat = if initial_interval >= 1 { initial_interval as nat } else { 1 };
            lemma_mul_ge_pow(base, (next - 1) as nat);
            vstd::arithmetic::power2::lemma_pow2_pos((next - 1) as nat);
        }
    }
}

/// A connection that stayed up for the stable time gets a fresh budget: what
/// follows its exit does not depend on the attempt it was started as.
pub proof fn stable_connection_gets_a_fresh_budget(
    tracker: TrackerView,
    id: u128,
    max_attempts: u16,
    initial_interval: u64,
    runtime: u64,
    now: u64,
)
    requires
        runtime >= STABLE_CONNECTION_TIME,
    ensures
        completed_after_exit(tracker.active, id, runtime) == 0,
        failure_outcome(tracker.pending, id, completed_after_exit(tracker.active, id, runtime), max_attempts, initial_interval, now)
            == failure_outcome(tracker.pending, id, 0, max_attempts, initial_interval, now),
{
}

/// After `cancel(id)` nothing is pending or active for `id`, and every other
/// tunnel keeps its state.
pub proof fn cancel_forgets_the_tunnel(before: TrackerView, after: TrackerView, id: u128, other: u128)
    requires
        after.pending == before.pending.remove(id),
        after.active == before.active.remove(id),
        other != id,
    ensures
        !after.pending.contains_key(id),
        !after.active.contains_key(id),
        after.pending.contains_key(other) == before.pending.contains_key(other),
        after.pending.contains_key(other) ==> after.pending[other] == before.pending[other],
        after.active.contains_key(other) == before.active.contains_key(other),
        after.active.contains_key(other) ==> after.active[other] == before.active[other],
{
}

/// A retry scheduled at `now` is handed out by the first `take_due` at or after
/// its due time and not by any before it; taking is final: once taken, a retry
/// is no longer pending, and the retries not yet due stay as they were.
pub proof fn retries_are_taken_exactly_when_due(
    pending: Map<u128, PendingRetry>,
    id: u128,
    completed: u16,
    max_attempts: u16,
    initial_interval: u64,
    now: u64,
    later: u64,
)
    requires
        now <= MAX_NOW,
        next_attempt(completed) <= max_attempts,
    ensures
        ({
            let after = failure_outcome(pending, id, completed, max_attempts, initial_interval, now).0;
            let delay = spec_retry_delay(initial_interval, next_attempt(completed));
            &&& is_due(after, later, id) <==> later >= now + delay * 1000
            &&& !not_due(after, later).contains_key(id) <==> later >= now + delay * 1000
            &&& forall|k: u128| #[trigger] not_due(after, later).contains_key(k) ==> !is_due(
                not_due(after, later),
                later,
                k,
            ) && not_due(after, later)[k] == after[k]
        }),
{
    failure_respects_the_attempt_budget(pending, id, completed, max_attempts, initial_interval, now);
}

/// A failure of one tunnel changes no other tunnel's retry: every other
/// tunnel keeps exactly the pending retry it had (or none). The failed tunnel
/// has no retry left when its budget is spent, and otherwise the retry that
/// the decision announces.
pub proof fn a_failure_leaves_other_tunnels_alone(
    pending: Map<u128, PendingRetry>,
    id: u128,
    completed: u16,
    max_attempts: u16,
    initial_interval: u64,
    now: u64,
)
    ensures
        ({
            let (after, decision) = failure_outcome(pending, id, completed, max_attempts, initial_interval, now);
            &&& forall|k: u128| k != id ==> (#[trigger] after.contains_key(k) <==> pending.contains_key(k))
            &&& forall|k: u128| k != id && pending.contains_key(k) ==> #[trigger] after[k] == pending[k]
            &&& (decision is Exhausted ==> !after.contains_key(id))
            &&& (decision matches RetryDecision::Scheduled { attempt, delay } ==> after.contains_key(id)
                && after[id].attempt == attempt && after[id].delay == delay)
        }),
{
}

} // verus!
