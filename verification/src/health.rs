//! Per-account health: cooldown windows after a rate limit, and the count of
//! consecutive failures.
//!
//! Time is a count of seconds that the caller supplies with each call.

use crate::table::Table;
use vstd::prelude::*;

verus! {

/// What kind of failure a request to an account ended with.
#[derive(Clone, Copy, Debug, PartialEq, Eq, Structural)]
pub enum FailureKind {
    /// The connection failed or timed out.
    Network,
    /// The upstream answered with a `5xx` status.
    Server,
    /// The upstream rejected the credentials.
    Auth,
    /// The upstream rejected the request itself (`4xx`).
    Client,
}

impl FailureKind {
    /// Whether the failure counts against the account. A request that the
    /// upstream rejected as malformed says nothing about the account.
    pub open spec fn counts(self) -> bool {
        self != FailureKind::Client
    }

    /// Whether the failure counts against the account.
    pub fn is_counted(self) -> (r: bool)
        ensures
            r == self.counts(),
    {
        !matches!(self, FailureKind::Client)
    }
}

/// Where an account stands by its consecutive failures.
#[derive(Clone, Copy, Debug, PartialEq, Eq, Structural)]
pub enum HealthState {
    Healthy,
    /// Some failures in a row, fewer than the limit.
    Degraded(u32),
    /// As many failures in a row as the limit, or more.
    Quarantined,
}

/// Seconds after which an idle entry is forgotten.
pub const FORGET_AFTER_SECS: u64 = 600;

/// Seconds between two sweeps.
pub const SWEEP_EVERY_SECS: u64 = 60;

/// The health record of one account.
#[derive(Clone, Copy, Debug, PartialEq, Eq)]
pub struct AccountHealth {
    /// End of the cooldown window, if one was set.
    pub rate_limited_until: Option<u64>,
    pub consecutive_failures: u32,
    pub last_success_at: Option<u64>,
    pub last_error_kind: Option<FailureKind>,
    /// Time of the last failure that counted.
    pub last_failure_at: Option<u64>,
}

/// The later of an optional time and a time.
pub open spec fn later(a: Option<u64>, b: u64) -> u64 {
    match a {
        Some(x) => if x > b {
            x
        } else {
            b
        },
        None => b,
    }
}

/// `a + b`, capped at the largest `u64`.
pub open spec fn capped_sum(a: u64, b: u64) -> u64 {
    if a + b > u64::MAX {
        u64::MAX
    } else {
        (a + b) as u64
    }
}

/// Whether an optional time lies more than `age` seconds before `now`; a
/// time that was never set does.
pub open spec fn older_than(at: Option<u64>, now: u64, age: u64) -> bool {
    match at {
        Some(t) => t + age < now,
        None => true,
    }
}

impl AccountHealth {
    /// The record of an account of which nothing is known.
    pub open spec fn fresh() -> AccountHealth {
        AccountHealth {
            rate_limited_until: None,
            consecutive_failures: 0,
            last_success_at: None,
            last_error_kind: None,
            last_failure_at: None,
        }
    }

    /// Whether a cooldown window is open at `now`.
    pub open spec fn rate_limited_at(self, now: u64) -> bool {
        self.rate_limited_until matches Some(until) && until > now
    }

    /// An account is eligible when no cooldown window is open and it has
    /// fewer than `max_failures` consecutive failures.
    pub open spec fn eligible_at(self, now: u64, max_failures: u32) -> bool {
        !self.rate_limited_at(now) && self.consecutive_failures < max_failures
    }

    /// Where the account stands by its consecutive failures.
    pub open spec fn state(self, max_failures: u32) -> HealthState {
        if self.consecutive_failures >= max_failures {
            HealthState::Quarantined
        } else if self.consecutive_failures == 0 {
            HealthState::Healthy
        } else {
            HealthState::Degraded(self.consecutive_failures)
        }
    }

    /// The record after a rate limit seen at `now` that asks to wait
    /// `retry_after` seconds. A window that ends later stays.
    pub open spec fn after_rate_limit(self, now: u64, retry_after: u64) -> AccountHealth {
        AccountHealth {
            rate_limited_until: Some(later(self.rate_limited_until, capped_sum(now, retry_after))),
            ..self
        }
    }

    /// The record after a failure of `kind` at `now`.
    pub open spec fn after_failure(self, kind: FailureKind, now: u64) -> AccountHealth {
        if kind.counts() {
            AccountHealth {
                consecutive_failures: if self.consecutive_failures == u32::MAX {
                    u32::MAX
                } else {
                    (self.consecutive_failures + 1) as u32
                },
                last_error_kind: Some(kind),
                last_failure_at: Some(now),
                ..self
            }
        } else {
            AccountHealth { last_error_kind: Some(kind), ..self }
        }
    }

    /// The record after a success at `now`: no failures, no window.
    pub open spec fn after_success(self, now: u64) -> AccountHealth {
        AccountHealth {
            rate_limited_until: None,
            consecutive_failures: 0,
            last_success_at: Some(now),
            ..self
        }
    }

    /// Whether nothing in the record matters any more at `now`: no failures
    /// in a row, and the window, the last success and the last failure all
    /// more than `FORGET_AFTER_SECS` in the past.
    pub open spec fn stale_at(self, now: u64) -> bool {
        &&& self.consecutive_failures == 0
        &&& older_than(self.rate_limited_until, now, FORGET_AFTER_SECS)
        &&& older_than(self.last_success_at, now, FORGET_AFTER_SECS)
        &&& older_than(self.last_failure_at, now, FORGET_AFTER_SECS)
    }

    /// Whether a quarantine has lasted its cooldown at `now`.
    pub open spec fn cooled_at(self, now: u64, max_failures: u32, cooldown_secs: u64) -> bool {
        &&& self.consecutive_failures >= max_failures
        &&& self.consecutive_failures > 0
        &&& match self.last_failure_at {
            Some(t) => t + cooldown_secs <= now,
            None => true,
        }
    }

    /// The record after a sweep at `now`: forgotten when stale, back to no
    /// failures when its quarantine has cooled, else as it was.
    pub open spec fn swept(self, now: u64, max_failures: u32, cooldown_secs: u64) -> AccountHealth {
        if self.stale_at(now) {
            AccountHealth::fresh()
        } else if self.cooled_at(now, max_failures, cooldown_secs) {
            AccountHealth { consecutive_failures: 0, ..self }
        } else {
            self
        }
    }

    /// The record of an account of which nothing is known.
    pub fn new() -> (h: AccountHealth)
        ensures
            h == AccountHealth::fresh(),
    {
        AccountHealth {
            rate_limited_until: None,
            consecutive_failures: 0,
            last_success_at: None,
            last_error_kind: None,
            last_failure_at: None,
        }
    }

    /// Whether the account is eligible at `now`.
    pub fn is_eligible(&self, now: u64, max_failures: u32) -> (r: bool)
        ensures
            r == self.eligible_at(now, max_failures),
    {
        let limited = match self.rate_limited_until {
            Some(until) => until > now,
            None => false,
        };
        !limited && self.consecutive_failures < max_failures
    }

    /// Where the account stands by its consecutive failures.
    pub fn health_state(&self, max_failures: u32) -> (s: HealthState)
        ensures
            s == self.state(max_failures),
    {
        if self.consecutive_failures >= max_failures {
            HealthState::Quarantined
        } else if self.consecutive_failures == 0 {
            HealthState::Healthy
        } else {
            HealthState::Degraded(self.consecutive_failures)
        }
    }

    fn rate_limited(self, now: u64, retry_after: u64) -> (h: AccountHealth)
        ensures
            h == self.after_rate_limit(now, retry_after),
    {
        let end = now.saturating_add(retry_after);
        let until = match self.rate_limited_until {
            Some(x) => if x > end {
                x
            } else {
                end
            },
            None => end,
        };
        AccountHealth { rate_limited_until: Some(until), ..self }
    }

    fn failed(self, kind: FailureKind, now: u64) -> (h: AccountHealth)
        ensures
            h == self.after_failure(kind, now),
    {
        if kind.is_counted() {
            AccountHealth {
                consecutive_failures: self.consecutive_failures.saturating_add(1),
                last_error_kind: Some(kind),
                last_failure_at: Some(now),
                ..self
            }
        } else {
            AccountHealth { last_error_kind: Some(kind), ..self }
        }
    }

    fn succeeded(self, now: u64) -> (h: AccountHealth)
        ensures
            h == self.after_success(now),
    {
        AccountHealth {
            rate_limited_until: None,
            consecutive_failures: 0,
            last_success_at: Some(now),
            ..self
        }
    }

    fn is_stale(&self, now: u64) -> (r: bool)
        ensures
            r == self.stale_at(now),
    {
        self.consecutive_failures == 0 && is_older(self.rate_limited_until, now, FORGET_AFTER_SECS)
            && is_older(self.last_success_at, now, FORGET_AFTER_SECS) && is_older(
            self.last_failure_at,
            now,
            FORGET_AFTER_SECS,
        )
    }

    fn sweep(self, now: u64, max_failures: u32, cooldown_secs: u64) -> (h: AccountHealth)
        requires
            !self.stale_at(now),
        ensures
            h == self.swept(now, max_failures, cooldown_secs),
    {
        let cooled = self.consecutive_failures >= max_failures && self.consecutive_failures > 0
            && match self.last_failure_at {
            Some(t) => match t.checked_add(cooldown_secs) {
                Some(end) => end <= now,
                None => false,
            },
            None => true,
        };
        if cooled {
            AccountHealth { consecutive_failures: 0, ..self }
        } else {
            self
        }
    }
}

fn is_older(at: Option<u64>, now: u64, age: u64) -> (r: bool)
    ensures
        r == older_than(at, now, age),
{
    match at {
        Some(t) => match t.checked_add(age) {
            Some(end) => end < now,
            None => false,
        },
        None => true,
    }
}

/// The health of every account that something is known about.
pub struct RateLimitTracker {
    entries: Table<AccountHealth>,
    max_failures: u32,
    cooldown_secs: u64,
}

impl View for RateLimitTracker {
    type V = Map<Seq<char>, AccountHealth>;

    /// The records kept, by account.
    closed spec fn view(&self) -> Map<Seq<char>, AccountHealth> {
        self.entries@
    }
}

impl RateLimitTracker {
    /// The representation is sound.
    pub closed spec fn wf(&self) -> bool {
        self.entries.wf()
    }

    /// Consecutive failures at which an account is quarantined.
    pub closed spec fn max_failures(&self) -> u32 {
        self.max_failures
    }

    /// Seconds after its last failure at which a quarantine ends.
    pub closed spec fn cooldown_secs(&self) -> u64 {
        self.cooldown_secs
    }

    /// The record of `id`; that of an unknown account is fresh.
    pub open spec fn health(&self, id: Seq<char>) -> AccountHealth {
        if self@.contains_key(id) {
            self@[id]
        } else {
            AccountHealth::fresh()
        }
    }

    /// Whether `id` is eligible at `now`.
    pub open spec fn eligible(&self, id: Seq<char>, now: u64) -> bool {
        self.health(id).eligible_at(now, self.max_failures())
    }

    /// The same limits as `other`.
    pub open spec fn same_limits(&self, other: &RateLimitTracker) -> bool {
        self.max_failures() == other.max_failures() && self.cooldown_secs()
            == other.cooldown_secs()
    }

    /// A tracker that knows of no account.
    pub fn new(max_failures: u32, cooldown_secs: u64) -> (t: RateLimitTracker)
        ensures
            t.wf(),
            t@ == Map::<Seq<char>, AccountHealth>::empty(),
            t.max_failures() == max_failures,
            t.cooldown_secs() == cooldown_secs,
    {
        RateLimitTracker { entries: Table::new(), max_failures, cooldown_secs }
    }

    /// The limit of consecutive failures.
    pub fn failure_limit(&self) -> (n: u32)
        ensures
            n == self.max_failures(),
    {
        self.max_failures
    }

    /// The number of accounts that a record is kept for.
    pub fn len(&self) -> (n: usize)
        requires
            self.wf(),
        ensures
            n == self@.dom().len(),
    {
        proof {
            self.entries.lemma_len();
        }
        self.entries.len()
    }

    /// The record of `id`.
    pub fn health_of(&self, id: &str) -> (h: AccountHealth)
        requires
            self.wf(),
        ensures
            h == self.health(id@),
    {
        match self.entries.get(id) {
            Some(h) => *h,
            None => AccountHealth::new(),
        }
    }

    /// Whether `id` is eligible at `now`.
    pub fn is_eligible(&self, id: &str, now: u64) -> (r: bool)
        requires
            self.wf(),
        ensures
            r == self.eligible(id@, now),
    {
        self.health_of(id).is_eligible(now, self.max_failures)
    }

    /// Opens a cooldown window for `id` that ends `retry_after` seconds after
    /// `now`, unless its window already ends later.
    pub fn mark_rate_limited(&mut self, id: &str, now: u64, retry_after: u64)
        requires
            old(self).wf(),
        ensures
            final(self).wf(),
            final(self).same_limits(old(self)),
            final(self)@ == old(self)@.insert(
                id@,
                old(self).health(id@).after_rate_limit(now, retry_after),
            ),
    {
        let h = self.health_of(id).rate_limited(now, retry_after);
        self.entries.set(id, h);
    }

    /// Records a failure of `kind` for `id`.
    pub fn mark_failure(&mut self, id: &str, kind: FailureKind, now: u64)
        requires
            old(self).wf(),
        ensures
            final(self).wf(),
            final(self).same_limits(old(self)),
            final(self)@ == old(self)@.insert(id@, old(self).health(id@).after_failure(kind, now)),
    {
        let h = self.health_of(id).failed(kind, now);
        self.entries.set(id, h);
    }

    /// Records a success for `id`: its failures and its window are cleared.
    pub fn mark_success(&mut self, id: &str, now: u64)
        requires
            old(self).wf(),
        ensures
            final(self).wf(),
            final(self).same_limits(old(self)),
            final(self)@ == old(self)@.insert(id@, old(self).health(id@).after_success(now)),
    {
        let h = self.health_of(id).succeeded(now);
        self.entries.set(id, h);
    }

    /// Sweeps the records at `now`: stale ones are forgotten, and a
    /// quarantine that has cooled ends. Returns how many were forgotten.
    pub fn sweep(&mut self, now: u64) -> (forgotten: usize)
        requires
            old(self).wf(),
        ensures
            final(self).wf(),
            final(self).same_limits(old(self)),
            forall|id: Seq<char>|
                #![trigger final(self).health(id)]
                final(self).health(id) == old(self).health(id).swept(
                    now,
                    old(self).max_failures(),
                    old(self).cooldown_secs(),
                ),
            forall|id: Seq<char>|
                #![trigger final(self)@.contains_key(id)]
                final(self)@.contains_key(id) <==> old(self)@.contains_key(id) && !old(self)@[id].stale_at(
                    now,
                ),
            forgotten + final(self)@.dom().len() == old(self)@.dom().len(),
    {
        let mut kept: Table<AccountHealth> = Table::new();
        let mut forgotten: usize = 0;
        let n = self.entries.len();
        let mut i: usize = 0;
        let ghost keys = self.entries.keys();
        let ghost values = self.entries.values();
        let ghost max = self.max_failures;
        let ghost cool = self.cooldown_secs;
        while i < n
            invariant
                i <= n,
                n == keys.len(),
                self.entries.wf(),
                keys == self.entries.keys(),
                values == self.entries.values(),
                max == self.max_failures,
                cool == self.cooldown_secs,
                kept.wf(),
                forgotten + kept.keys().len() == i,
                forall|k: Seq<char>|
                    #![trigger kept@.contains_key(k)]
                    kept@.contains_key(k) <==> exists|j: int|
                        0 <= j < i && keys[j] == k && !values[j].stale_at(now),
                forall|j: int|
                    0 <= j < i && !(#[trigger] values[j]).stale_at(now) ==> kept@[keys[j]]
                        == values[j].swept(now, max, cool),
            decreases n - i,
        {
            let h = *self.entries.value_at(i);
            let ghost kept0 = kept@;
            if h.is_stale(now) {
                forgotten += 1;
            } else {
                let swept = h.sweep(now, self.max_failures, self.cooldown_secs);
                proof {
                    // the key at `i` is new to `kept`: keys are distinct
                    if kept@.contains_key(keys[i as int]) {
                        let j = choose|j: int|
                            0 <= j < i && keys[j] == keys[i as int] && !values[j].stale_at(now);
                        assert(keys[j] != keys[i as int]);
                    }
                    kept.lemma_absent(keys[i as int]);
                }
                kept.set(self.entries.key_at(i), swept);
            }
            proof {
                assert forall|k: Seq<char>|
                    #![trigger kept@.contains_key(k)]
                    kept@.contains_key(k) <==> exists|j: int|
                        0 <= j < i + 1 && keys[j] == k && !values[j].stale_at(now) by {
                    if kept@.contains_key(k) {
                        if kept0.contains_key(k) {
                            let j = choose|j: int|
                                0 <= j < i && keys[j] == k && !values[j].stale_at(now);
                            assert(0 <= j < i + 1 && keys[j] == k && !values[j].stale_at(now));
                        } else {
                            assert(keys[i as int] == k && !values[i as int].stale_at(now));
                        }
                    }
                    if exists|j: int| 0 <= j < i + 1 && keys[j] == k && !values[j].stale_at(now) {
                        let j = choose|j: int|
                            0 <= j < i + 1 && keys[j] == k && !values[j].stale_at(now);
                        if j < i {
                            assert(kept0.contains_key(k));
                        }
                    }
                }
                assert forall|j: int|
                    0 <= j < i + 1 && !(#[trigger] values[j]).stale_at(now) implies kept@[keys[j]]
                    == values[j].swept(now, max, cool) by {
                    if j < i {
                        assert(kept0.contains_key(keys[j]));
                        assert(keys[j] != keys[i as int]);
                    }
                }
            }
            i += 1;
        }
        proof {
            let before = self.entries@;
            self.entries.lemma_view();
            assert forall|id: Seq<char>|
                #![trigger kept@.contains_key(id)]
                kept@.contains_key(id) <==> before.contains_key(id) && !before[id].stale_at(
                    now,
                ) by {
                if kept@.contains_key(id) {
                    let j = choose|j: int| 0 <= j < n && keys[j] == id && !values[j].stale_at(now);
                    self.entries.lemma_entry(j);
                }
                if before.contains_key(id) && !before[id].stale_at(now) {
                    self.entries.lemma_key(id);
                    let j = crate::table::index_of(keys, id);
                    self.entries.lemma_entry(j);
                    assert(0 <= j < n && keys[j] == id && !values[j].stale_at(now));
                }
            }
            assert forall|id: Seq<char>| kept@.contains_key(id) implies kept@[id]
                == before[id].swept(now, max, cool) by {
                let j = choose|j: int| 0 <= j < n && keys[j] == id && !values[j].stale_at(now);
                self.entries.lemma_entry(j);
            }
            kept.lemma_len();
            self.entries.lemma_len();
        }
        self.entries = kept;
        forgotten
    }
}

/// A sweep leaves an account as eligible as it was, at the time of the
/// sweep and later, unless the sweep ended its quarantine.
pub proof fn lemma_sweep_keeps_eligibility(
    h: AccountHealth,
    now: u64,
    later_on: u64,
    max_failures: u32,
    cooldown_secs: u64,
)
    requires
        now <= later_on,
        !h.cooled_at(now, max_failures, cooldown_secs),
    ensures
        h.swept(now, max_failures, cooldown_secs).eligible_at(later_on, max_failures)
            == h.eligible_at(later_on, max_failures),
{
}

/// After a rate limit seen at `now` with `retry_after` seconds to wait, the
/// account is not eligible at any time from `now` until the wait is over.
pub proof fn lemma_rate_limit_holds(
    h: AccountHealth,
    now: u64,
    retry_after: u64,
    at: u64,
    max_failures: u32,
)
    requires
        now <= at < now + retry_after,
        now + retry_after <= u64::MAX,
    ensures
        !h.after_rate_limit(now, retry_after).eligible_at(at, max_failures),
{
}

/// A success makes an account eligible, whatever came before, as long as
/// the limit of failures is not zero.
pub proof fn lemma_success_restores(h: AccountHealth, now: u64, at: u64, max_failures: u32)
    requires
        max_failures > 0,
    ensures
        h.after_success(now).eligible_at(at, max_failures),
        h.after_success(now).state(max_failures) == HealthState::Healthy,
{
}

} // verus!
