//! The request monitor: the most recent request logs and running counts.
//!
//! The logs are kept in a ring of fixed capacity: a new entry pushes the
//! oldest one out. Producers that must not wait hand their logs to a bounded
//! queue of the same kind, which counts what it had to drop.

use crate::table::Table;
use std::collections::VecDeque;
use vstd::prelude::*;

verus! {

/// How a request ended, when it did not succeed.
#[derive(Clone, Copy, Debug, PartialEq, Eq, Structural)]
pub enum ErrorKind {
    /// Every candidate account was ineligible.
    NoEligibleAccount,
    /// The upstream rejected the account's credentials.
    AuthFailure,
    /// The upstream asked to slow down.
    RateLimited,
    /// The network, a `5xx` status, or a timeout before bytes flowed.
    UpstreamTransient,
    /// A `4xx` status that is passed on as it is.
    UpstreamFatal,
    /// The client went away.
    ClientDisconnected,
    /// The configuration was rejected at startup.
    ConfigInvalid,
    /// Something unexpected inside the gateway.
    InternalBug,
}

/// The record of one request. Bodies are never kept.
#[derive(Debug)]
pub struct RequestLog {
    pub id: String,
    pub started_at: u64,
    pub ended_at: u64,
    pub account_id: Option<String>,
    pub upstream_url: String,
    pub request_model: String,
    pub resolved_model: String,
    pub status_code: u16,
    pub bytes_in: u64,
    pub bytes_out: u64,
    pub error_kind: Option<ErrorKind>,
    pub session_id: Option<String>,
    /// The request headers; only a detailed record holds them.
    pub headers: Option<Vec<(String, String)>>,
}

/// Running counts over the recorded requests.
#[derive(Clone, Copy, Debug, PartialEq, Eq)]
pub struct StatusCounts {
    pub total: u64,
    pub success: u64,
    pub failure: u64,
    pub informational: u64,
    pub successful: u64,
    pub redirection: u64,
    pub client_error: u64,
    pub server_error: u64,
    /// Status codes outside `100..=599`.
    pub other: u64,
}

/// Moving estimates of the median and of the 95th percentile of the
/// latency, in the unit of the logs' timestamps.
///
/// An estimate moves toward each sample by a step that is proportional to
/// the estimate, so old samples fade exponentially. The median moves by the
/// same step up and down; the 95th percentile moves nineteen times as far up
/// as down, so that it settles where one sample in twenty lies above it.
#[derive(Clone, Copy, Debug, PartialEq, Eq)]
pub struct LatencyEstimates {
    pub p50: u64,
    pub p95: u64,
    /// The number of samples seen.
    pub samples: u64,
}

/// The step by which an estimate moves down: a sixteenth of it, at least
/// one.
pub open spec fn step_of(estimate: u64) -> u64 {
    if estimate / 16 == 0 {
        1
    } else {
        estimate / 16
    }
}

/// The estimate after a sample: `up` steps toward a larger sample, one step
/// toward a smaller one, and never past the sample.
pub open spec fn moved(estimate: u64, sample: u64, up: u64) -> u64 {
    if sample > estimate {
        if estimate + up * step_of(estimate) >= sample {
            sample
        } else {
            (estimate + up * step_of(estimate)) as u64
        }
    } else if estimate - step_of(estimate) <= sample {
        sample
    } else {
        (estimate - step_of(estimate)) as u64
    }
}

impl LatencyEstimates {
    /// No sample seen.
    pub open spec fn zero() -> LatencyEstimates {
        LatencyEstimates { p50: 0, p95: 0, samples: 0 }
    }

    /// The estimates after a sample. The first sample is both estimates.
    pub open spec fn with_sample(self, latency: u64) -> LatencyEstimates {
        if self.samples == 0 {
            LatencyEstimates { p50: latency, p95: latency, samples: 1 }
        } else {
            LatencyEstimates {
                p50: moved(self.p50, latency, 1),
                p95: moved(self.p95, latency, 19),
                samples: bumped(self.samples),
            }
        }
    }

    /// No sample seen.
    pub fn new() -> (e: LatencyEstimates)
        ensures
            e == LatencyEstimates::zero(),
    {
        LatencyEstimates { p50: 0, p95: 0, samples: 0 }
    }

    /// Takes a sample in.
    pub fn observe(self, latency: u64) -> (e: LatencyEstimates)
        ensures
            e == self.with_sample(latency),
    {
        if self.samples == 0 {
            LatencyEstimates { p50: latency, p95: latency, samples: 1 }
        } else {
            LatencyEstimates {
                p50: move_toward(self.p50, latency, 1),
                p95: move_toward(self.p95, latency, 19),
                samples: self.samples.saturating_add(1),
            }
        }
    }
}

fn move_toward(estimate: u64, sample: u64, up: u64) -> (r: u64)
    requires
        up <= 19,
    ensures
        r == moved(estimate, sample, up),
{
    let step: u64 = if estimate / 16 == 0 {
        1
    } else {
        estimate / 16
    };
    if sample > estimate {
        assert(up * step <= 19 * step) by (nonlinear_arith)
            requires
                up <= 19,
                step >= 0,
        ;
        // `19 * step` is little more than the estimate itself, but the sum
        // may still pass the largest number
        match up.checked_mul(step) {
            Some(rise) => match estimate.checked_add(rise) {
                Some(next) => if next >= sample {
                    sample
                } else {
                    next
                },
                None => sample,
            },
            None => sample,
        }
    } else if estimate < step || estimate - step <= sample {
        sample
    } else {
        estimate - step
    }
}

/// An estimate never leaves the range between itself and the sample.
pub proof fn lemma_moved_between(estimate: u64, sample: u64, up: u64)
    ensures
        sample >= estimate ==> estimate <= moved(estimate, sample, up) <= sample,
        sample <= estimate ==> sample <= moved(estimate, sample, up) <= estimate,
{
    assert(up * step_of(estimate) >= 0) by (nonlinear_arith)
        requires
            up >= 0,
            step_of(estimate) >= 0,
    ;
}

/// `n + 1`, capped at the largest `u64`.
pub open spec fn bumped(n: u64) -> u64 {
    if n == u64::MAX {
        n
    } else {
        (n + 1) as u64
    }
}

/// `n + 1` if `cond`, else `n`.
pub open spec fn bumped_if(n: u64, cond: bool) -> u64 {
    if cond {
        bumped(n)
    } else {
        n
    }
}

impl RequestLog {
    /// A request succeeded when its status is in `200..=299` and it has no
    /// error.
    pub open spec fn succeeded(self) -> bool {
        200 <= self.status_code <= 299 && self.error_kind is None
    }

    /// The time that the request took: from its start to its end.
    pub open spec fn latency(self) -> u64 {
        if self.ended_at >= self.started_at {
            (self.ended_at - self.started_at) as u64
        } else {
            0
        }
    }

    /// The record without its headers.
    pub open spec fn summarized(self) -> RequestLog {
        RequestLog { headers: None, ..self }
    }

    /// Whether the request succeeded.
    pub fn is_success(&self) -> (r: bool)
        ensures
            r == self.succeeded(),
    {
        200 <= self.status_code && self.status_code <= 299 && self.error_kind.is_none()
    }

    /// A copy of the record without its headers.
    pub fn summary(&self) -> (r: RequestLog)
        ensures
            r == self.summarized(),
    {
        RequestLog {
            id: self.id.clone(),
            started_at: self.started_at,
            ended_at: self.ended_at,
            account_id: copy_opt(&self.account_id),
            upstream_url: self.upstream_url.clone(),
            request_model: self.request_model.clone(),
            resolved_model: self.resolved_model.clone(),
            status_code: self.status_code,
            bytes_in: self.bytes_in,
            bytes_out: self.bytes_out,
            error_kind: self.error_kind,
            session_id: copy_opt(&self.session_id),
            headers: None,
        }
    }

    /// A copy of the record.
    pub fn duplicate(&self) -> (r: RequestLog)
        ensures
            r.summarized() == self.summarized(),
            same_headers(r.headers, self.headers),
    {
        let mut r = self.summary();
        r.headers = match &self.headers {
            Some(h) => Some(copy_pairs(h)),
            None => None,
        };
        r
    }
}

/// Whether two optional header lists hold the same headers.
pub open spec fn same_headers(a: Option<Vec<(String, String)>>, b: Option<Vec<(String, String)>>) -> bool {
    match (a, b) {
        (Some(x), Some(y)) => x@ == y@,
        (None, None) => true,
        _ => false,
    }
}

fn copy_opt(s: &Option<String>) -> (r: Option<String>)
    ensures
        r == *s,
{
    match s {
        Some(t) => Some(t.clone()),
        None => None,
    }
}

fn copy_pairs(pairs: &Vec<(String, String)>) -> (r: Vec<(String, String)>)
    ensures
        r@ == pairs@,
{
    let mut r: Vec<(String, String)> = Vec::new();
    let mut i: usize = 0;
    while i < pairs.len()
        invariant
            i <= pairs.len(),
            r@ == pairs@.take(i as int),
        decreases pairs.len() - i,
    {
        r.push((pairs[i].0.clone(), pairs[i].1.clone()));
        assert(r@ =~= pairs@.take(i + 1));
        i += 1;
    }
    assert(pairs@.take(pairs@.len() as int) =~= pairs@);
    r
}

impl StatusCounts {
    /// No request counted.
    pub open spec fn zero() -> StatusCounts {
        StatusCounts {
            total: 0,
            success: 0,
            failure: 0,
            informational: 0,
            successful: 0,
            redirection: 0,
            client_error: 0,
            server_error: 0,
            other: 0,
        }
    }

    /// The counts with one more request: it counts once in the total, once
    /// as a success or a failure, and once under the class of its status.
    pub open spec fn with_request(self, status: u16, success: bool) -> StatusCounts {
        StatusCounts {
            total: bumped(self.total),
            success: bumped_if(self.success, success),
            failure: bumped_if(self.failure, !success),
            informational: bumped_if(self.informational, 100 <= status <= 199),
            successful: bumped_if(self.successful, 200 <= status <= 299),
            redirection: bumped_if(self.redirection, 300 <= status <= 399),
            client_error: bumped_if(self.client_error, 400 <= status <= 499),
            server_error: bumped_if(self.server_error, 500 <= status <= 599),
            other: bumped_if(self.other, status < 100 || status > 599),
        }
    }

    /// No request counted.
    pub fn new() -> (c: StatusCounts)
        ensures
            c == StatusCounts::zero(),
    {
        StatusCounts {
            total: 0,
            success: 0,
            failure: 0,
            informational: 0,
            successful: 0,
            redirection: 0,
            client_error: 0,
            server_error: 0,
            other: 0,
        }
    }

    fn count(self, status: u16, success: bool) -> (c: StatusCounts)
        ensures
            c == self.with_request(status, success),
    {
        StatusCounts {
            total: self.total.saturating_add(1),
            success: bump_if(self.success, success),
            failure: bump_if(self.failure, !success),
            informational: bump_if(self.informational, 100 <= status && status <= 199),
            successful: bump_if(self.successful, 200 <= status && status <= 299),
            redirection: bump_if(self.redirection, 300 <= status && status <= 399),
            client_error: bump_if(self.client_error, 400 <= status && status <= 499),
            server_error: bump_if(self.server_error, 500 <= status && status <= 599),
            other: bump_if(self.other, status < 100 || status > 599),
        }
    }
}

fn bump_if(n: u64, cond: bool) -> (r: u64)
    ensures
        r == bumped_if(n, cond),
{
    if cond {
        n.saturating_add(1)
    } else {
        n
    }
}

/// The counts, the latency estimates, and how many requests each account
/// served.
pub struct ProxyStats {
    pub counts: StatusCounts,
    pub latency: LatencyEstimates,
    pub by_account: Vec<(String, u64)>,
}

/// The last `capacity` entries of `logs` followed by `log`.
pub open spec fn pushed<T>(logs: Seq<T>, capacity: int, log: T) -> Seq<T> {
    let all = logs.push(log);
    if all.len() > capacity {
        all.skip(all.len() - capacity)
    } else {
        all
    }
}

/// The newest `limit` entries of `logs`, newest first.
pub open spec fn newest<T>(logs: Seq<T>, limit: int) -> Seq<T> {
    let n = if limit < logs.len() {
        limit
    } else {
        logs.len() as int
    };
    Seq::new(n as nat, |i: int| logs[logs.len() - 1 - i])
}

/// The number of requests that `account` served, by the counts kept.
pub open spec fn served(by_account: Map<Seq<char>, u64>, account: Seq<char>) -> u64 {
    if by_account.contains_key(account) {
        by_account[account]
    } else {
        0
    }
}

/// The monitor.
pub struct ProxyMonitor {
    capacity: usize,
    enabled: bool,
    logs: VecDeque<RequestLog>,
    counts: StatusCounts,
    latency: LatencyEstimates,
    by_account: Table<u64>,
}

impl View for ProxyMonitor {
    type V = Seq<RequestLog>;

    /// The logs kept, oldest first.
    closed spec fn view(&self) -> Seq<RequestLog> {
        self.logs@
    }
}

impl ProxyMonitor {
    /// Most logs kept.
    pub closed spec fn capacity(&self) -> usize {
        self.capacity
    }

    /// Whether requests are recorded.
    pub closed spec fn enabled(&self) -> bool {
        self.enabled
    }

    /// The running counts.
    pub closed spec fn counts(&self) -> StatusCounts {
        self.counts
    }

    /// The latency estimates.
    pub closed spec fn latency(&self) -> LatencyEstimates {
        self.latency
    }

    /// How many requests each account served.
    pub closed spec fn by_account(&self) -> Map<Seq<char>, u64> {
        self.by_account@
    }

    /// The accounts that served a request, in the order in which they first
    /// did.
    pub closed spec fn accounts_seen(&self) -> Seq<Seq<char>> {
        self.by_account.keys()
    }

    /// The ring is within its capacity.
    pub closed spec fn wf(&self) -> bool {
        &&& self.logs@.len() <= self.capacity
        &&& self.by_account.wf()
    }

    /// The ring never holds more logs than its capacity.
    pub proof fn lemma_within_capacity(&self)
        requires
            self.wf(),
        ensures
            self@.len() <= self.capacity(),
    {
    }

    /// An empty monitor that records, with room for `capacity` logs.
    pub fn new(capacity: usize) -> (m: ProxyMonitor)
        ensures
            m.wf(),
            m.capacity() == capacity,
            m.enabled(),
            m@ == Seq::<RequestLog>::empty(),
            m.counts() == StatusCounts::zero(),
            m.latency() == LatencyEstimates::zero(),
            m.by_account() == Map::<Seq<char>, u64>::empty(),
    {
        ProxyMonitor {
            capacity,
            enabled: true,
            logs: VecDeque::new(),
            counts: StatusCounts::new(),
            latency: LatencyEstimates::new(),
            by_account: Table::new(),
        }
    }

    /// Turns recording on or off.
    pub fn set_enabled(&mut self, enabled: bool)
        requires
            old(self).wf(),
        ensures
            final(self).wf(),
            final(self).enabled() == enabled,
            final(self)@ == old(self)@,
            final(self).capacity() == old(self).capacity(),
            final(self).counts() == old(self).counts(),
            final(self).latency() == old(self).latency(),
            final(self).by_account() == old(self).by_account(),
    {
        self.enabled = enabled;
    }

    /// Whether requests are recorded.
    pub fn is_enabled(&self) -> (r: bool)
        ensures
            r == self.enabled(),
    {
        self.enabled
    }

    /// The number of logs kept.
    pub fn len(&self) -> (n: usize)
        requires
            self.wf(),
        ensures
            n == self@.len(),
            n <= self.capacity(),
    {
        self.logs.len()
    }

    /// Records `log`. Returns whether it was recorded, that is whether
    /// recording is on.
    ///
    /// A recorded log enters the ring as the newest; where the ring was
    /// full, the oldest leaves. It is counted, and where it names an
    /// account, counted for that account.
    pub fn record(&mut self, log: RequestLog) -> (recorded: bool)
        requires
            old(self).wf(),
        ensures
            final(self).wf(),
            final(self).capacity() == old(self).capacity(),
            final(self).enabled() == old(self).enabled(),
            recorded == old(self).enabled(),
            !recorded ==> final(self)@ == old(self)@ && final(self).counts() == old(self).counts()
                && final(self).latency() == old(self).latency() && final(self).by_account() == old(self).by_account(),
            recorded ==> final(self).latency() == old(self).latency().with_sample(log.latency()),
            recorded ==> final(self)@ == pushed(old(self)@, old(self).capacity() as int, log),
            recorded ==> final(self).counts() == old(self).counts().with_request(
                log.status_code,
                log.succeeded(),
            ),
            recorded ==> final(self).by_account() == match log.account_id {
                Some(a) => old(self).by_account().insert(
                    a@,
                    bumped(served(old(self).by_account(), a@)),
                ),
                None => old(self).by_account(),
            },
    {
        if !self.enabled {
            return false;
        }
        self.counts = self.counts.count(log.status_code, log.is_success());
        self.latency = self.latency.observe(log.ended_at.saturating_sub(log.started_at));
        match &log.account_id {
            Some(a) => {
                let n: u64 = match self.by_account.get(a.as_str()) {
                    Some(n) => *n,
                    None => 0,
                };
                self.by_account.set(a.as_str(), n.saturating_add(1));
            },
            None => {},
        }
        let ghost before = self.logs@;
        if self.capacity == 0 {
            assert(pushed(before, 0, log) =~= before);
        } else {
            if self.logs.len() == self.capacity {
                self.logs.pop_front();
            }
            self.logs.push_back(log);
            assert(self.logs@ =~= pushed(before, self.capacity as int, log));
        }
        true
    }

    /// The newest `limit` logs, newest first, without their headers.
    pub fn get_logs(&self, limit: usize) -> (out: Vec<RequestLog>)
        requires
            self.wf(),
        ensures
            out@.len() == newest(self@, limit as int).len(),
            forall|i: int|
                0 <= i < out@.len() ==> (#[trigger] out@[i]) == newest(
                    self@,
                    limit as int,
                )[i].summarized(),
    {
        let n = self.logs.len();
        let take = if limit < n {
            limit
        } else {
            n
        };
        let mut out: Vec<RequestLog> = Vec::new();
        let mut i: usize = 0;
        while i < take
            invariant
                i <= take,
                take <= n,
                n == self.logs@.len(),
                take == newest(self@, limit as int).len(),
                out@.len() == i,
                forall|k: int|
                    0 <= k < i ==> (#[trigger] out@[k]) == newest(
                        self@,
                        limit as int,
                    )[k].summarized(),
            decreases take - i,
        {
            out.push(self.logs[n - 1 - i].summary());
            i += 1;
        }
        out
    }

    /// The log with the id `id`, with its headers. Of several, the newest.
    pub fn get_log_detail(&self, id: &str) -> (r: Option<RequestLog>)
        requires
            self.wf(),
        ensures
            match r {
                Some(log) => exists|k: int|
                    0 <= k < self@.len() && (#[trigger] self@[k]).id@ == id@ && log.summarized()
                        == self@[k].summarized() && same_headers(log.headers, self@[k].headers)
                        && (forall|j: int|
                        k < j < self@.len() ==> (#[trigger] self@[j]).id@ != id@),
                None => forall|k: int| 0 <= k < self@.len() ==> (#[trigger] self@[k]).id@ != id@,
            },
    {
        let n = self.logs.len();
        let mut i: usize = n;
        while i > 0
            invariant
                i <= n,
                n == self.logs@.len(),
                forall|j: int| i <= j < n ==> (#[trigger] self@[j]).id@ != id@,
            decreases i,
        {
            i -= 1;
            if crate::text::same_text(self.logs[i].id.as_str(), id) {
                let log = self.logs[i].duplicate();
                assert(self@[i as int].id@ == id@);
                return Some(log);
            }
        }
        None
    }

    /// The running counts.
    pub fn get_counts(&self) -> (c: StatusCounts)
        ensures
            c == self.counts(),
    {
        self.counts
    }

    /// The number of requests that `account` served.
    pub fn served_by(&self, account: &str) -> (n: u64)
        requires
            self.wf(),
        ensures
            n == served(self.by_account(), account@),
    {
        match self.by_account.get(account) {
            Some(n) => *n,
            None => 0,
        }
    }

    /// The latency estimates.
    pub fn get_latency(&self) -> (e: LatencyEstimates)
        ensures
            e == self.latency(),
    {
        self.latency
    }

    /// The counts, the latency estimates and, for each account, in the
    /// order in which the accounts were first seen, how many requests it
    /// served.
    pub fn get_stats(&self) -> (stats: ProxyStats)
        requires
            self.wf(),
        ensures
            stats.counts == self.counts(),
            stats.latency == self.latency(),
            stats.by_account@.len() == self.accounts_seen().len(),
            forall|i: int|
                0 <= i < stats.by_account@.len() ==> {
                    let entry = #[trigger] stats.by_account@[i];
                    &&& entry.0@ == self.accounts_seen()[i]
                    &&& self.by_account().contains_key(entry.0@)
                    &&& self.by_account()[entry.0@] == entry.1
                },
            crate::table::distinct(self.accounts_seen()),
            stats.by_account@.len() == self.by_account().dom().len(),
    {
        let mut by_account: Vec<(String, u64)> = Vec::new();
        let n = self.by_account.len();
        let mut i: usize = 0;
        while i < n
            invariant
                i <= n,
                self.wf(),
                n == self.by_account.keys().len(),
                by_account@.len() == i,
                forall|k: int|
                    0 <= k < i ==> {
                        let entry = #[trigger] by_account@[k];
                        &&& entry.0@ == self.accounts_seen()[k]
                        &&& self.by_account().contains_key(entry.0@)
                        &&& self.by_account()[entry.0@] == entry.1
                    },
            decreases n - i,
        {
            proof {
                self.by_account.lemma_entry(i as int);
            }
            by_account.push(
                (String::from_str(self.by_account.key_at(i)), *self.by_account.value_at(i)),
            );
            i += 1;
        }
        proof {
            self.by_account.lemma_len();
        }
        ProxyStats { counts: self.counts, latency: self.latency, by_account }
    }

    /// Forgets every log and count.
    pub fn clear(&mut self)
        requires
            old(self).wf(),
        ensures
            final(self).wf(),
            final(self).capacity() == old(self).capacity(),
            final(self).enabled() == old(self).enabled(),
            final(self)@ == Seq::<RequestLog>::empty(),
            final(self).counts() == StatusCounts::zero(),
            final(self).latency() == LatencyEstimates::zero(),
            final(self).by_account() == Map::<Seq<char>, u64>::empty(),
    {
        self.logs.clear();
        self.counts = StatusCounts::new();
        self.latency = LatencyEstimates::new();
        self.by_account.clear();
    }
}

/// The logs that wait to be recorded: a bounded queue that never makes a
/// producer wait. When it is full, the oldest waiting log is dropped.
pub struct PendingLogs {
    capacity: usize,
    items: VecDeque<RequestLog>,
    dropped: u64,
}

impl View for PendingLogs {
    type V = Seq<RequestLog>;

    /// The waiting logs, oldest first.
    closed spec fn view(&self) -> Seq<RequestLog> {
        self.items@
    }
}

impl PendingLogs {
    /// Most logs that wait at a time.
    pub closed spec fn capacity(&self) -> usize {
        self.capacity
    }

    /// How many logs were dropped.
    pub closed spec fn dropped_logs(&self) -> u64 {
        self.dropped
    }

    /// The queue is within its capacity.
    pub closed spec fn wf(&self) -> bool {
        self.items@.len() <= self.capacity
    }

    /// An empty queue with room for `capacity` logs.
    pub fn new(capacity: usize) -> (q: PendingLogs)
        ensures
            q.wf(),
            q.capacity() == capacity,
            q.dropped_logs() == 0,
            q@ == Seq::<RequestLog>::empty(),
    {
        PendingLogs { capacity, items: VecDeque::new(), dropped: 0 }
    }

    /// The number of waiting logs.
    pub fn len(&self) -> (n: usize)
        requires
            self.wf(),
        ensures
            n == self@.len(),
            n <= self.capacity(),
    {
        self.items.len()
    }

    /// How many logs were dropped.
    pub fn dropped(&self) -> (n: u64)
        ensures
            n == self.dropped_logs(),
    {
        self.dropped
    }

    /// Puts `log` in the queue. Where the queue was full, one log is dropped
    /// and counted: the oldest waiting one, or `log` itself if the queue has
    /// no capacity.
    pub fn offer(&mut self, log: RequestLog)
        requires
            old(self).wf(),
        ensures
            final(self).wf(),
            final(self).capacity() == old(self).capacity(),
            final(self)@ == pushed(old(self)@, old(self).capacity() as int, log),
            final(self).dropped_logs() == bumped_if(
                old(self).dropped_logs(),
                old(self)@.len() == old(self).capacity(),
            ),
    {
        let ghost before = self.items@;
        if self.items.len() == self.capacity {
            self.dropped = self.dropped.saturating_add(1);
            if self.capacity == 0 {
                assert(pushed(before, 0, log) =~= before);
                return ;
            }
            self.items.pop_front();
        }
        self.items.push_back(log);
        assert(self.items@ =~= pushed(before, self.capacity as int, log));
    }

    /// Takes the oldest waiting log.
    pub fn take(&mut self) -> (log: Option<RequestLog>)
        requires
            old(self).wf(),
        ensures
            final(self).wf(),
            final(self).capacity() == old(self).capacity(),
            final(self).dropped_logs() == old(self).dropped_logs(),
            match log {
                Some(l) => old(self)@.len() > 0 && l == old(self)@[0] && final(self)@ == old(self)@.skip(1),
                None => old(self)@.len() == 0 && final(self)@ == old(self)@,
            },
    {
        let log = self.items.pop_front();
        proof {
            if log is Some {
                assert(self.items@ =~= old(self)@.skip(1));
            }
        }
        log
    }
}

/// Recording keeps a ring within its capacity, whatever it held.
pub proof fn lemma_pushed_bounded<T>(logs: Seq<T>, capacity: int, log: T)
    requires
        0 <= capacity,
        logs.len() <= capacity,
    ensures
        pushed(logs, capacity, log).len() <= capacity,
        pushed(logs, capacity, log).len() == if logs.len() < capacity {
            logs.len() as int + 1
        } else {
            capacity
        },
{
}

/// The ring holds the newest part of everything that was recorded: if it
/// held the last entries of a history, as many as fit, then after a log is
/// recorded it holds the last entries of the history with that log.
pub proof fn lemma_ring_holds_newest<T>(history: Seq<T>, logs: Seq<T>, capacity: int, log: T)
    requires
        0 <= capacity,
        logs.len() <= history.len(),
        logs.len() == if history.len() < capacity {
            history.len() as int
        } else {
            capacity
        },
        logs == history.skip(history.len() - logs.len()),
    ensures
        ({
            let all = history.push(log);
            let kept = pushed(logs, capacity, log);
            &&& kept.len() == if all.len() < capacity {
                all.len() as int
            } else {
                capacity
            }
            &&& kept == all.skip(all.len() - kept.len())
        }),
{
    let all = history.push(log);
    let kept = pushed(logs, capacity, log);
    assert(kept =~= all.skip(all.len() - kept.len()));
}

/// Recording evicts the oldest first: what stays of the old logs is their
/// newest part, in order, and the new log comes last.
pub proof fn lemma_pushed_keeps_newest<T>(logs: Seq<T>, capacity: int, log: T)
    requires
        0 < capacity,
        logs.len() <= capacity,
    ensures
        pushed(logs, capacity, log).last() == log,
        logs.len() < capacity ==> pushed(logs, capacity, log).drop_last() == logs,
        logs.len() == capacity ==> pushed(logs, capacity, log).drop_last() == logs.skip(1),
{
    let after = pushed(logs, capacity, log);
    if logs.len() < capacity {
        assert(after.drop_last() =~= logs);
    } else {
        assert(after.drop_last() =~= logs.skip(1));
    }
}

} // verus!
