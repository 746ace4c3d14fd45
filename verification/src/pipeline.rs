//! The decisions of the request pipeline: whom to let in, what an upstream
//! answer means for the account and for the request, and what the client is
//! told when a request fails.
//!
//! The caller owns the connections. It hands over what it received and
//! carries out what is decided here.

use crate::health::{AccountHealth, FailureKind};
use crate::http_date::{date_seconds, parse_http_date};
use crate::json::{fields_model, Json, JsonModel};
use crate::monitor::ErrorKind;
use crate::scheduler::TokenManager;
use crate::text::{
    chars_of, decimal, is_digit, joined, lower, lowered_char, lowered_text, same_text, texts,
    to_decimal,
};
use vstd::prelude::*;

verus! {

/// Seconds to wait after a rate limit that names no time.
pub const DEFAULT_RETRY_AFTER_SECS: u64 = 60;

/// How often a request is tried again after its first attempt.
pub const MAX_RETRIES: u32 = 2;

/// Seconds given to an upstream request unless the settings say otherwise.
pub const DEFAULT_REQUEST_TIMEOUT_SECS: u64 = 600;

/// Seconds given to an upstream connection to be made.
pub const CONNECT_TIMEOUT_SECS: u64 = 30;

/// Seconds that requests in flight are given when the server shuts down.
pub const SHUTDOWN_GRACE_SECS: u64 = 10;

/// Bytes of the buffer through which a response is streamed.
pub const STREAM_BUFFER_BYTES: usize = 65536;

/// The status that answers a request without the gateway's key.
pub const UNAUTHORIZED_STATUS: u16 = 401;

/// The answer to a request without the gateway's key.
pub fn invalid_key_body() -> (body: Json)
    ensures
        body@ == envelope("invalid_api_key"@, "invalid API key"@, None),
{
    error_envelope("invalid_api_key", "invalid API key", None)
}

/// The header value that lets a client with the key `api_key` in.
pub open spec fn bearer_of(api_key: Seq<char>) -> Seq<char> {
    "Bearer "@ + api_key
}

/// Whether the `Authorization` header of a request lets it in: it must be
/// there and hold `Bearer`, a space and the gateway's key.
pub fn is_authorized(authorization: Option<&str>, api_key: &str) -> (ok: bool)
    ensures
        ok == (authorization matches Some(value) && value@ == bearer_of(api_key@)),
{
    match authorization {
        Some(value) => {
            let expected = joined("Bearer ", api_key);
            same_text(value, expected.as_str())
        },
        None => false,
    }
}

/// What came back from the upstream, or why nothing did.
#[derive(Debug)]
pub enum UpstreamResult {
    /// A response with this status and, if it had one, this `Retry-After`.
    Status { code: u16, retry_after: Option<String> },
    /// No response within the time given.
    Timeout,
    /// The connection broke.
    ConnectionReset,
    /// The request could not be sent.
    Network,
}

/// What an upstream result means.
#[derive(Clone, Copy, Debug, PartialEq, Eq, Structural)]
pub enum Outcome {
    Success,
    /// The account must rest for this many seconds.
    RateLimited { retry_after_secs: u64 },
    /// The upstream rejected the account's credentials.
    AuthFailure,
    /// A failure that another attempt may not see: `kind` is `Server` for a
    /// `5xx` status and `Network` for anything that gave no status.
    Transient { kind: FailureKind },
    /// The upstream rejected the request itself; its answer is passed on.
    ClientError,
}

/// The number that the digits of `s` spell. `s` holds digits only.
pub open spec fn digits_value(s: Seq<char>) -> nat
    decreases s.len(),
{
    if s.len() == 0 {
        0
    } else {
        digits_value(s.drop_last()) * 10 + (s.last() as u32 - 0x30) as nat
    }
}

/// The count of seconds that `s` spells: `s` is one or more decimal digits
/// whose number fits in a `u64`.
pub open spec fn seconds_of(s: Seq<char>) -> Option<u64> {
    if s.len() > 0 && (forall|i: int| 0 <= i < s.len() ==> is_digit(#[trigger] s[i]))
        && digits_value(s) <= u64::MAX {
        Some(digits_value(s) as u64)
    } else {
        None
    }
}

/// More digits never spell a smaller number.
pub proof fn lemma_digits_grow(s: Seq<char>, n: int)
    requires
        0 <= n <= s.len(),
        forall|i: int| 0 <= i < s.len() ==> is_digit(#[trigger] s[i]),
    ensures
        digits_value(s.take(n)) <= digits_value(s),
    decreases s.len() - n,
{
    if n < s.len() {
        lemma_digits_grow(s, n + 1);
        let next = s.take(n + 1);
        assert(next.drop_last() =~= s.take(n));
        assert(next.last() == s[n]);
    } else {
        assert(s.take(n) =~= s);
    }
}

/// Reads a count of seconds.
pub fn parse_seconds(text: &str) -> (r: Option<u64>)
    ensures
        r == seconds_of(text@),
{
    let v = chars_of(text);
    if v.len() == 0 {
        return None;
    }
    let mut total: u64 = 0;
    let mut i: usize = 0;
    proof {
        assert(v@.take(0) =~= Seq::<char>::empty());
    }
    while i < v.len()
        invariant
            i <= v.len(),
            v@ == text@,
            forall|k: int| 0 <= k < i ==> is_digit(#[trigger] v@[k]),
            total == digits_value(v@.take(i as int)),
        decreases v.len() - i,
    {
        let c: char = v[i];
        if !('0' <= c && c <= '9') {
            return None;
        }
        let d: u64 = (c as u32 - 0x30) as u64;
        proof {
            let next = v@.take(i + 1);
            assert(next.drop_last() =~= v@.take(i as int));
            assert(next.last() == v@[i as int]);
        }
        let grown = match total.checked_mul(10) {
            Some(t) => t.checked_add(d),
            None => None,
        };
        match grown {
            Some(t) => {
                total = t;
            },
            None => {
                proof {
                    // the digits so far already spell too much; the rest
                    // must be digits for the number to count at all
                    if forall|k: int| 0 <= k < v@.len() ==> is_digit(#[trigger] v@[k]) {
                        lemma_digits_grow(v@, i + 1);
                    }
                }
                return None;
            },
        }
        i += 1;
    }
    proof {
        assert(v@.take(v@.len() as int) =~= v@);
    }
    Some(total)
}

/// The seconds from `now` to the moment `at`; none where that is past.
pub open spec fn seconds_until(at: u64, now: u64) -> u64 {
    if at > now {
        (at - now) as u64
    } else {
        0
    }
}

/// The seconds that a `Retry-After` asks to wait from `now`: its count of
/// seconds, or the time until its date, or the default where there is no
/// header or it holds neither.
pub open spec fn retry_after_of(header: Option<Seq<char>>, now: u64) -> u64 {
    match header {
        Some(s) => match seconds_of(s) {
            Some(n) => n,
            None => match date_seconds(s) {
                Some(at) => seconds_until(at, now),
                None => DEFAULT_RETRY_AFTER_SECS,
            },
        },
        None => DEFAULT_RETRY_AFTER_SECS,
    }
}

/// Reads a `Retry-After` header at `now`.
pub fn parse_retry_after(header: Option<&str>, now: u64) -> (secs: u64)
    ensures
        secs == retry_after_of(
            match header {
                Some(s) => Some(s@),
                None => None,
            },
            now,
        ),
{
    match header {
        Some(s) => match parse_seconds(s) {
            Some(n) => n,
            None => match parse_http_date(s) {
                Some(at) => if at > now {
                    at - now
                } else {
                    0
                },
                None => DEFAULT_RETRY_AFTER_SECS,
            },
        },
        None => DEFAULT_RETRY_AFTER_SECS,
    }
}

/// What a status means: `2xx` is a success, `429` a rate limit, `401` and
/// `403` an authentication failure, `5xx` a transient failure, and every
/// other status an answer for the client.
pub open spec fn outcome_of_status(code: u16, retry_after: Option<Seq<char>>, now: u64) -> Outcome {
    if 200 <= code <= 299 {
        Outcome::Success
    } else if code == 429 {
        Outcome::RateLimited { retry_after_secs: retry_after_of(retry_after, now) }
    } else if code == 401 || code == 403 {
        Outcome::AuthFailure
    } else if 500 <= code <= 599 {
        Outcome::Transient { kind: FailureKind::Server }
    } else {
        Outcome::ClientError
    }
}

impl UpstreamResult {
    /// What the result means at `now`. Anything that gave no status is a
    /// transient failure of the network.
    pub open spec fn outcome(self, now: u64) -> Outcome {
        match self {
            UpstreamResult::Status { code, retry_after } => outcome_of_status(
                code,
                match retry_after {
                    Some(s) => Some(s@),
                    None => None,
                },
                now,
            ),
            _ => Outcome::Transient { kind: FailureKind::Network },
        }
    }

    /// The status of the result, if it has one.
    pub open spec fn status(self) -> Option<u16> {
        match self {
            UpstreamResult::Status { code, .. } => Some(code),
            _ => None,
        }
    }
}

/// Classifies what came back from the upstream at `now`.
pub fn classify(result: &UpstreamResult, now: u64) -> (outcome: Outcome)
    ensures
        outcome == result.outcome(now),
{
    match result {
        UpstreamResult::Status { code, retry_after } => {
            let code = *code;
            if 200 <= code && code <= 299 {
                Outcome::Success
            } else if code == 429 {
                let secs = match retry_after {
                    Some(s) => parse_retry_after(Some(s.as_str()), now),
                    None => parse_retry_after(None, now),
                };
                Outcome::RateLimited { retry_after_secs: secs }
            } else if code == 401 || code == 403 {
                Outcome::AuthFailure
            } else if 500 <= code && code <= 599 {
                Outcome::Transient { kind: FailureKind::Server }
            } else {
                Outcome::ClientError
            }
        },
        _ => Outcome::Transient { kind: FailureKind::Network },
    }
}

impl Outcome {
    /// Whether another account may do better.
    pub open spec fn retryable(self) -> bool {
        self is RateLimited || self is AuthFailure || self is Transient
    }

    /// The kind of error that the outcome is logged as.
    pub open spec fn error_kind(self) -> Option<ErrorKind> {
        match self {
            Outcome::Success => None,
            Outcome::RateLimited { .. } => Some(ErrorKind::RateLimited),
            Outcome::AuthFailure => Some(ErrorKind::AuthFailure),
            Outcome::Transient { .. } => Some(ErrorKind::UpstreamTransient),
            Outcome::ClientError => Some(ErrorKind::UpstreamFatal),
        }
    }

    /// The kind of error that the outcome is logged as.
    pub fn logged_as(&self) -> (kind: Option<ErrorKind>)
        ensures
            kind == self.error_kind(),
    {
        match self {
            Outcome::Success => None,
            Outcome::RateLimited { .. } => Some(ErrorKind::RateLimited),
            Outcome::AuthFailure => Some(ErrorKind::AuthFailure),
            Outcome::Transient { .. } => Some(ErrorKind::UpstreamTransient),
            Outcome::ClientError => Some(ErrorKind::UpstreamFatal),
        }
    }
}

/// What the pipeline does after an attempt.
#[derive(Clone, Copy, Debug, PartialEq, Eq, Structural)]
pub enum NextStep {
    /// Pass the upstream's answer on to the client.
    Forward,
    /// Select another account, without those tried, and try again.
    Retry,
    /// The response already flows to the client: end it, and record why.
    Abort { kind: ErrorKind },
    /// Answer the client with this status and this kind of error.
    Fail { status: u16, kind: ErrorKind },
}

/// The status that ends a request whose attempts are used up: the last
/// upstream status where that is a `4xx`, else `502`.
pub open spec fn final_status(last: Option<u16>) -> u16 {
    match last {
        Some(code) => if 400 <= code <= 499 {
            code
        } else {
            502
        },
        None => 502,
    }
}

/// What follows an attempt that ended with `outcome`.
///
/// A success and an answer for the client are passed on. Any other failure
/// is tried again with another account, up to `MAX_RETRIES` times, unless
/// the response already flows to the client.
pub open spec fn step_after(
    outcome: Outcome,
    last_status: Option<u16>,
    retries_done: u32,
    streaming: bool,
) -> NextStep {
    if !outcome.retryable() {
        NextStep::Forward
    } else if streaming {
        NextStep::Abort { kind: outcome.error_kind()->0 }
    } else if retries_done < MAX_RETRIES {
        NextStep::Retry
    } else {
        NextStep::Fail { status: final_status(last_status), kind: outcome.error_kind()->0 }
    }
}

/// Decides what follows an attempt.
pub fn next_step(outcome: Outcome, last_status: Option<u16>, retries_done: u32, streaming: bool) -> (step:
    NextStep)
    ensures
        step == step_after(outcome, last_status, retries_done, streaming),
{
    let kind = match outcome {
        Outcome::Success => {
            return NextStep::Forward;
        },
        Outcome::ClientError => {
            return NextStep::Forward;
        },
        Outcome::RateLimited { .. } => ErrorKind::RateLimited,
        Outcome::AuthFailure => ErrorKind::AuthFailure,
        Outcome::Transient { .. } => ErrorKind::UpstreamTransient,
    };
    if streaming {
        NextStep::Abort { kind }
    } else if retries_done < MAX_RETRIES {
        NextStep::Retry
    } else {
        let status = match last_status {
            Some(code) => if 400 <= code && code <= 499 {
                code
            } else {
                502
            },
            None => 502,
        };
        NextStep::Fail { status, kind }
    }
}

/// A request is never tried more than `MAX_RETRIES` times again: once that
/// many retries are done, no outcome asks for another.
pub proof fn lemma_retries_bounded(
    outcome: Outcome,
    last_status: Option<u16>,
    retries_done: u32,
    streaming: bool,
)
    requires
        retries_done >= MAX_RETRIES,
    ensures
        step_after(outcome, last_status, retries_done, streaming) != NextStep::Retry,
{
}

/// How the flow of a forwarded response to the client ended.
#[derive(Clone, Copy, Debug, PartialEq, Eq, Structural)]
pub enum FlowEnd {
    /// The upstream sent all of it.
    Complete,
    /// The client closed its connection first.
    ClientGone,
    /// The upstream broke off.
    UpstreamLost,
}

/// What the end of a flow asks for.
#[derive(Clone, Copy, Debug, PartialEq, Eq, Structural)]
pub struct FlowClose {
    /// The kind of error that the request is logged with.
    pub logged: Option<ErrorKind>,
    /// The failure that is held against the account.
    pub failure: Option<FailureKind>,
    /// Whether the connection to the upstream is to be closed at once.
    pub close_upstream: bool,
}

/// What the end of the flow of a response asks for, where the attempt that
/// was forwarded had ended with `forwarded`.
///
/// A complete response is logged as the attempt ended. A client that went
/// away is logged as `ClientDisconnected`; that says nothing about the
/// account, and the upstream connection is closed. An upstream that broke
/// off is a transient failure of the network after the response began to
/// flow: it is held against the account and logged, and not tried again.
pub open spec fn flow_close(forwarded: Outcome, end: FlowEnd) -> FlowClose {
    match end {
        FlowEnd::Complete => FlowClose {
            logged: forwarded.error_kind(),
            failure: None,
            close_upstream: false,
        },
        FlowEnd::ClientGone => FlowClose {
            logged: Some(ErrorKind::ClientDisconnected),
            failure: None,
            close_upstream: true,
        },
        FlowEnd::UpstreamLost => FlowClose {
            logged: Some(ErrorKind::UpstreamTransient),
            failure: Some(FailureKind::Network),
            close_upstream: true,
        },
    }
}

/// Decides what the end of the flow of a response asks for.
pub fn end_of_flow(forwarded: Outcome, end: FlowEnd) -> (close: FlowClose)
    ensures
        close == flow_close(forwarded, end),
{
    match end {
        FlowEnd::Complete => FlowClose {
            logged: forwarded.logged_as(),
            failure: None,
            close_upstream: false,
        },
        FlowEnd::ClientGone => FlowClose {
            logged: Some(ErrorKind::ClientDisconnected),
            failure: None,
            close_upstream: true,
        },
        FlowEnd::UpstreamLost => {
            let logged = match next_step(Outcome::Transient { kind: FailureKind::Network }, None, 0, true) {
                NextStep::Abort { kind } => Some(kind),
                NextStep::Fail { kind, .. } => Some(kind),
                _ => None,
            };
            FlowClose { logged, failure: Some(FailureKind::Network), close_upstream: true }
        },
    }
}

/// Once a response flows to the client, nothing is tried again: whatever
/// the attempt ended with, and however many retries are left.
pub proof fn lemma_no_retry_once_flowing(outcome: Outcome, last_status: Option<u16>, retries_done: u32)
    ensures
        step_after(outcome, last_status, retries_done, true) != NextStep::Retry,
        outcome.retryable() ==> step_after(outcome, last_status, retries_done, true) == (
        NextStep::Abort { kind: outcome.error_kind()->0 }),
        flow_close(outcome, FlowEnd::UpstreamLost).logged == Some(
            step_after(
                Outcome::Transient { kind: FailureKind::Network },
                last_status,
                retries_done,
                true,
            )->Abort_kind,
        ),
{
}

/// Tells the manager what an attempt with the account `id` ended with.
///
/// A success clears the account's failures and window, a rate limit opens
/// its window, and every other outcome is recorded as a failure of its
/// kind.
pub fn report(manager: &mut TokenManager, id: &str, outcome: Outcome, now: u64)
    requires
        old(manager).wf(),
    ensures
        final(manager).wf(),
        final(manager).tracker().same_limits(&old(manager).tracker()),
        final(manager).tracker()@ == old(manager).tracker()@.insert(
            id@,
            health_after(old(manager).tracker().health(id@), outcome, now),
        ),
        old(manager).same_setup(final(manager)),
        final(manager).sessions() == old(manager).sessions(),
        old(manager).same_cursors(final(manager)),
{
    match outcome {
        Outcome::Success => manager.mark_success(id, now),
        Outcome::RateLimited { retry_after_secs } => manager.mark_rate_limited(
            id,
            now,
            retry_after_secs,
        ),
        Outcome::AuthFailure => manager.mark_failure(id, FailureKind::Auth, now),
        Outcome::Transient { kind } => manager.mark_failure(id, kind, now),
        Outcome::ClientError => manager.mark_failure(id, FailureKind::Client, now),
    }
}

/// Tells the manager that the tokens of the account `id` could not be
/// refreshed: the account gets an authentication failure, and the selection
/// is made once more without it. Returns whether to select again: only the
/// first failed refresh of a request is followed by another selection.
pub fn refresh_failed(
    manager: &mut TokenManager,
    id: &str,
    now: u64,
    excluded: &mut Vec<String>,
    retried: bool,
) -> (again: bool)
    requires
        old(manager).wf(),
    ensures
        final(manager).wf(),
        final(manager).tracker().same_limits(&old(manager).tracker()),
        final(manager).tracker()@ == old(manager).tracker()@.insert(
            id@,
            old(manager).tracker().health(id@).after_failure(FailureKind::Auth, now),
        ),
        old(manager).same_setup(final(manager)),
        final(manager).sessions() == old(manager).sessions(),
        old(manager).same_cursors(final(manager)),
        again == !retried,
        again ==> texts(final(excluded)@) == texts(old(excluded)@).push(
            id@,
        ),
        !again ==> final(excluded)@ == old(excluded)@,
{
    manager.mark_failure(id, FailureKind::Auth, now);
    if retried {
        false
    } else {
        let ghost before = texts(excluded@);
        excluded.push(String::from_str(id));
        assert(texts(excluded@) =~= before.push(id@));
        true
    }
}

/// The health of an account after an attempt with it ended with `outcome`.
pub open spec fn health_after(
    health: AccountHealth,
    outcome: Outcome,
    now: u64,
) -> AccountHealth {
    match outcome {
        Outcome::Success => health.after_success(now),
        Outcome::RateLimited { retry_after_secs } => health.after_rate_limit(now, retry_after_secs),
        Outcome::AuthFailure => health.after_failure(FailureKind::Auth, now),
        Outcome::Transient { kind } => health.after_failure(kind, now),
        Outcome::ClientError => health.after_failure(FailureKind::Client, now),
    }
}

/// Whether two texts are equal but for the case of their ASCII letters.
pub fn same_ignoring_case(a: &str, b: &str) -> (r: bool)
    ensures
        r == (lowered_text(a@) == lowered_text(b@)),
{
    let x = chars_of(a);
    let y = chars_of(b);
    if x.len() != y.len() {
        assert(lowered_text(a@).len() != lowered_text(b@).len());
        return false;
    }
    let mut i: usize = 0;
    while i < x.len()
        invariant
            i <= x.len(),
            x.len() == y.len(),
            x@ == a@,
            y@ == b@,
            forall|k: int| 0 <= k < i ==> lowered_char(#[trigger] x@[k]) == lowered_char(y@[k]),
        decreases x.len() - i,
    {
        if lower(x[i]) != lower(y[i]) {
            assert(lowered_text(a@)[i as int] != lowered_text(b@)[i as int]);
            return false;
        }
        i += 1;
    }
    assert(lowered_text(a@) =~= lowered_text(b@));
    true
}

/// The client headers that are copied to the upstream request, whatever
/// their case: `content-type`, `anthropic-version` and `accept`.
pub open spec fn is_forwarded(name: Seq<char>) -> bool {
    ||| lowered_text(name) == lowered_text("content-type"@)
    ||| lowered_text(name) == lowered_text("anthropic-version"@)
    ||| lowered_text(name) == lowered_text("accept"@)
}

/// Whether the client header `name` is copied to the upstream request.
pub fn forwards_header(name: &str) -> (r: bool)
    ensures
        r == is_forwarded(name@),
{
    same_ignoring_case(name, "content-type") || same_ignoring_case(name, "anthropic-version")
        || same_ignoring_case(name, "accept")
}

/// The status that the client gets for a kind of error that the gateway
/// itself answers.
pub open spec fn status_for(kind: ErrorKind) -> u16 {
    match kind {
        ErrorKind::NoEligibleAccount => 503,
        ErrorKind::AuthFailure => 502,
        ErrorKind::RateLimited => 502,
        ErrorKind::UpstreamTransient => 502,
        ErrorKind::UpstreamFatal => 502,
        ErrorKind::ClientDisconnected => 499,
        ErrorKind::ConfigInvalid => 500,
        ErrorKind::InternalBug => 500,
    }
}

/// The `type` that the error envelope gives for a kind of error.
pub open spec fn error_name(kind: ErrorKind) -> Seq<char> {
    match kind {
        ErrorKind::NoEligibleAccount => "no_accounts_available"@,
        ErrorKind::AuthFailure => "upstream_unavailable"@,
        ErrorKind::RateLimited => "upstream_unavailable"@,
        ErrorKind::UpstreamTransient => "upstream_unavailable"@,
        ErrorKind::UpstreamFatal => "upstream_error"@,
        ErrorKind::ClientDisconnected => "client_disconnected"@,
        ErrorKind::ConfigInvalid => "config_invalid"@,
        ErrorKind::InternalBug => "internal_error"@,
    }
}

/// The status for a kind of error.
pub fn error_status(kind: ErrorKind) -> (status: u16)
    ensures
        status == status_for(kind),
{
    match kind {
        ErrorKind::NoEligibleAccount => 503,
        ErrorKind::ClientDisconnected => 499,
        ErrorKind::ConfigInvalid => 500,
        ErrorKind::InternalBug => 500,
        _ => 502,
    }
}

/// The `type` of the error envelope for a kind of error.
pub fn error_type(kind: ErrorKind) -> (name: &'static str)
    ensures
        name@ == error_name(kind),
{
    match kind {
        ErrorKind::NoEligibleAccount => "no_accounts_available",
        ErrorKind::AuthFailure => "upstream_unavailable",
        ErrorKind::RateLimited => "upstream_unavailable",
        ErrorKind::UpstreamTransient => "upstream_unavailable",
        ErrorKind::UpstreamFatal => "upstream_error",
        ErrorKind::ClientDisconnected => "client_disconnected",
        ErrorKind::ConfigInvalid => "config_invalid",
        ErrorKind::InternalBug => "internal_error",
    }
}

/// The error envelope: an object whose `error` holds the `type`, the
/// `message` and, where there is one, the `upstream_status`.
pub open spec fn envelope(error_name: Seq<char>, message: Seq<char>, upstream_status: Option<u16>) -> JsonModel {
    let head = seq![
        ("type"@, JsonModel::Text(error_name)),
        ("message"@, JsonModel::Text(message)),
    ];
    JsonModel::Object(
        seq![
            (
                "error"@,
                JsonModel::Object(
                    match upstream_status {
                        Some(code) => head.push(
                            ("upstream_status"@, JsonModel::Number(decimal(code as nat))),
                        ),
                        None => head,
                    },
                ),
            ),
        ],
    )
}

/// Builds the error envelope.
pub fn error_envelope(error_name: &str, message: &str, upstream_status: Option<u16>) -> (body: Json)
    ensures
        body@ == envelope(error_name@, message@, upstream_status),
{
    let mut inner: Vec<(String, Json)> = Vec::new();
    inner.push((String::from_str("type"), Json::text_of(error_name)));
    inner.push((String::from_str("message"), Json::text_of(message)));
    match upstream_status {
        Some(code) => {
            inner.push((String::from_str("upstream_status"), Json::Number(to_decimal(code as u64))));
        },
        None => {},
    }
    let ghost head = seq![
        ("type"@, JsonModel::Text(error_name@)),
        ("message"@, JsonModel::Text(message@)),
    ];
    proof {
        match upstream_status {
            Some(code) => {
                assert(fields_model(inner@) =~= head.push(
                    ("upstream_status"@, JsonModel::Number(decimal(code as nat))),
                ));
            },
            None => {
                assert(fields_model(inner@) =~= head);
            },
        }
    }
    let mut outer: Vec<(String, Json)> = Vec::new();
    outer.push((String::from_str("error"), Json::Object(inner)));
    assert(fields_model(outer@) =~= seq![("error"@, outer@[0].1@)]);
    Json::Object(outer)
}

/// The answer of the health endpoint.
pub open spec fn health_report(active_accounts: usize) -> JsonModel {
    JsonModel::Object(
        seq![
            ("status"@, JsonModel::Text("ok"@)),
            ("active_accounts"@, JsonModel::Number(decimal(active_accounts as nat))),
        ],
    )
}

/// Builds the answer of the health endpoint.
pub fn health_body(active_accounts: usize) -> (body: Json)
    ensures
        body@ == health_report(active_accounts),
{
    let mut fields: Vec<(String, Json)> = Vec::new();
    fields.push((String::from_str("status"), Json::text_of("ok")));
    fields.push(
        (String::from_str("active_accounts"), Json::Number(to_decimal(active_accounts as u64))),
    );
    assert(fields_model(fields@) =~= seq![
        ("status"@, JsonModel::Text("ok"@)),
        ("active_accounts"@, JsonModel::Number(decimal(active_accounts as nat))),
    ]);
    Json::Object(fields)
}

/// Why the gateway's process ends.
#[derive(Clone, Copy, Debug, PartialEq, Eq, Structural)]
pub enum Exit {
    Normal,
    PortInUse,
    ConfigInvalid,
    /// No account is loaded and the API-key provider does not serve.
    NoAccounts,
}

/// The exit code of the process.
pub open spec fn code_of(exit: Exit) -> u8 {
    match exit {
        Exit::Normal => 0,
        Exit::PortInUse => 2,
        Exit::ConfigInvalid => 3,
        Exit::NoAccounts => 4,
    }
}

/// The exit code of the process.
pub fn exit_code(exit: Exit) -> (code: u8)
    ensures
        code == code_of(exit),
{
    match exit {
        Exit::Normal => 0,
        Exit::PortInUse => 2,
        Exit::ConfigInvalid => 3,
        Exit::NoAccounts => 4,
    }
}

} // verus!
