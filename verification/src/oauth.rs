//! The loopback OAuth flow: its state, and what to answer to the browser's
//! callback request.
//!
//! The caller owns the sockets. It reports which loopback listeners it could
//! bind and hands over the text of the callback request; the functions here
//! decide the redirect address, check the callback and say what comes next.

use crate::text::{
    chars_of, decimal, is_lower_hex, is_space, is_whitespace, joined, opt_text, pairs_model,
    push_decimal, same_text,
};
use vstd::prelude::*;

verus! {

/// Why an OAuth flow did not yield an authorization code.
#[derive(Clone, Copy, Debug, PartialEq, Eq, Structural)]
pub enum OAuthError {
    /// The callback carried a code but not the state of the pending flow.
    StateMismatch,
    /// The callback carried no code.
    MissingCode,
    /// No flow has been prepared.
    NoFlow,
    /// Another caller is already waiting for the callback of this flow.
    InProgress,
    /// The callback was given up before it delivered anything.
    WaitFailed,
}

impl OAuthError {
    /// The message shown for this error.
    pub open spec fn text(self) -> Seq<char> {
        match self {
            OAuthError::StateMismatch => "OAuth state mismatch"@,
            OAuthError::MissingCode => "Failed to get Authorization Code in callback"@,
            OAuthError::NoFlow => "OAuth state does not exist"@,
            OAuthError::InProgress => "OAuth authorization already in progress"@,
            OAuthError::WaitFailed => "Failed to wait for OAuth callback"@,
        }
    }

    /// The message shown for this error.
    pub fn message(&self) -> (r: &'static str)
        ensures
            r@ == self.text(),
    {
        match self {
            OAuthError::StateMismatch => "OAuth state mismatch",
            OAuthError::MissingCode => "Failed to get Authorization Code in callback",
            OAuthError::NoFlow => "OAuth state does not exist",
            OAuthError::InProgress => "OAuth authorization already in progress",
            OAuthError::WaitFailed => "Failed to wait for OAuth callback",
        }
    }
}

/// A prepared flow that waits for its callback.
pub struct OAuthFlow {
    /// The address the user opens to authorize.
    pub auth_url: String,
    /// The loopback address the provider redirects to.
    pub redirect_uri: String,
    /// The token that the callback must echo.
    pub state: String,
    /// Whether nobody has begun to wait for the callback yet.
    pub unclaimed: bool,
}

/// The one flow that may be pending at a time.
pub struct OAuthFlowState {
    pub flow: Option<OAuthFlow>,
}

/// What a new flow needs before its authorization address can be built.
pub struct FlowDraft {
    pub redirect_uri: String,
    pub state: String,
}

/// The answer to a callback request.
pub struct CallbackReply {
    /// The authorization code, or why there is none.
    pub result: Result<String, OAuthError>,
    /// The full HTTP response to write back.
    pub response: &'static str,
}

/// What waiting for the callback ended with.
pub enum CallbackWait {
    /// A listener answered a callback.
    Answered(Result<String, OAuthError>),
    /// Every listener went away without answering.
    Dropped,
}

/// The response sent to the browser after a successful authorization.
pub open spec fn success_page() -> Seq<char> {
    "HTTP/1.1 200 OK\r\nContent-Type: text/html; charset=utf-8\r\n\r\n\
    <html>\
    <body style='font-family: sans-serif; text-align: center; padding: 50px;'>\
    <h1 style='color: green;'>✅ Authorization Successful!</h1>\
    <p>You can close this window and return to the application.</p>\
    <script>setTimeout(function() { window.close(); }, 2000);</script>\
    </body>\
    </html>"@
}

/// The response sent to the browser when the authorization failed.
pub open spec fn fail_page() -> Seq<char> {
    "HTTP/1.1 400 Bad Request\r\nContent-Type: text/html; charset=utf-8\r\n\r\n\
    <html>\
    <body style='font-family: sans-serif; text-align: center; padding: 50px;'>\
    <h1 style='color: red;'>❌ Authorization Failed</h1>\
    <p>Failed to obtain Authorization Code. Please return to the app and try again.</p>\
    </body>\
    </html>"@
}

/// The response sent to the browser after a successful authorization.
pub fn oauth_success_html() -> (page: &'static str)
    ensures
        page@ == success_page(),
{
    "HTTP/1.1 200 OK\r\nContent-Type: text/html; charset=utf-8\r\n\r\n\
    <html>\
    <body style='font-family: sans-serif; text-align: center; padding: 50px;'>\
    <h1 style='color: green;'>✅ Authorization Successful!</h1>\
    <p>You can close this window and return to the application.</p>\
    <script>setTimeout(function() { window.close(); }, 2000);</script>\
    </body>\
    </html>"
}

/// The response sent to the browser when the authorization failed.
pub fn oauth_fail_html() -> (page: &'static str)
    ensures
        page@ == fail_page(),
{
    "HTTP/1.1 400 Bad Request\r\nContent-Type: text/html; charset=utf-8\r\n\r\n\
    <html>\
    <body style='font-family: sans-serif; text-align: center; padding: 50px;'>\
    <h1 style='color: red;'>❌ Authorization Failed</h1>\
    <p>Failed to obtain Authorization Code. Please return to the app and try again.</p>\
    </body>\
    </html>"
}

/// The host written into the redirect address: `localhost` when both
/// loopback stacks listen, else the literal address of the one that does
/// (IPv6 when IPv4 does not).
pub open spec fn redirect_host(has_ipv4: bool, has_ipv6: bool) -> Seq<char> {
    if has_ipv4 && has_ipv6 {
        "localhost"@
    } else if has_ipv4 {
        "127.0.0.1"@
    } else {
        "[::1]"@
    }
}

/// The redirect address for a callback listener on `port`.
pub open spec fn redirect_address(has_ipv4: bool, has_ipv6: bool, port: u16) -> Seq<char> {
    "http://"@ + redirect_host(has_ipv4, has_ipv6) + ":"@ + decimal(port as nat)
        + "/oauth-callback"@
}

/// The redirect address for a callback listener on `port`.
pub fn redirect_uri_for(has_ipv4: bool, has_ipv6: bool, port: u16) -> (uri: String)
    ensures
        uri@ == redirect_address(has_ipv4, has_ipv6, port),
{
    let host = if has_ipv4 && has_ipv6 {
        "localhost"
    } else if has_ipv4 {
        "127.0.0.1"
    } else {
        "[::1]"
    };
    let mut uri = String::from_str("http://");
    uri.append(host);
    uri.append(":");
    push_decimal(&mut uri, port as u64);
    uri.append("/oauth-callback");
    uri
}

/// The shape of a random UUID in hyphenated lower-case form: 36 characters,
/// hyphens after 8, 12, 16 and 20 digits, version digit `4`, and a variant
/// digit in `8..=b`.
pub open spec fn is_state_token(s: Seq<char>) -> bool {
    &&& s.len() == 36
    &&& forall|i: int|
        0 <= i < 36 ==> if i == 8 || i == 13 || i == 18 || i == 23 {
            #[trigger] s[i] == '-'
        } else {
            is_lower_hex(s[i])
        }
    &&& s[14] == '4'
    &&& (s[19] == '8' || s[19] == '9' || s[19] == 'a' || s[19] == 'b')
}

/// A fresh random state token.
///
/// Calls `uuid::Uuid::new_v4` and renders the result with the `Display` of
/// `Uuid`, which is the hyphenated lower-case form. The value is random; the
/// contract states only the shape that every version 4 UUID has in that form.
/// `new_v4` panics when the operating system cannot supply random bytes.
#[verifier::external_body]
fn fresh_state_token() -> (token: String)
    ensures
        is_state_token(token@),
{
    uuid::Uuid::new_v4().to_string()
}

/// What ends a scan over a line of text.
#[derive(Clone, Copy, Debug, PartialEq, Eq, Structural)]
pub enum Stop {
    /// A line feed.
    LineFeed,
    /// Any white space.
    Space,
    /// Anything but white space.
    Word,
}

impl Stop {
    /// Whether the scan ends at the character `c`.
    pub open spec fn at(self, c: char) -> bool {
        match self {
            Stop::LineFeed => c == '\n',
            Stop::Space => is_space(c),
            Stop::Word => !is_space(c),
        }
    }

    fn hit(self, c: char) -> (r: bool)
        ensures
            r == self.at(c),
    {
        match self {
            Stop::LineFeed => c == '\n',
            Stop::Space => is_whitespace(c),
            Stop::Word => !is_whitespace(c),
        }
    }
}

/// Where scanning `s` from index `from` stops: the first index at or after
/// `from` whose character ends the scan, or the length of `s`.
pub open spec fn scan(s: Seq<char>, from: int, stop: Stop) -> int
    decreases s.len() - from,
{
    if from < 0 || from >= s.len() {
        s.len() as int
    } else if stop.at(s[from]) {
        from
    } else {
        scan(s, from + 1, stop)
    }
}

/// The first line of `s`, without its line feed.
pub open spec fn first_line(s: Seq<char>) -> Seq<char> {
    s.subrange(0, scan(s, 0, Stop::LineFeed))
}

/// The second of the words of `line` that white space separates.
pub open spec fn second_word(line: Seq<char>) -> Option<Seq<char>> {
    let first = scan(line, 0, Stop::Word);
    let gap = scan(line, first, Stop::Space);
    let second = scan(line, gap, Stop::Word);
    if second < line.len() {
        Some(line.subrange(second, scan(line, second, Stop::Space)))
    } else {
        None
    }
}

/// The request target of an HTTP request: the second word of its first line.
pub open spec fn request_target(request: Seq<char>) -> Option<Seq<char>> {
    second_word(first_line(request))
}

fn scan_from(v: &Vec<char>, from: usize, stop: Stop) -> (at: usize)
    requires
        from <= v.len(),
    ensures
        at == scan(v@, from as int, stop),
        from <= at <= v.len(),
{
    let mut i: usize = from;
    while i < v.len() && !stop.hit(v[i])
        invariant
            from <= i <= v.len(),
            scan(v@, from as int, stop) == scan(v@, i as int, stop),
        decreases v.len() - i,
    {
        i += 1;
    }
    i
}

/// The request target of an HTTP request.
pub fn target_of(request: &str) -> (target: Option<String>)
    ensures
        match target {
            Some(t) => request_target(request@) == Some(t@),
            None => request_target(request@) is None,
        },
{
    let all = chars_of(request);
    let end = scan_from(&all, 0, Stop::LineFeed);
    let line = request.substring_char(0, end);
    let v = chars_of(line);
    let first = scan_from(&v, 0, Stop::Word);
    let gap = scan_from(&v, first, Stop::Space);
    let second = scan_from(&v, gap, Stop::Word);
    if second < v.len() {
        let stop = scan_from(&v, second, Stop::Space);
        Some(String::from_str(line.substring_char(second, stop)))
    } else {
        None
    }
}

/// The query of an absolute URL, as the `url` crate reads it: `None` where
/// the text is no absolute URL, else the decoded key and value pairs of its
/// query in their order (none where it has no query).
pub uninterp spec fn url_query(url: Seq<char>) -> Option<Seq<(Seq<char>, Seq<char>)>>;

/// Parses `url` and lists the pairs of its query.
///
/// Calls `url::Url::parse`; on success walks `Url::query_pairs`, which reads
/// the query as `application/x-www-form-urlencoded`, and copies each decoded
/// pair. Both depend on the text alone, so the result has the name
/// `url_query`.
#[verifier::external_body]
fn query_pairs_of(url: &str) -> (pairs: Option<Vec<(String, String)>>)
    ensures
        match pairs {
            Some(list) => url_query(url@) == Some(pairs_model(list@)),
            None => url_query(url@) is None,
        },
{
    match url::Url::parse(url) {
        Ok(parsed) => Some(
            parsed.query_pairs().map(|(k, v)| (k.into_owned(), v.into_owned())).collect(),
        ),
        Err(_) => None,
    }
}

/// The value of the last pair whose key is `key`.
pub open spec fn last_value(pairs: Seq<(Seq<char>, Seq<char>)>, key: Seq<char>) -> Option<
    Seq<char>,
>
    decreases pairs.len(),
{
    if pairs.len() == 0 {
        None
    } else if pairs.last().0 == key {
        Some(pairs.last().1)
    } else {
        last_value(pairs.drop_last(), key)
    }
}

/// The value of the last pair whose key is `key`.
pub fn last_param(pairs: &Vec<(String, String)>, key: &str) -> (value: Option<String>)
    ensures
        opt_text(value) == last_value(pairs_model(pairs@), key@),
{
    let mut found: Option<String> = None;
    let mut i: usize = 0;
    proof {
        assert(pairs_model(pairs@).take(0) =~= Seq::empty());
    }
    while i < pairs.len()
        invariant
            i <= pairs.len(),
            opt_text(found) == last_value(pairs_model(pairs@).take(i as int), key@),
        decreases pairs.len() - i,
    {
        proof {
            let next = pairs_model(pairs@).take(i + 1);
            assert(next.last() == pairs_model(pairs@)[i as int]);
            assert(next.drop_last() =~= pairs_model(pairs@).take(i as int));
        }
        if same_text(pairs[i].0.as_str(), key) {
            found = Some(pairs[i].1.clone());
        }
        i += 1;
    }
    proof {
        assert(pairs_model(pairs@).take(pairs@.len() as int) =~= pairs_model(pairs@));
    }
    found
}

/// The address that the callback's target is parsed under.
pub open spec fn callback_url(target: Seq<char>) -> Seq<char> {
    "http://localhost"@ + target
}

/// The query pairs of a callback request: those of its target read as a URL
/// on `localhost`, or `None` where the request has no target or the target
/// gives no URL.
pub open spec fn callback_query(request: Seq<char>) -> Option<Seq<(Seq<char>, Seq<char>)>> {
    match request_target(request) {
        Some(target) => url_query(callback_url(target)),
        None => None,
    }
}

impl OAuthFlowState {
    /// The token that a callback must echo now, if a flow is pending.
    pub open spec fn expected_state(self) -> Option<Seq<char>> {
        match self.flow {
            Some(flow) => Some(flow.state@),
            None => None,
        }
    }

    /// What is answered to a callback whose query holds `pairs`.
    ///
    /// A code with the state of the pending flow is accepted. A code with any
    /// other state, with none, or with no flow pending is a state mismatch.
    /// Without a code nothing else matters.
    pub open spec fn ruling(self, pairs: Option<Seq<(Seq<char>, Seq<char>)>>) -> Result<
        Seq<char>,
        OAuthError,
    > {
        let code = match pairs {
            Some(list) => last_value(list, "code"@),
            None => None,
        };
        let state = match pairs {
            Some(list) => last_value(list, "state"@),
            None => None,
        };
        match code {
            Some(c) => if state is Some && state == self.expected_state() {
                Ok(c)
            } else {
                Err(OAuthError::StateMismatch)
            },
            None => Err(OAuthError::MissingCode),
        }
    }

    /// No flow pending.
    pub fn new() -> (r: Self)
        ensures
            r.flow is None,
    {
        OAuthFlowState { flow: None }
    }

    /// The authorization address of the pending flow.
    pub fn prepared_url(&self) -> (url: Option<String>)
        ensures
            match self.flow {
                Some(flow) => opt_text(url) == Some(flow.auth_url@),
                None => url is None,
            },
    {
        match &self.flow {
            Some(flow) => Some(flow.auth_url.clone()),
            None => None,
        }
    }

    /// Makes `draft` with its authorization address the pending flow, and
    /// returns that address. A flow that was pending is replaced.
    pub fn install(&mut self, draft: FlowDraft, auth_url: String) -> (url: String)
        ensures
            url@ == auth_url@,
            final(self).flow matches Some(flow) && flow.auth_url@ == auth_url@ && flow.redirect_uri
                == draft.redirect_uri && flow.state == draft.state && flow.unclaimed,
    {
        let url = auth_url.clone();
        self.flow = Some(
            OAuthFlow {
                auth_url,
                redirect_uri: draft.redirect_uri,
                state: draft.state,
                unclaimed: true,
            },
        );
        url
    }

    /// Answers a callback whose query holds `pairs` (`None` where the request
    /// gave no URL to read a query from).
    pub fn reply_to_query(&self, pairs: Option<&Vec<(String, String)>>) -> (reply: CallbackReply)
        ensures
            reply_matches(
                reply,
                self.ruling(
                    match pairs {
                        Some(list) => Some(pairs_model(list@)),
                        None => None,
                    },
                ),
            ),
    {
        let (code, state) = match pairs {
            Some(list) => (last_param(list, "code"), last_param(list, "state")),
            None => (None, None),
        };
        let state_valid = match (&self.flow, &state) {
            (Some(flow), Some(received)) => same_text(received.as_str(), flow.state.as_str()),
            _ => false,
        };
        match code {
            Some(code) => {
                if state_valid {
                    CallbackReply { result: Ok(code), response: oauth_success_html() }
                } else {
                    CallbackReply {
                        result: Err(OAuthError::StateMismatch),
                        response: oauth_fail_html(),
                    }
                }
            },
            None => CallbackReply {
                result: Err(OAuthError::MissingCode),
                response: oauth_fail_html(),
            },
        }
    }

    /// Answers the callback request `request`.
    pub fn handle_callback(&self, request: &str) -> (reply: CallbackReply)
        ensures
            reply_matches(reply, self.ruling(callback_query(request@))),
    {
        match target_of(request) {
            Some(target) => {
                let url = joined("http://localhost", target.as_str());
                let pairs = query_pairs_of(url.as_str());
                match &pairs {
                    Some(list) => self.reply_to_query(Some(list)),
                    None => self.reply_to_query(None),
                }
            },
            None => self.reply_to_query(None),
        }
    }

    /// Begins to wait for the callback of the pending flow, and returns its
    /// redirect address. Only one caller may wait for a flow.
    pub fn begin_wait(&mut self) -> (r: Result<String, OAuthError>)
        ensures
            match old(self).flow {
                None => r == Err::<String, OAuthError>(OAuthError::NoFlow) && *final(self) == *old(
                    self,
                ),
                Some(flow) => if flow.unclaimed {
                    &&& r matches Ok(uri) && uri@ == flow.redirect_uri@
                    &&& final(self).flow == Some(OAuthFlow { unclaimed: false, ..flow })
                } else {
                    r == Err::<String, OAuthError>(OAuthError::InProgress) && *final(self) == *old(
                        self,
                    )
                },
            },
    {
        match &mut self.flow {
            None => Err(OAuthError::NoFlow),
            Some(flow) => {
                if flow.unclaimed {
                    flow.unclaimed = false;
                    Ok(flow.redirect_uri.clone())
                } else {
                    Err(OAuthError::InProgress)
                }
            },
        }
    }

    /// Ends the wait with what it brought. A code ends the flow; a failure
    /// leaves it as it is.
    pub fn end_wait(&mut self, outcome: CallbackWait) -> (r: Result<String, OAuthError>)
        ensures
            match outcome {
                CallbackWait::Answered(Ok(code)) => r == Ok::<String, OAuthError>(code)
                    && final(self).flow is None,
                CallbackWait::Answered(Err(e)) => r == Err::<String, OAuthError>(e) && *final(self)
                    == *old(self),
                CallbackWait::Dropped => r == Err::<String, OAuthError>(OAuthError::WaitFailed)
                    && *final(self) == *old(self),
            },
    {
        match outcome {
            CallbackWait::Answered(Ok(code)) => {
                self.flow = None;
                Ok(code)
            },
            CallbackWait::Answered(Err(e)) => Err(e),
            CallbackWait::Dropped => Err(OAuthError::WaitFailed),
        }
    }
}

/// The reply that goes with a ruling: the success page with the code, the
/// failure page with the error.
pub open spec fn reply_matches(reply: CallbackReply, ruling: Result<Seq<char>, OAuthError>) -> bool {
    match ruling {
        Ok(code) => reply.result matches Ok(c) && c@ == code && reply.response@ == success_page(),
        Err(e) => reply.result == Err::<String, OAuthError>(e) && reply.response@ == fail_page(),
    }
}

/// Drafts a new flow for the listeners that could be bound on `port`: its
/// redirect address and a fresh state token.
pub fn draft_flow(has_ipv4: bool, has_ipv6: bool, port: u16) -> (draft: FlowDraft)
    ensures
        draft.redirect_uri@ == redirect_address(has_ipv4, has_ipv6, port),
        is_state_token(draft.state@),
{
    FlowDraft { redirect_uri: redirect_uri_for(has_ipv4, has_ipv6, port), state: fresh_state_token() }
}

/// Cancels the pending flow, if any. Returns whether there was one, that is
/// whether its listeners must be told to stop.
pub fn cancel_oauth_flow(state: &mut OAuthFlowState) -> (signal: bool)
    ensures
        final(state).flow is None,
        signal == old(state).flow is Some,
{
    let signal = state.flow.is_some();
    state.flow = None;
    signal
}

} // verus!
