//! What the pipeline reads from a client request and writes into the
//! upstream request.

use crate::account::Credentials;
use crate::json::{field, fields_model, find_field, items_model, lookup, with_field, Json, JsonModel};
use crate::pipeline::{forwards_header, is_forwarded, same_ignoring_case};
use crate::sanitizer::{sanitized, SchemaSanitizer};
use crate::sticky::SessionKey;
use crate::text::{
    chars_of, insert_unique, is_digit, joined, lowered_text, opt_text, pairs_model, same_members,
    same_text, strictly_sorted, texts,
};
use crate::tool_adapter::ToolAdapter;
use vstd::prelude::*;

verus! {

/// The endpoints of the gateway.
#[derive(Clone, Copy, Debug, PartialEq, Eq, Structural)]
pub enum Endpoint {
    /// `POST /v1/messages`
    Messages,
    /// `POST /v1/chat/completions`
    ChatCompletions,
    /// `GET /v1/models`
    Models,
    /// `GET /health`
    Health,
}

/// The wire protocol that a dispatched request speaks.
#[derive(Clone, Copy, Debug, PartialEq, Eq, Structural)]
pub enum WireProtocol {
    Anthropic,
    OpenAiCompatible,
}

/// The endpoint that a method and a path name.
pub open spec fn endpoint_for(method: Seq<char>, path: Seq<char>) -> Option<Endpoint> {
    if method == "POST"@ && path == "/v1/messages"@ {
        Some(Endpoint::Messages)
    } else if method == "POST"@ && path == "/v1/chat/completions"@ {
        Some(Endpoint::ChatCompletions)
    } else if method == "GET"@ && path == "/v1/models"@ {
        Some(Endpoint::Models)
    } else if method == "GET"@ && path == "/health"@ {
        Some(Endpoint::Health)
    } else {
        None
    }
}

/// The endpoint that a request is for.
pub fn endpoint_of(method: &str, path: &str) -> (r: Option<Endpoint>)
    ensures
        r == endpoint_for(method@, path@),
{
    if same_text(method, "POST") && same_text(path, "/v1/messages") {
        Some(Endpoint::Messages)
    } else if same_text(method, "POST") && same_text(path, "/v1/chat/completions") {
        Some(Endpoint::ChatCompletions)
    } else if same_text(method, "GET") && same_text(path, "/v1/models") {
        Some(Endpoint::Models)
    } else if same_text(method, "GET") && same_text(path, "/health") {
        Some(Endpoint::Health)
    } else {
        None
    }
}

impl Endpoint {
    /// The protocol of a dispatched endpoint; none for the others.
    pub open spec fn wire(self) -> Option<WireProtocol> {
        match self {
            Endpoint::Messages => Some(WireProtocol::Anthropic),
            Endpoint::ChatCompletions => Some(WireProtocol::OpenAiCompatible),
            _ => None,
        }
    }

    /// The protocol of a dispatched endpoint.
    pub fn protocol(&self) -> (p: Option<WireProtocol>)
        ensures
            p == self.wire(),
    {
        match self {
            Endpoint::Messages => Some(WireProtocol::Anthropic),
            Endpoint::ChatCompletions => Some(WireProtocol::OpenAiCompatible),
            _ => None,
        }
    }
}

/// The value of the first header named `name`, whatever the case of the
/// names.
pub open spec fn header_of(headers: Seq<(Seq<char>, Seq<char>)>, name: Seq<char>) -> Option<
    Seq<char>,
>
    decreases headers.len(),
{
    if headers.len() == 0 {
        None
    } else if lowered_text(headers[0].0) == lowered_text(name) {
        Some(headers[0].1)
    } else {
        header_of(headers.drop_first(), name)
    }
}

/// The value of the first pair whose key is `name`.
pub open spec fn param_of(pairs: Seq<(Seq<char>, Seq<char>)>, name: Seq<char>) -> Option<Seq<char>>
    decreases pairs.len(),
{
    if pairs.len() == 0 {
        None
    } else if pairs[0].0 == name {
        Some(pairs[0].1)
    } else {
        param_of(pairs.drop_first(), name)
    }
}

/// The view of an optional text.
pub open spec fn opt_view(s: Option<&str>) -> Option<Seq<char>> {
    match s {
        Some(t) => Some(t@),
        None => None,
    }
}

/// The value of the first header named `name`, whatever the case of the
/// names.
pub fn header_value<'a>(headers: &'a Vec<(String, String)>, name: &str) -> (r: Option<&'a str>)
    ensures
        opt_view(r) == header_of(pairs_model(headers@), name@),
{
    let ghost all = pairs_model(headers@);
    let mut i: usize = 0;
    proof {
        assert(all.skip(0) =~= all);
    }
    while i < headers.len()
        invariant
            i <= headers.len(),
            all == pairs_model(headers@),
            header_of(all, name@) == header_of(all.skip(i as int), name@),
        decreases headers.len() - i,
    {
        proof {
            let rest = all.skip(i as int);
            assert(rest[0] == all[i as int]);
            assert(rest.drop_first() =~= all.skip(i + 1));
        }
        if same_ignoring_case(headers[i].0.as_str(), name) {
            return Some(headers[i].1.as_str());
        }
        i += 1;
    }
    None
}

/// The value of the first pair whose key is `name`.
pub fn param_value<'a>(pairs: &'a Vec<(String, String)>, name: &str) -> (r: Option<&'a str>)
    ensures
        opt_view(r) == param_of(pairs_model(pairs@), name@),
{
    let ghost all = pairs_model(pairs@);
    let mut i: usize = 0;
    proof {
        assert(all.skip(0) =~= all);
    }
    while i < pairs.len()
        invariant
            i <= pairs.len(),
            all == pairs_model(pairs@),
            param_of(all, name@) == param_of(all.skip(i as int), name@),
        decreases pairs.len() - i,
    {
        proof {
            let rest = all.skip(i as int);
            assert(rest[0] == all[i as int]);
            assert(rest.drop_first() =~= all.skip(i + 1));
        }
        if same_text(pairs[i].0.as_str(), name) {
            return Some(pairs[i].1.as_str());
        }
        i += 1;
    }
    None
}

/// Where the token that begins at `from` ends: at the next slash, or at the
/// end of the pointer.
pub open spec fn token_end(pointer: Seq<char>, from: int) -> int
    decreases pointer.len() - from,
{
    if from < 0 || from >= pointer.len() {
        pointer.len() as int
    } else if pointer[from] == '/' {
        from
    } else {
        token_end(pointer, from + 1)
    }
}

/// A reference token with its escapes resolved: `~1` stands for a slash
/// and `~0` for a tilde.
pub open spec fn unescaped(token: Seq<char>) -> Seq<char>
    decreases token.len(),
{
    if token.len() == 0 {
        token
    } else if token.len() >= 2 && token[0] == '~' && token[1] == '1' {
        seq!['/'] + unescaped(token.skip(2))
    } else if token.len() >= 2 && token[0] == '~' && token[1] == '0' {
        seq!['~'] + unescaped(token.skip(2))
    } else {
        seq![token[0]] + unescaped(token.skip(1))
    }
}

/// The index that a token names in an array: the token is `0` or decimal
/// digits that do not begin with a zero.
pub open spec fn index_of_token(token: Seq<char>) -> Option<nat> {
    if token.len() == 0 || (token.len() > 1 && token[0] == '0') || !(forall|i: int|
        0 <= i < token.len() ==> is_digit(#[trigger] token[i])) {
        None
    } else {
        Some(crate::pipeline::digits_value(token))
    }
}

/// The member of `doc` that `token` names: a field of an object, or an
/// entry of an array.
pub open spec fn member(doc: JsonModel, token: Seq<char>) -> Option<JsonModel> {
    match doc {
        JsonModel::Object(fields) => field(fields, token),
        JsonModel::Array(items) => match index_of_token(token) {
            Some(i) => if i < items.len() {
                Some(items[i as int])
            } else {
                None
            },
            None => None,
        },
        _ => None,
    }
}

/// The value that the part of a JSON pointer from `from` names in `doc`.
pub open spec fn resolved_from(doc: JsonModel, pointer: Seq<char>, from: int) -> Option<JsonModel>
    decreases pointer.len() - from,
{
    if from < 0 || from >= pointer.len() {
        Some(doc)
    } else if pointer[from] != '/' {
        None
    } else {
        let end = token_end(pointer, from + 1);
        if end <= from || end > pointer.len() {
            None
        } else {
            match member(doc, unescaped(pointer.subrange(from + 1, end))) {
                Some(child) => resolved_from(child, pointer, end),
                None => None,
            }
        }
    }
}

/// The value that a JSON pointer names in `doc`: the document itself for
/// the empty pointer, else what its tokens lead to, each after a slash.
pub open spec fn resolved(doc: JsonModel, pointer: Seq<char>) -> Option<JsonModel> {
    resolved_from(doc, pointer, 0)
}

/// A token ends at or after its beginning, within the pointer.
pub proof fn lemma_token_end(pointer: Seq<char>, from: int)
    requires
        0 <= from <= pointer.len(),
    ensures
        from <= token_end(pointer, from) <= pointer.len(),
    decreases pointer.len() - from,
{
    if from < pointer.len() && pointer[from] != '/' {
        lemma_token_end(pointer, from + 1);
    }
}

fn unescape(token: &str) -> (r: String)
    ensures
        r@ == unescaped(token@),
{
    let v = chars_of(token);
    let mut out = String::new();
    let mut i: usize = 0;
    proof {
        assert(token@.skip(0) =~= token@);
        assert(out@ + unescaped(token@) =~= unescaped(token@));
    }
    while i < v.len()
        invariant
            i <= v.len(),
            v@ == token@,
            out@ + unescaped(token@.skip(i as int)) == unescaped(token@),
        decreases v.len() - i,
    {
        let ghost rest = token@.skip(i as int);
        proof {
            assert(rest[0] == token@[i as int]);
            if i + 1 < v.len() {
                assert(rest[1] == token@[i + 1]);
            }
            assert(rest.skip(1) =~= token@.skip(i + 1));
            if i + 1 < v.len() {
                assert(rest.skip(2) =~= token@.skip(i + 2));
            }
        }
        let ghost before = out@;
        if v[i] == '~' && i + 1 < v.len() && v[i + 1] == '1' {
            out.append("/");
            proof {
                reveal_strlit("/");
                assert("/"@ =~= seq!['/']);
                assert(out@ + unescaped(rest.skip(2)) =~= before + unescaped(rest));
            }
            i += 2;
        } else if v[i] == '~' && i + 1 < v.len() && v[i + 1] == '0' {
            out.append("~");
            proof {
                reveal_strlit("~");
                assert("~"@ =~= seq!['~']);
                assert(out@ + unescaped(rest.skip(2)) =~= before + unescaped(rest));
            }
            i += 2;
        } else {
            let one = token.substring_char(i, i + 1);
            proof {
                assert(one@ =~= seq![token@[i as int]]);
            }
            out.append(one);
            proof {
                assert(out@ + unescaped(rest.skip(1)) =~= before + unescaped(rest));
            }
            i += 1;
        }
    }
    proof {
        assert(out@ + unescaped(token@.skip(token@.len() as int)) =~= out@);
    }
    out
}

fn token_index(token: &str) -> (r: Option<usize>)
    ensures
        match r {
            Some(i) => index_of_token(token@) == Some(i as nat),
            None => index_of_token(token@) is None || index_of_token(token@)->0 > usize::MAX,
        },
{
    let v = chars_of(token);
    if v.len() == 0 || (v.len() > 1 && v[0] == '0') {
        return None;
    }
    match crate::pipeline::parse_seconds(token) {
        Some(n) => {
            if n <= usize::MAX as u64 {
                Some(n as usize)
            } else {
                None
            }
        },
        None => None,
    }
}

fn member_of<'a>(doc: &'a Json, token: &str) -> (r: Option<&'a Json>)
    ensures
        match r {
            Some(child) => member(doc@, token@) == Some(child@),
            None => member(doc@, token@) is None,
        },
{
    match doc {
        Json::Object(fields) => lookup(fields, token),
        Json::Array(items) => {
            let n = items.len();
            assert(items_model(items@).len() == n);
            match token_index(token) {
                Some(i) => if i < n {
                    assert(items_model(items@)[i as int] == items@[i as int]@);
                    Some(&items[i])
                } else {
                    None
                },
                None => None,
            }
        },
        _ => None,
    }
}

/// The value that the JSON pointer `pointer` names in `doc`.
pub fn pointer_get<'a>(doc: &'a Json, pointer: &str) -> (r: Option<&'a Json>)
    ensures
        match r {
            Some(value) => resolved(doc@, pointer@) == Some(value@),
            None => resolved(doc@, pointer@) is None,
        },
{
    let v = chars_of(pointer);
    let mut current: &Json = doc;
    let mut from: usize = 0;
    while from < v.len()
        invariant
            from <= v.len(),
            v@ == pointer@,
            resolved(doc@, pointer@) == resolved_from(current@, pointer@, from as int),
        decreases v.len() - from,
    {
        if v[from] != '/' {
            return None;
        }
        let mut end: usize = from + 1;
        while end < v.len() && v[end] != '/'
            invariant
                from + 1 <= end <= v.len(),
                v@ == pointer@,
                token_end(pointer@, from + 1) == token_end(pointer@, end as int),
            decreases v.len() - end,
        {
            end += 1;
        }
        proof {
            lemma_token_end(pointer@, from + 1);
        }
        let raw = pointer.substring_char(from + 1, end);
        let token = unescape(raw);
        match member_of(current, token.as_str()) {
            Some(child) => {
                current = child;
            },
            None => {
                return None;
            },
        }
        from = end;
    }
    Some(current)
}

/// The session id of a request, read where `key` says: from the header of
/// that name, from the query parameter of that name, or from the string at
/// that JSON pointer in the body.
pub open spec fn session_of(
    key: SessionKey,
    headers: Seq<(Seq<char>, Seq<char>)>,
    query: Seq<(Seq<char>, Seq<char>)>,
    body: JsonModel,
) -> Option<Seq<char>> {
    match key {
        SessionKey::Header(name) => header_of(headers, name@),
        SessionKey::QueryParam(name) => param_of(query, name@),
        SessionKey::BodyField(pointer) => match resolved(body, pointer@) {
            Some(JsonModel::Text(s)) => Some(s),
            _ => None,
        },
    }
}

/// The session id of a request.
pub fn session_id_of(
    key: &SessionKey,
    headers: &Vec<(String, String)>,
    query: &Vec<(String, String)>,
    body: &Json,
) -> (r: Option<String>)
    ensures
        opt_text(r) == session_of(*key, pairs_model(headers@), pairs_model(query@), body@),
{
    let found: Option<&str> = match key {
        SessionKey::Header(name) => header_value(headers, name.as_str()),
        SessionKey::QueryParam(name) => param_value(query, name.as_str()),
        SessionKey::BodyField(pointer) => match pointer_get(body, pointer.as_str()) {
            Some(value) => value.as_text(),
            None => None,
        },
    };
    match found {
        Some(s) => Some(String::from_str(s)),
        None => None,
    }
}

/// What the pipeline needs from a request body to route it.
#[derive(Debug, PartialEq, Eq)]
pub struct RoutingFields {
    /// The model asked for: the string under `model`.
    pub model: Option<String>,
    /// The string under `metadata.session_id`.
    pub session_id: Option<String>,
    /// The number of entries of the array under `tools`.
    pub tool_count: usize,
    /// Whether `stream` is `true`.
    pub stream: bool,
}

/// The string under `key` of an object.
pub open spec fn text_under(doc: JsonModel, key: Seq<char>) -> Option<Seq<char>> {
    match doc.get(key) {
        Some(JsonModel::Text(s)) => Some(s),
        _ => None,
    }
}

/// Reads what routing needs from a request body.
pub fn routing_fields(body: &Json) -> (r: RoutingFields)
    ensures
        opt_text(r.model) == text_under(body@, "model"@),
        opt_text(r.session_id) == match body@.get("metadata"@) {
            Some(meta) => text_under(meta, "session_id"@),
            None => None,
        },
        r.tool_count == match body@.get("tools"@) {
            Some(JsonModel::Array(tools)) => tools.len(),
            _ => 0,
        },
        r.stream == (body@.get("stream"@) == Some(JsonModel::Bool(true))),
{
    let model = match body.get("model") {
        Some(Json::Text(s)) => Some(s.clone()),
        _ => None,
    };
    let session_id = match body.get("metadata") {
        Some(meta) => match meta.get("session_id") {
            Some(Json::Text(s)) => Some(s.clone()),
            _ => None,
        },
        None => None,
    };
    let tool_count = match body.get("tools") {
        Some(Json::Array(tools)) => tools.len(),
        _ => 0,
    };
    let stream = match body.get("stream") {
        Some(Json::Bool(b)) => *b,
        _ => false,
    };
    RoutingFields { model, session_id, tool_count, stream }
}

/// Writes the resolved model into a request body. A body that is no object
/// is left alone.
pub fn set_model(body: &mut Json, model: &str)
    ensures
        final(body)@ == match old(body)@ {
            JsonModel::Object(fields) => JsonModel::Object(
                with_field(fields, "model"@, JsonModel::Text(model@)),
            ),
            other => other,
        },
{
    match body {
        Json::Object(fields) => {
            let ghost before = fields_model(fields@);
            let at = find_field(fields, "model");
            if at < fields.len() {
                proof {
                    crate::json::lemma_position_found(before, "model"@);
                }
                fields[at].1 = Json::text_of(model);
                assert(fields_model(fields@) =~= before.update(
                    at as int,
                    ("model"@, JsonModel::Text(model@)),
                ));
            } else {
                fields.push((String::from_str("model"), Json::text_of(model)));
                assert(fields_model(fields@) =~= before.push(("model"@, JsonModel::Text(model@))));
            }
        },
        _ => {},
    }
}

/// The header that carries the account's credentials: a bearer token for
/// OAuth, the key itself for an API key.
pub open spec fn credential_header(credentials: Credentials) -> (Seq<char>, Seq<char>) {
    match credentials {
        Credentials::OAuth { access_token, .. } => ("authorization"@, "Bearer "@ + access_token@),
        Credentials::ApiKey(key) => ("x-api-key"@, key@),
    }
}

/// The client's headers that are forwarded, in their order.
pub open spec fn forwarded(headers: Seq<(Seq<char>, Seq<char>)>) -> Seq<(Seq<char>, Seq<char>)>
    decreases headers.len(),
{
    if headers.len() == 0 {
        headers
    } else if is_forwarded(headers.last().0) {
        forwarded(headers.drop_last()).push(headers.last())
    } else {
        forwarded(headers.drop_last())
    }
}

/// The headers of the upstream request: the client's headers that are
/// forwarded, the account's credentials, and the upstream host. Nothing
/// else of the client's headers goes upstream.
pub open spec fn upstream_head(
    client: Seq<(Seq<char>, Seq<char>)>,
    credentials: Credentials,
    host: Seq<char>,
) -> Seq<(Seq<char>, Seq<char>)> {
    forwarded(client).push(credential_header(credentials)).push(("host"@, host))
}

/// Builds the headers of the upstream request.
pub fn upstream_headers(client: &Vec<(String, String)>, credentials: &Credentials, host: &str) -> (out:
    Vec<(String, String)>)
    ensures
        pairs_model(out@) == upstream_head(pairs_model(client@), *credentials, host@),
{
    let mut out: Vec<(String, String)> = Vec::new();
    let ghost all = pairs_model(client@);
    let mut i: usize = 0;
    proof {
        assert(all.take(0) =~= Seq::<(Seq<char>, Seq<char>)>::empty());
        assert(pairs_model(out@) =~= Seq::<(Seq<char>, Seq<char>)>::empty());
    }
    while i < client.len()
        invariant
            i <= client.len(),
            all == pairs_model(client@),
            pairs_model(out@) == forwarded(all.take(i as int)),
        decreases client.len() - i,
    {
        proof {
            let next = all.take(i + 1);
            assert(next.drop_last() =~= all.take(i as int));
            assert(next.last() == all[i as int]);
        }
        let ghost before = pairs_model(out@);
        if forwards_header(client[i].0.as_str()) {
            out.push((client[i].0.clone(), client[i].1.clone()));
            assert(pairs_model(out@) =~= before.push(all[i as int]));
        }
        i += 1;
    }
    proof {
        assert(all.take(all.len() as int) =~= all);
    }
    let ghost kept = pairs_model(out@);
    match credentials {
        Credentials::OAuth { access_token, .. } => {
            out.push((String::from_str("authorization"), joined("Bearer ", access_token.as_str())));
        },
        Credentials::ApiKey(key) => {
            out.push((String::from_str("x-api-key"), key.clone()));
        },
    }
    out.push((String::from_str("host"), String::from_str(host)));
    assert(pairs_model(out@) =~= kept.push(credential_header(*credentials)).push(("host"@, host@)));
    out
}

/// Every text of every list.
pub open spec fn all_of(lists: Seq<Vec<String>>) -> Seq<Seq<char>>
    decreases lists.len(),
{
    if lists.len() == 0 {
        Seq::empty()
    } else {
        all_of(lists.drop_last()) + texts(lists.last()@)
    }
}

/// The union of the model lists of the upstreams: every model once, in
/// ascending order.
pub fn merge_model_lists(lists: &Vec<Vec<String>>) -> (out: Vec<String>)
    ensures
        strictly_sorted(texts(out@)),
        same_members(texts(out@), all_of(lists@)),
{
    let mut out: Vec<String> = Vec::new();
    let mut i: usize = 0;
    proof {
        assert(lists@.take(0) =~= Seq::<Vec<String>>::empty());
    }
    while i < lists.len()
        invariant
            i <= lists.len(),
            strictly_sorted(texts(out@)),
            same_members(texts(out@), all_of(lists@.take(i as int))),
        decreases lists.len() - i,
    {
        let list = &lists[i];
        let ghost done = all_of(lists@.take(i as int));
        proof {
            let next = lists@.take(i + 1);
            assert(next.drop_last() =~= lists@.take(i as int));
            assert(next.last() == lists@[i as int]);
            assert(texts(list@).take(0) =~= Seq::<Seq<char>>::empty());
            assert(done + Seq::<Seq<char>>::empty() =~= done);
        }
        let mut j: usize = 0;
        while j < list.len()
            invariant
                j <= list.len(),
                strictly_sorted(texts(out@)),
                same_members(texts(out@), done + texts(list@).take(j as int)),
            decreases list.len() - j,
        {
            let ghost before = texts(out@);
            let ghost seen = done + texts(list@).take(j as int);
            insert_unique(&mut out, list[j].as_str());
            proof {
                let x = list@[j as int]@;
                let next = done + texts(list@).take(j + 1);
                assert(next =~= seen.push(x));
                assert forall|s: Seq<char>| texts(out@).contains(s) <==> next.contains(s) by {
                    if next.contains(s) {
                        let k = choose|k: int| 0 <= k < next.len() && next[k] == s;
                        if k < seen.len() {
                            assert(seen[k] == s);
                            assert(seen.contains(s));
                        }
                    }
                    if seen.contains(s) {
                        let k = choose|k: int| 0 <= k < seen.len() && seen[k] == s;
                        assert(next[k] == s);
                    }
                    if s == x {
                        assert(next[seen.len() as int] == s);
                    }
                }
            }
            j += 1;
        }
        proof {
            assert(texts(list@).take(list@.len() as int) =~= texts(list@));
        }
        i += 1;
    }
    proof {
        assert(lists@.take(lists@.len() as int) =~= lists@);
    }
    out
}

/// The answer of the models endpoint: an object whose `data` lists an
/// object with the `id` of each model.
pub open spec fn models_listing(ids: Seq<Seq<char>>) -> JsonModel {
    JsonModel::Object(
        seq![
            (
                "data"@,
                JsonModel::Array(
                    Seq::new(
                        ids.len(),
                        |i: int| JsonModel::Object(seq![("id"@, JsonModel::Text(ids[i]))]),
                    ),
                ),
            ),
        ],
    )
}

/// Builds the answer of the models endpoint.
pub fn models_body(ids: &Vec<String>) -> (body: Json)
    ensures
        body@ == models_listing(texts(ids@)),
{
    let mut data: Vec<Json> = Vec::new();
    let mut i: usize = 0;
    while i < ids.len()
        invariant
            i <= ids.len(),
            data@.len() == i,
            forall|k: int|
                0 <= k < i ==> (#[trigger] data@[k])@ == JsonModel::Object(
                    seq![("id"@, JsonModel::Text(texts(ids@)[k]))],
                ),
        decreases ids.len() - i,
    {
        let mut entry: Vec<(String, Json)> = Vec::new();
        entry.push((String::from_str("id"), Json::Text(ids[i].clone())));
        assert(fields_model(entry@) =~= seq![("id"@, JsonModel::Text(ids@[i as int]@))]);
        data.push(Json::Object(entry));
        i += 1;
    }
    assert(items_model(data@) =~= Seq::new(
        texts(ids@).len(),
        |i: int| JsonModel::Object(seq![("id"@, JsonModel::Text(texts(ids@)[i]))]),
    ));
    let mut fields: Vec<(String, Json)> = Vec::new();
    fields.push((String::from_str("data"), Json::Array(data)));
    assert(fields_model(fields@) =~= seq![("data"@, fields@[0].1@)]);
    Json::Object(fields)
}

/// What the sanitizer makes of one tool: the schema under `input_schema`
/// of an object with a string `name` is sanitized for that name; anything
/// else stays. `None` where the adapter fails.
pub open spec fn tool_sanitized<A: ToolAdapter>(adapters: Seq<A>, tool: JsonModel) -> Option<
    JsonModel,
> {
    match tool {
        JsonModel::Object(fields) => match (field(fields, "name"@), field(fields, "input_schema"@)) {
            (Some(JsonModel::Text(name)), Some(schema)) => match sanitized(adapters, name, schema) {
                Some(after) => Some(JsonModel::Object(with_field(fields, "input_schema"@, after))),
                None => None,
            },
            _ => Some(tool),
        },
        _ => Some(tool),
    }
}

/// Sanitizes the schema of one tool in place.
pub fn sanitize_tool<A: ToolAdapter>(sanitizer: &SchemaSanitizer<A>, tool: &mut Json) -> (r: Result<
    (),
    String,
>)
    ensures
        match tool_sanitized(sanitizer@, old(tool)@) {
            Some(after) => r is Ok && final(tool)@ == after,
            None => r is Err,
        },
{
    match tool {
        Json::Object(fields) => {
            let ghost before = fields_model(fields@);
            let name: Option<String> = match lookup(fields, "name") {
                Some(Json::Text(n)) => Some(n.clone()),
                _ => None,
            };
            match name {
                Some(n) => {
                    let at = find_field(fields, "input_schema");
                    if at < fields.len() {
                        proof {
                            crate::json::lemma_position_found(before, "input_schema"@);
                        }
                        let r = sanitizer.sanitize(n.as_str(), &mut fields[at].1);
                        proof {
                            if r is Ok {
                                let after = sanitized(sanitizer@, n@, before[at as int].1)->0;
                                assert(fields_model(fields@) =~= before.update(
                                    at as int,
                                    ("input_schema"@, after),
                                ));
                            }
                        }
                        r
                    } else {
                        Ok(())
                    }
                },
                None => Ok(()),
            }
        },
        _ => Ok(()),
    }
}

/// Sanitizes the schemas of the tools of a request body in place: each
/// entry of the array under `tools`. Returns the adapter's message where
/// one fails; the tools before that one are sanitized then.
pub fn sanitize_tools<A: ToolAdapter>(sanitizer: &SchemaSanitizer<A>, tools: &mut Vec<Json>) -> (r:
    Result<(), String>)
    ensures
        final(tools)@.len() == old(tools)@.len(),
        r is Ok <==> forall|k: int|
            0 <= k < old(tools)@.len() ==> tool_sanitized(sanitizer@, #[trigger] old(tools)@[k]@)
                is Some,
        r is Ok ==> forall|k: int|
            0 <= k < old(tools)@.len() ==> Some((#[trigger] final(tools)@[k])@) == tool_sanitized(
                sanitizer@,
                old(tools)@[k]@,
            ),
{
    let mut i: usize = 0;
    while i < tools.len()
        invariant
            i <= tools.len(),
            tools@.len() == old(tools)@.len(),
            forall|k: int|
                0 <= k < i ==> Some((#[trigger] tools@[k])@) == tool_sanitized(
                    sanitizer@,
                    old(tools)@[k]@,
                ),
            forall|k: int| i <= k < tools@.len() ==> #[trigger] tools@[k] == old(tools)@[k],
        decreases tools.len() - i,
    {
        match sanitize_tool(sanitizer, &mut tools[i]) {
            Ok(()) => {},
            Err(e) => {
                assert(tool_sanitized(sanitizer@, old(tools)@[i as int]@) is None);
                return Err(e);
            },
        }
        i += 1;
    }
    proof {
        assert forall|k: int| 0 <= k < old(tools)@.len() implies tool_sanitized(
            sanitizer@,
            #[trigger] old(tools)@[k]@,
        ) is Some by {
            assert(Some(tools@[k]@) == tool_sanitized(sanitizer@, old(tools)@[k]@));
        }
    }
    Ok(())
}

} // verus!
