//! Listing the models that the API-key provider offers.
//!
//! The caller sends the request and reads the answer. The functions here say
//! what to send, judge the status, and collect the model names from the
//! answer's document.

use crate::json::{field, Fields, Json, JsonModel};
use crate::text::{
    decimal, is_blank, is_blank_text, joined, opt_text, pairs_model, push_decimal, sorted_unique,
    strictly_sorted, texts, trim_end_char, without_trailing,
};
use vstd::prelude::*;
use vstd::string::StringSliceAdditionalSpecFns;
use vstd::utf8::{encode_utf8, is_char_boundary};

verus! {

/// How the API-key provider takes part in dispatch.
#[derive(Clone, Copy, Debug, PartialEq, Eq, Structural)]
pub enum ZaiDispatchMode {
    /// Never used.
    Off,
    /// Used when no pooled account is eligible.
    Fallback,
    /// Used in preference to the pooled accounts.
    Primary,
}

/// Settings of the API-key provider.
#[derive(Debug)]
pub struct ZaiConfig {
    pub enabled: bool,
    pub base_url: String,
    pub api_key: String,
    pub dispatch_mode: ZaiDispatchMode,
}

/// An optional proxy through which upstream requests go.
#[derive(Debug)]
pub struct UpstreamProxyConfig {
    pub enabled: bool,
    pub url: String,
}

/// Why the models could not be listed.
#[derive(Debug)]
pub enum ZaiError {
    /// The base address is empty or blank.
    EmptyBaseUrl,
    /// The API key is empty or blank.
    MissingApiKey,
    /// The provider answered with a status outside `200..=299`.
    Upstream { status: u16, preview: String },
}

/// The request that lists the models.
#[derive(Debug)]
pub struct ModelsRequest {
    pub url: String,
    pub timeout_secs: u64,
    /// The proxy to go through, if one is enabled and named.
    pub proxy_url: Option<String>,
    /// Header names and values, in the order to send them.
    pub headers: Vec<(String, String)>,
}

/// Shortest timeout given to the request, in seconds.
pub const MIN_TIMEOUT_SECS: u64 = 5;

/// Most bytes of an answer's body that an error message quotes.
pub const PREVIEW_BYTES: usize = 4000;

/// `path` with a leading slash.
pub open spec fn rooted(path: Seq<char>) -> Seq<char> {
    if path.len() > 0 && path[0] == '/' {
        path
    } else {
        seq!['/'] + path
    }
}

/// `base` without trailing slashes, followed by `path` with one leading slash.
pub open spec fn joined_url(base: Seq<char>, path: Seq<char>) -> Seq<char> {
    without_trailing(base, '/') + rooted(path)
}

/// Joins a base address and a path with exactly one slash between them.
pub fn join_base_url(base: &str, path: &str) -> (url: String)
    ensures
        url@ == joined_url(base@, path@),
{
    let base = trim_end_char(base, '/');
    let mut url = String::from_str(base);
    let has_slash = path.unicode_len() > 0 && path.get_char(0) == '/';
    if !has_slash {
        url.append("/");
        proof {
            reveal_strlit("/");
            assert("/"@ =~= seq!['/']);
        }
    }
    url.append(path);
    url
}

/// The headers of the request that lists the models.
pub open spec fn models_headers(api_key: Seq<char>) -> Seq<(Seq<char>, Seq<char>)> {
    seq![
        ("Authorization"@, "Bearer "@ + api_key),
        ("x-api-key"@, api_key),
        ("anthropic-version"@, "2023-06-01"@),
        ("accept"@, "application/json"@),
    ]
}

impl ZaiConfig {
    /// What is wrong with the settings, if anything: a blank base address
    /// comes before a blank key.
    pub open spec fn defect(self) -> Option<ZaiError> {
        if is_blank_text(self.base_url@) {
            Some(ZaiError::EmptyBaseUrl)
        } else if is_blank_text(self.api_key@) {
            Some(ZaiError::MissingApiKey)
        } else {
            None
        }
    }

    /// Whether the provider can serve requests: enabled, and not switched off
    /// for dispatch.
    pub open spec fn serves(self) -> bool {
        self.enabled && self.dispatch_mode != ZaiDispatchMode::Off
    }

    /// Whether the provider can serve requests.
    pub fn is_serving(&self) -> (r: bool)
        ensures
            r == self.serves(),
    {
        self.enabled && !matches!(self.dispatch_mode, ZaiDispatchMode::Off)
    }
}

/// The request that lists the models of the provider configured in `zai`.
///
/// The timeout is `request_timeout`, but at least five seconds. The proxy is
/// used when it is enabled and its address is not empty.
pub fn models_request(
    zai: &ZaiConfig,
    upstream_proxy: &UpstreamProxyConfig,
    request_timeout: u64,
) -> (r: Result<ModelsRequest, ZaiError>)
    ensures
        match zai.defect() {
            Some(e) => r == Err::<ModelsRequest, ZaiError>(e),
            None => {
                &&& r matches Ok(req)
                &&& req.url@ == joined_url(zai.base_url@, "/v1/models"@)
                &&& req.timeout_secs == if request_timeout < MIN_TIMEOUT_SECS {
                    MIN_TIMEOUT_SECS
                } else {
                    request_timeout
                }
                &&& match req.proxy_url {
                    Some(p) => upstream_proxy.enabled && upstream_proxy.url@.len() > 0 && p@
                        == upstream_proxy.url@,
                    None => !(upstream_proxy.enabled && upstream_proxy.url@.len() > 0),
                }
                &&& pairs_model(req.headers@) == models_headers(zai.api_key@)
            },
        },
{
    if is_blank(zai.base_url.as_str()) {
        return Err(ZaiError::EmptyBaseUrl);
    }
    if is_blank(zai.api_key.as_str()) {
        return Err(ZaiError::MissingApiKey);
    }
    let url = join_base_url(zai.base_url.as_str(), "/v1/models");
    let timeout_secs = if request_timeout < MIN_TIMEOUT_SECS {
        MIN_TIMEOUT_SECS
    } else {
        request_timeout
    };
    let proxy_url = if upstream_proxy.enabled && upstream_proxy.url.as_str().unicode_len() > 0 {
        Some(upstream_proxy.url.clone())
    } else {
        None
    };
    let mut headers: Vec<(String, String)> = Vec::new();
    headers.push((String::from_str("Authorization"), joined("Bearer ", zai.api_key.as_str())));
    headers.push((String::from_str("x-api-key"), zai.api_key.clone()));
    headers.push((String::from_str("anthropic-version"), String::from_str("2023-06-01")));
    headers.push((String::from_str("accept"), String::from_str("application/json")));
    assert(pairs_model(headers@) =~= models_headers(zai.api_key@));
    Ok(ModelsRequest { url, timeout_secs, proxy_url, headers })
}

/// A status in `200..=299`.
pub open spec fn is_success_status(status: u16) -> bool {
    200 <= status <= 299
}

/// The last character boundary of `bytes` at or before `at`.
pub open spec fn boundary_at_or_before(bytes: Seq<u8>, at: int) -> int
    decreases at,
{
    if at <= 0 {
        0
    } else if is_char_boundary(bytes, at) {
        at
    } else {
        boundary_at_or_before(bytes, at - 1)
    }
}

/// How many bytes of a body an error message quotes: all of a body of at most
/// `PREVIEW_BYTES`; of a longer one, as many whole characters as fit.
pub open spec fn preview_len(bytes: Seq<u8>) -> int {
    if bytes.len() > PREVIEW_BYTES {
        boundary_at_or_before(bytes, PREVIEW_BYTES as int)
    } else {
        bytes.len() as int
    }
}

/// The part of `body` that an error message quotes.
pub fn preview_of(body: &str) -> (head: &str)
    ensures
        head.spec_bytes() == body.spec_bytes().subrange(0, preview_len(body.spec_bytes())),
{
    broadcast use vstd::utf8::encode_utf8_valid_utf8;

    let ghost bytes = body.spec_bytes();
    if body.as_bytes().len() > PREVIEW_BYTES {
        let mut cut: usize = PREVIEW_BYTES;
        while cut > 0 && !body.is_char_boundary(cut)
            invariant
                cut <= PREVIEW_BYTES,
                bytes == body.spec_bytes(),
                boundary_at_or_before(bytes, PREVIEW_BYTES as int) == boundary_at_or_before(
                    bytes,
                    cut as int,
                ),
            decreases cut,
        {
            cut -= 1;
        }
        assert(is_char_boundary(bytes, cut as int));
        assert(boundary_at_or_before(bytes, cut as int) == cut);
        let parts = body.split_at(cut);
        assert(parts.0.spec_bytes() =~= bytes.subrange(0, cut as int));
        parts.0
    } else {
        assert(bytes.subrange(0, bytes.len() as int) =~= bytes);
        body
    }
}

/// Judges the status of the provider's answer. Any status outside
/// `200..=299` is an error that quotes the beginning of the body.
pub fn check_models_status(status: u16, body: &str) -> (r: Result<(), ZaiError>)
    ensures
        is_success_status(status) ==> r is Ok,
        !is_success_status(status) ==> ({
            &&& r matches Err(ZaiError::Upstream { status: s, preview })
            &&& s == status
            &&& encode_utf8(preview@) == encode_utf8(body@).subrange(
                0,
                preview_len(encode_utf8(body@)),
            )
        }),
{
    if 200 <= status && status <= 299 {
        Ok(())
    } else {
        let head = preview_of(body);
        Err(ZaiError::Upstream { status, preview: String::from_str(head) })
    }
}

/// The standard reason phrase of a status, such as `Not Found` for 404;
/// none where the status has no standard phrase.
pub uninterp spec fn reason_phrase(status: u16) -> Option<Seq<char>>;

/// The reason phrase of `status`, by `reqwest::StatusCode::from_u16` and
/// `StatusCode::canonical_reason`.
///
/// Not proved: that the phrase is the same for the same status, and that a
/// status outside `100..=999`, which `from_u16` rejects, has none.
#[verifier::external_body]
fn reason_of(status: u16) -> (r: Option<String>)
    ensures
        opt_text(r) == reason_phrase(status),
        !(100 <= status <= 999) ==> r is None,
{
    match reqwest::StatusCode::from_u16(status) {
        Ok(code) => match code.canonical_reason() {
            Some(phrase) => Some(phrase.to_string()),
            None => None,
        },
        Err(_) => None,
    }
}

/// How a status is shown: its number, a space, and its reason phrase or,
/// where it has none, `<unknown status code>`.
pub open spec fn status_line(status: u16, reason: Option<Seq<char>>) -> Seq<char> {
    decimal(status as nat) + " "@ + match reason {
        Some(phrase) => phrase,
        None => "<unknown status code>"@,
    }
}

/// The message for an answer of the provider with a status that is no
/// success: the status as it is shown, and the beginning of the body.
pub open spec fn upstream_text(status: u16, reason: Option<Seq<char>>, preview: Seq<char>) -> Seq<
    char,
> {
    "Upstream returned "@ + status_line(status, reason) + ": "@ + preview
}

/// The message for an answer of the provider with the status `status`,
/// whose reason phrase is `reason`, and the body's beginning `preview`.
pub fn upstream_message(status: u16, reason: Option<&str>, preview: &str) -> (r: String)
    ensures
        r@ == upstream_text(
            status,
            match reason {
                Some(phrase) => Some(phrase@),
                None => None,
            },
            preview@,
        ),
{
    let mut r = String::from_str("Upstream returned ");
    push_decimal(&mut r, status as u64);
    r.append(" ");
    match reason {
        Some(phrase) => {
            r.append(phrase);
        },
        None => {
            r.append("<unknown status code>");
        },
    }
    r.append(": ");
    r.append(preview);
    r
}

impl ZaiError {
    /// The message shown for this error.
    pub open spec fn text(self) -> Seq<char> {
        match self {
            ZaiError::EmptyBaseUrl => "z.ai base_url is empty"@,
            ZaiError::MissingApiKey => "z.ai api_key is not set"@,
            ZaiError::Upstream { status, preview } => upstream_text(
                status,
                reason_phrase(status),
                preview@,
            ),
        }
    }

    /// The message shown for this error.
    pub fn message(&self) -> (r: String)
        ensures
            r@ == self.text(),
    {
        match self {
            ZaiError::EmptyBaseUrl => String::from_str("z.ai base_url is empty"),
            ZaiError::MissingApiKey => String::from_str("z.ai api_key is not set"),
            ZaiError::Upstream { status, preview } => {
                let reason = reason_of(*status);
                match &reason {
                    Some(phrase) => upstream_message(*status, Some(phrase.as_str()), preview.as_str()),
                    None => upstream_message(*status, None, preview.as_str()),
                }
            },
        }
    }
}

/// The model name that one entry of a listing gives: a string is the name;
/// an object gives its `id` if that is a string, else its `name` if that is a
/// string; anything else gives none.
pub open spec fn item_id(item: JsonModel) -> Option<Seq<char>> {
    match item {
        JsonModel::Text(s) => Some(s),
        JsonModel::Object(fields) => match field(fields, "id"@) {
            Some(JsonModel::Text(id)) => Some(id),
            _ => match field(fields, "name"@) {
                Some(JsonModel::Text(name)) => Some(name),
                _ => None,
            },
        },
        _ => None,
    }
}

/// The names that the entries of a listing give, in order.
pub open spec fn ids_of_items(items: Seq<JsonModel>) -> Seq<Seq<char>>
    decreases items.len(),
{
    if items.len() == 0 {
        Seq::empty()
    } else {
        let head = ids_of_items(items.drop_last());
        match item_id(items.last()) {
            Some(id) => head.push(id),
            None => head,
        }
    }
}

/// The names under the member `data`: those of its entries if it is an array.
pub open spec fn data_ids(fields: Fields) -> Seq<Seq<char>> {
    match field(fields, "data"@) {
        Some(JsonModel::Array(items)) => ids_of_items(items),
        _ => Seq::empty(),
    }
}

/// The names under the member `models`: those of its entries if it is an
/// array, else the one that the member itself gives.
pub open spec fn models_ids(fields: Fields) -> Seq<Seq<char>> {
    match field(fields, "models"@) {
        Some(JsonModel::Array(items)) => ids_of_items(items),
        Some(other) => ids_of_items(seq![other]),
        None => Seq::empty(),
    }
}

/// The model names in a listing document: those of an array's entries, or
/// those under `data` followed by those under `models` of an object.
pub open spec fn model_ids(doc: JsonModel) -> Seq<Seq<char>> {
    match doc {
        JsonModel::Array(items) => ids_of_items(items),
        JsonModel::Object(fields) => data_ids(fields) + models_ids(fields),
        _ => Seq::empty(),
    }
}

fn push_from_item(out: &mut Vec<String>, item: &Json)
    ensures
        texts(final(out)@) == match item_id(item@) {
            Some(id) => texts(old(out)@).push(id),
            None => texts(old(out)@),
        },
{
    let ghost before = texts(out@);
    match item {
        Json::Text(s) => {
            out.push(s.clone());
            assert(texts(out@) =~= before.push(s@));
        },
        Json::Object(_) => {
            let id = match item.get("id") {
                Some(v) => v.as_text(),
                None => None,
            };
            match id {
                Some(id) => {
                    out.push(String::from_str(id));
                    assert(texts(out@) =~= before.push(id@));
                },
                None => {
                    let name = match item.get("name") {
                        Some(v) => v.as_text(),
                        None => None,
                    };
                    match name {
                        Some(name) => {
                            out.push(String::from_str(name));
                            assert(texts(out@) =~= before.push(name@));
                        },
                        None => {},
                    }
                },
            }
        },
        _ => {},
    }
}

fn push_from_items(out: &mut Vec<String>, items: &Vec<Json>)
    ensures
        texts(final(out)@) == texts(old(out)@) + ids_of_items(crate::json::items_model(items@)),
{
    let ghost before = texts(out@);
    let ghost all = crate::json::items_model(items@);
    let mut i: usize = 0;
    proof {
        assert(all.take(0) =~= Seq::empty());
        assert(before + Seq::<Seq<char>>::empty() =~= before);
    }
    while i < items.len()
        invariant
            i <= items.len(),
            all == crate::json::items_model(items@),
            texts(out@) == before + ids_of_items(all.take(i as int)),
        decreases items.len() - i,
    {
        proof {
            let next = all.take(i + 1);
            assert(next.last() == items@[i as int]@);
            assert(next.drop_last() =~= all.take(i as int));
        }
        let ghost mid = texts(out@);
        push_from_item(out, &items[i]);
        proof {
            let head = ids_of_items(all.take(i as int));
            match item_id(items@[i as int]@) {
                Some(id) => {
                    assert(mid.push(id) =~= before + head.push(id));
                },
                None => {},
            }
        }
        i += 1;
    }
    proof {
        assert(all.take(items@.len() as int) =~= all);
    }
}

/// The model names in a listing document, in the order they appear.
pub fn extract_model_ids(value: &Json) -> (out: Vec<String>)
    ensures
        texts(out@) == model_ids(value@),
{
    let mut out: Vec<String> = Vec::new();
    proof {
        assert(texts(out@) =~= Seq::empty());
    }
    match value {
        Json::Array(items) => {
            push_from_items(&mut out, items);
            assert(texts(out@) =~= model_ids(value@));
        },
        Json::Object(_) => {
            match value.get("data") {
                Some(Json::Array(items)) => {
                    push_from_items(&mut out, items);
                },
                _ => {},
            }
            let ghost mid = texts(out@);
            assert(mid =~= data_ids(value@->Object_0));
            match value.get("models") {
                Some(Json::Array(items)) => {
                    push_from_items(&mut out, items);
                },
                Some(other) => {
                    push_from_item(&mut out, other);
                    proof {
                        let one = seq![other@];
                        assert(one.drop_last() =~= Seq::empty());
                        assert(ids_of_items(one.drop_last()) =~= Seq::empty());
                        match item_id(other@) {
                            Some(id) => {
                                assert(mid.push(id) =~= mid + ids_of_items(one));
                            },
                            None => {
                                assert(mid =~= mid + ids_of_items(one));
                            },
                        }
                    }
                },
                None => {
                    assert(mid + Seq::<Seq<char>>::empty() =~= mid);
                },
            }
        },
        _ => {},
    }
    out
}

/// The models that a listing document names: every name that is not blank,
/// once, in ascending order.
pub fn models_from_document(doc: &Json) -> (models: Vec<String>)
    ensures
        strictly_sorted(texts(models@)),
        forall|s: Seq<char>|
            #![trigger texts(models@).contains(s)]
            #![trigger model_ids(doc@).contains(s)]
            texts(models@).contains(s) <==> (model_ids(doc@).contains(s) && !is_blank_text(s)),
{
    let ids = extract_model_ids(doc);
    let mut kept: Vec<String> = Vec::new();
    let mut i: usize = 0;
    while i < ids.len()
        invariant
            i <= ids.len(),
            forall|s: Seq<char>|
                #![trigger texts(kept@).contains(s)]
                #![trigger texts(ids@).take(i as int).contains(s)]
                texts(kept@).contains(s) <==> (texts(ids@).take(i as int).contains(s)
                    && !is_blank_text(s)),
        decreases ids.len() - i,
    {
        let ghost before = texts(kept@);
        let ghost seen = texts(ids@).take(i as int);
        let ghost x = ids@[i as int]@;
        if !is_blank(ids[i].as_str()) {
            kept.push(ids[i].clone());
            assert(texts(kept@) =~= before.push(x));
        }
        proof {
            let next = texts(ids@).take(i + 1);
            let now = texts(kept@);
            assert(next =~= seen.push(x));
            assert forall|s: Seq<char>|
                #![trigger now.contains(s)]
                #![trigger next.contains(s)]
                now.contains(s) <==> (next.contains(s) && !is_blank_text(s)) by {
                if now.contains(s) {
                    let k = choose|k: int| 0 <= k < now.len() && now[k] == s;
                    if k < before.len() {
                        assert(before[k] == s);
                        assert(before.contains(s));
                        let m = choose|m: int| 0 <= m < seen.len() && seen[m] == s;
                        assert(next[m] == s);
                    } else {
                        assert(next[i as int] == s);
                    }
                }
                if next.contains(s) && !is_blank_text(s) {
                    let m = choose|m: int| 0 <= m < next.len() && next[m] == s;
                    if m < i {
                        assert(seen[m] == s);
                        assert(seen.contains(s));
                        let k = choose|k: int| 0 <= k < before.len() && before[k] == s;
                        assert(now[k] == s);
                    } else {
                        assert(now[now.len() - 1] == s);
                    }
                }
            }
        }
        i += 1;
    }
    proof {
        assert(texts(ids@).take(ids@.len() as int) =~= texts(ids@));
    }
    let models = sorted_unique(&kept);
    proof {
        assert forall|s: Seq<char>| texts(models@).contains(s) <==> (model_ids(doc@).contains(s)
            && !is_blank_text(s)) by {
            assert(texts(models@).contains(s) <==> texts(kept@).contains(s));
        }
    }
    models
}

} // verus!
