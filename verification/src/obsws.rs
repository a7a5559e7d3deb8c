//! The obs-websocket (v5) protocol as the app speaks it: the Identify reply
//! to OBS's Hello (with the salted SHA-256 authentication string), request
//! and response messages, the persistent session's handling of each message,
//! and the connection status shown to the user.
//!
//! Opening the socket, sending and receiving frames and (de)serialising JSON
//! text are the caller's part.
use vstd::prelude::*;
use base64::Engine as _;

use crate::clip::{sha256, sha256_digest};
use crate::json::{
    get_bool, get_field, get_str, jclone, jfield, jfield_bool, jfield_str, jnum, jobject, jset, jstr,
    jv_members, Json, JsonView, Member, member, set_field,
};
use crate::numtext::{
    decimal, decimal_string, json_int, json_int_chars, json_uint, json_uint_chars, signed_decimal,
    signed_decimal_string,
};
use crate::text::{append_str, chars_of, owned, push_char, str_eq, trim, trim_seq};
use vstd::utf8::encode_utf8;

verus! {

// ------------------------------------------------------------ authentication

/// The character of a six-bit value in the standard alphabet
/// (`A`-`Z`, `a`-`z`, `0`-`9`, `+`, `/`).
pub open spec fn base64_char(v: int) -> char {
    if v < 26 {
        (65 + v) as char
    } else if v < 52 {
        (71 + v) as char
    } else if v < 62 {
        (v - 4) as char
    } else if v == 62 {
        '+'
    } else {
        '/'
    }
}

/// Standard base64 with padding: each three bytes become four characters,
/// six bits each, and a last group of one or two bytes is padded with `=`.
pub open spec fn base64_standard(data: Seq<u8>) -> Seq<char>
    decreases data.len(),
{
    if data.len() == 0 {
        Seq::empty()
    } else if data.len() == 1 {
        let n = data[0] * 65536;
        seq![base64_char(n / 262144), base64_char(n / 4096 % 64), '=', '=']
    } else if data.len() == 2 {
        let n = data[0] * 65536 + data[1] * 256;
        seq![base64_char(n / 262144), base64_char(n / 4096 % 64), base64_char(n / 64 % 64), '=']
    } else {
        let n = data[0] * 65536 + data[1] * 256 + data[2];
        seq![
            base64_char(n / 262144),
            base64_char(n / 4096 % 64),
            base64_char(n / 64 % 64),
            base64_char(n % 64),
        ] + base64_standard(data.skip(3))
    }
}

/// `base64::engine::general_purpose::STANDARD.encode`: standard base64 with
/// padding. The encoder panics where the encoded length overflows `usize`,
/// which `requires` leaves out.
#[verifier::external_body]
pub(crate) fn base64_encode(data: &[u8]) -> (r: String)
    requires
        data@.len() / 3 * 4 + 4 <= usize::MAX,
    ensures
        r@ == base64_standard(data@),
{
    base64::engine::general_purpose::STANDARD.encode(data)
}

/// The authentication string for a Hello's salt and challenge:
/// `base64(sha256(base64(sha256(password + salt)) + challenge))`.
pub open spec fn auth_token_spec(password: Seq<char>, salt: Seq<char>, challenge: Seq<char>) -> Seq<
    char,
> {
    let secret = base64_standard(sha256_digest(encode_utf8(password) + encode_utf8(salt)));
    base64_standard(sha256_digest(encode_utf8(secret) + encode_utf8(challenge)))
}

fn joined_bytes(a: &str, b: &str) -> (r: Vec<u8>)
    ensures
        r@ == encode_utf8(a@) + encode_utf8(b@),
{
    let mut out: Vec<u8> = Vec::new();
    let ab = a.as_bytes();
    let bb = b.as_bytes();
    let mut i: usize = 0;
    while i < ab.len()
        invariant
            i <= ab@.len(),
            out@ == ab@.take(i as int),
        decreases ab.len() - i,
    {
        out.push(ab[i]);
        assert(ab@.take(i + 1) =~= ab@.take(i as int).push(ab@[i as int]));
        i += 1;
    }
    assert(ab@.take(i as int) =~= ab@);
    let mut j: usize = 0;
    while j < bb.len()
        invariant
            j <= bb@.len(),
            out@ == ab@ + bb@.take(j as int),
        decreases bb.len() - j,
    {
        out.push(bb[j]);
        assert(bb@.take(j + 1) =~= bb@.take(j as int).push(bb@[j as int]));
        j += 1;
    }
    assert(bb@.take(j as int) =~= bb@);
    out
}

/// The authentication string obs-websocket asks for, from the saved
/// password and the Hello's salt and challenge.
pub fn auth_token(password: &str, salt: &str, challenge: &str) -> (r: String)
    ensures
        r@ == auth_token_spec(password@, salt@, challenge@),
{
    let first = joined_bytes(password, salt);
    let digest = sha256(first.as_slice());
    let secret = base64_encode(digest.as_slice());
    let second = joined_bytes(secret.as_str(), challenge);
    let digest2 = sha256(second.as_slice());
    base64_encode(digest2.as_slice())
}

// ------------------------------------------------------------ messages

/// `v["op"].as_u64()`.
pub open spec fn json_op(v: JsonView) -> Option<nat> {
    match jfield(v, "op"@) {
        Some(JsonView::Number(t)) => json_uint(t),
        _ => None,
    }
}

pub fn message_op(v: &Json) -> (r: Option<u64>)
    ensures
        match r {
            Some(n) => json_op(v@) == Some(n as nat),
            None => json_op(v@) is None,
        },
{
    match get_field(v, "op") {
        Some(Json::Number(t)) => {
            let c = chars_of(t.as_str());
            json_uint_chars(c.as_slice())
        },
        _ => None,
    }
}

/// The member `k` of the member `d` of a message (`v.pointer("/d/k")`).
pub open spec fn d_field(v: JsonView, k: Seq<char>) -> Option<JsonView> {
    match jfield(v, "d"@) {
        Some(d) => jfield(d, k),
        None => None,
    }
}

fn get_d_field<'a>(v: &'a Json, k: &str) -> (r: Option<&'a Json>)
    ensures
        match r {
            Some(x) => d_field(v@, k@) == Some(x@),
            None => d_field(v@, k@) is None,
        },
{
    match get_field(v, "d") {
        Some(d) => get_field(d, k),
        None => None,
    }
}

/// The Hello's `rpcVersion` where it is an integer, else 1, as JSON text.
pub open spec fn rpc_text(hello: JsonView) -> Seq<char> {
    match d_field(hello, "rpcVersion"@) {
        Some(JsonView::Number(t)) => if json_int(t) is Some {
            t
        } else {
            "1"@
        },
        _ => "1"@,
    }
}

fn rpc_version_json(hello: &Json) -> (r: Json)
    ensures
        r@ == JsonView::Number(rpc_text(hello@)),
{
    match get_d_field(hello, "rpcVersion") {
        Some(Json::Number(t)) => {
            let c = chars_of(t.as_str());
            match json_int_chars(c.as_slice()) {
                Some(_) => Json::Number(t.clone()),
                None => jnum("1"),
            }
        },
        _ => jnum("1"),
    }
}

/// The Identify message for a Hello, given how the Hello asks for
/// authentication (`auth`), the password, and the three error texts.
pub open spec fn identify_spec(
    rpc: Seq<char>,
    auth: Option<JsonView>,
    password: Option<Seq<char>>,
    no_password: Seq<char>,
    no_challenge: Seq<char>,
    no_salt: Seq<char>,
) -> Result<JsonView, Seq<char>> {
    let d = JsonView::Object(
        seq![
            ("rpcVersion"@, JsonView::Number(rpc)),
            ("eventSubscriptions"@, JsonView::Number("1"@)),
            ("ignoreInvalidMessages"@, JsonView::Bool(true)),
        ],
    );
    let wrap = |d: JsonView| JsonView::Object(seq![("op"@, JsonView::Number("1"@)), ("d"@, d)]);
    match auth {
        None => Ok(wrap(d)),
        Some(a) => match password {
            None => Err(no_password),
            Some(p) => match jfield_str(a, "challenge"@) {
                None => Err(no_challenge),
                Some(c) => match jfield_str(a, "salt"@) {
                    None => Err(no_salt),
                    Some(s) => Ok(
                        wrap(jset(d, "authentication"@, JsonView::Str(auth_token_spec(p, s, c)))),
                    ),
                },
            },
        },
    }
}

fn identify_core(
    hello: &Json,
    auth: Option<&Json>,
    password: Option<&str>,
    no_password: &str,
    no_challenge: &str,
    no_salt: &str,
) -> (r: Result<Json, String>)
    ensures
        match (
            r,
            identify_spec(
                rpc_text(hello@),
                match auth {
                    Some(a) => Some(a@),
                    None => None,
                },
                match password {
                    Some(p) => Some(p@),
                    None => None,
                },
                no_password@,
                no_challenge@,
                no_salt@,
            ),
        ) {
            (Ok(j), Ok(v)) => j@ == v,
            (Err(e), Err(m)) => e@ == m,
            _ => false,
        },
{
    let mut dm: Vec<Member> = Vec::new();
    dm.push(member("rpcVersion", rpc_version_json(hello)));
    dm.push(member("eventSubscriptions", jnum("1")));
    dm.push(member("ignoreInvalidMessages", Json::Bool(true)));
    let d = jobject(dm);
    let ghost dv = JsonView::Object(
        seq![
            ("rpcVersion"@, JsonView::Number(rpc_text(hello@))),
            ("eventSubscriptions"@, JsonView::Number("1"@)),
            ("ignoreInvalidMessages"@, JsonView::Bool(true)),
        ],
    );
    assert(d@ == dv) by {
        crate::json::lemma_jv_members(dm@);
        assert(jv_members(dm@) =~= seq![
            ("rpcVersion"@, JsonView::Number(rpc_text(hello@))),
            ("eventSubscriptions"@, JsonView::Number("1"@)),
            ("ignoreInvalidMessages"@, JsonView::Bool(true)),
        ]);
    }
    let d = match auth {
        None => d,
        Some(a) => {
            let p = match password {
                Some(p) => p,
                None => {
                    return Err(owned(no_password));
                },
            };
            let c = match get_str(a, "challenge") {
                Some(c) => c,
                None => {
                    return Err(owned(no_challenge));
                },
            };
            let s = match get_str(a, "salt") {
                Some(s) => s,
                None => {
                    return Err(owned(no_salt));
                },
            };
            let token = auth_token(p, s.as_str(), c.as_str());
            set_field(d, "authentication", Json::Str(token))
        },
    };
    let ghost dv2 = d@;
    let mut mm: Vec<Member> = Vec::new();
    mm.push(member("op", jnum("1")));
    mm.push(member("d", d));
    assert(jv_members(mm@) =~= seq![("op"@, JsonView::Number("1"@)), ("d"@, dv2)]) by {
        crate::json::lemma_jv_members(mm@);
    }
    Ok(jobject(mm))
}

/// How the one-shot request path reads a Hello's authentication: present
/// where `d.authentication` is there and not null.
pub open spec fn hello_auth_request(hello: JsonView) -> Option<JsonView> {
    match d_field(hello, "authentication"@) {
        Some(a) => if a is Null {
            None
        } else {
            Some(a)
        },
        None => None,
    }
}

/// The password for a request: the one saved in the settings (trimmed) if
/// any, else the one in OBS's own websocket config.
pub open spec fn resolve_password_spec(saved: Seq<char>, from_config: Option<Seq<char>>) -> Option<
    Seq<char>,
> {
    if trim_seq(saved).len() > 0 {
        Some(trim_seq(saved))
    } else {
        from_config
    }
}

pub fn resolve_password(saved: &str, from_config: Option<String>) -> (r: Option<String>)
    ensures
        match (r, resolve_password_spec(saved@, match from_config {
            Some(p) => Some(p@),
            None => None,
        })) {
            (Some(a), Some(b)) => a@ == b,
            (None, None) => true,
            _ => false,
        },
{
    let t = trim(saved);
    if t.as_str().is_empty() {
        from_config
    } else {
        Some(t)
    }
}

/// The Identify reply the one-shot request path sends for a Hello.
pub fn request_identify(hello: &Json, password: Option<&str>) -> (r: Result<Json, String>)
    ensures
        match (
            r,
            identify_spec(
                rpc_text(hello@),
                hello_auth_request(hello@),
                match password {
                    Some(p) => Some(p@),
                    None => None,
                },
                "OBS WebSocket needs password. Save it in 533clip OBS settings."@,
                "OBS WebSocket auth challenge missing"@,
                "OBS WebSocket auth salt missing"@,
            ),
        ) {
            (Ok(j), Ok(v)) => j@ == v,
            (Err(e), Err(m)) => e@ == m,
            _ => false,
        },
{
    let auth = match get_d_field(hello, "authentication") {
        Some(Json::Null) => None,
        Some(a) => Some(a),
        None => None,
    };
    identify_core(
        hello,
        auth,
        password,
        "OBS WebSocket needs password. Save it in 533clip OBS settings.",
        "OBS WebSocket auth challenge missing",
        "OBS WebSocket auth salt missing",
    )
}

/// The Identify reply the persistent session sends for a Hello
/// (`build_identify`): authentication is asked for wherever
/// `d.authentication` is there, and an empty password counts as none.
pub fn build_identify(hello: &Json, password: Option<&str>) -> (r: Result<Json, String>)
    ensures
        match (
            r,
            identify_spec(
                rpc_text(hello@),
                d_field(hello@, "authentication"@),
                match password {
                    Some(p) => if p@.len() > 0 {
                        Some(p@)
                    } else {
                        None
                    },
                    None => None,
                },
                "OBS requires a WebSocket password. Paste it from OBS → Tools → WebSocket Server Settings into the sidebar, then Save."@,
                "OBS auth challenge missing"@,
                "OBS auth salt missing"@,
            ),
        ) {
            (Ok(j), Ok(v)) => j@ == v,
            (Err(e), Err(m)) => e@ == m,
            _ => false,
        },
{
    let auth = get_d_field(hello, "authentication");
    let password = match password {
        Some(p) => if p.is_empty() {
            None
        } else {
            Some(p)
        },
        None => None,
    };
    identify_core(
        hello,
        auth,
        password,
        "OBS requires a WebSocket password. Paste it from OBS → Tools → WebSocket Server Settings into the sidebar, then Save.",
        "OBS auth challenge missing",
        "OBS auth salt missing",
    )
}

// ------------------------------------------------------------ requests

/// A request message: `{"op": 6, "d": {requestType, requestId, requestData}}`.
pub open spec fn request_spec(request_type: Seq<char>, request_id: Seq<char>, data: JsonView) -> JsonView {
    JsonView::Object(
        seq![
            ("op"@, JsonView::Number("6"@)),
            (
                "d"@,
                JsonView::Object(
                    seq![
                        ("requestType"@, JsonView::Str(request_type)),
                        ("requestId"@, JsonView::Str(request_id)),
                        ("requestData"@, data),
                    ],
                ),
            ),
        ],
    )
}

pub fn request_message(request_type: &str, request_id: &str, data: Json) -> (r: Json)
    ensures
        r@ == request_spec(request_type@, request_id@, data@),
{
    let ghost dv = data@;
    let mut dm: Vec<Member> = Vec::new();
    dm.push(member("requestType", jstr(request_type)));
    dm.push(member("requestId", jstr(request_id)));
    dm.push(member("requestData", data));
    let d = jobject(dm);
    assert(jv_members(dm@) =~= seq![
        ("requestType"@, JsonView::Str(request_type@)),
        ("requestId"@, JsonView::Str(request_id@)),
        ("requestData"@, dv),
    ]) by {
        crate::json::lemma_jv_members(dm@);
    }
    let ghost d_view = d@;
    let mut mm: Vec<Member> = Vec::new();
    mm.push(member("op", jnum("6")));
    mm.push(member("d", d));
    assert(jv_members(mm@) =~= seq![("op"@, JsonView::Number("6"@)), ("d"@, d_view)]) by {
        crate::json::lemma_jv_members(mm@);
    }
    jobject(mm)
}

/// `533clip-{millis}`.
pub open spec fn request_id_spec(millis: u64) -> Seq<char> {
    "533clip-"@ + decimal(millis as nat)
}

pub fn request_id(millis: u64) -> (r: String)
    ensures
        r@ == request_id_spec(millis),
{
    let mut r = owned("533clip-");
    let digits = decimal_string(millis);
    let v = chars_of(digits.as_str());
    let ghost before = r@;
    let mut i: usize = 0;
    while i < v.len()
        invariant
            i <= v@.len(),
            r@ == before + v@.take(i as int),
        decreases v.len() - i,
    {
        push_char(&mut r, v[i]);
        assert(v@.take(i + 1) =~= v@.take(i as int).push(v@[i as int]));
        i += 1;
    }
    assert(v@.take(i as int) =~= v@);
    r
}

pub open spec fn or_null(o: Option<JsonView>) -> JsonView {
    match o {
        Some(v) => v,
        None => JsonView::Null,
    }
}

/// What a message means to a request waiting for the response with
/// `request_id`: nothing (`None`), the response data, or OBS's refusal.
pub open spec fn response_spec(v: JsonView, request_id: Seq<char>) -> Option<Result<JsonView, Seq<char>>> {
    if json_op(v) != Some(7nat) {
        None
    } else {
        let d = or_null(jfield(v, "d"@));
        if jfield_str(d, "requestId"@) != Some(request_id) {
            None
        } else {
            let status = or_null(jfield(d, "requestStatus"@));
            if jfield_bool(status, "result"@) == Some(true) {
                Some(
                    Ok(
                        match jfield(d, "responseData"@) {
                            Some(x) => x,
                            None => JsonView::Object(Seq::empty()),
                        },
                    ),
                )
            } else {
                Some(
                    Err(
                        match jfield_str(status, "comment"@) {
                            Some(c) => c,
                            None => "OBS request failed"@,
                        },
                    ),
                )
            }
        }
    }
}

pub fn response_outcome(v: &Json, request_id: &str) -> (r: Option<Result<Json, String>>)
    ensures
        match (r, response_spec(v@, request_id@)) {
            (None, None) => true,
            (Some(Ok(j)), Some(Ok(x))) => j@ == x,
            (Some(Err(e)), Some(Err(m))) => e@ == m,
            _ => false,
        },
{
    match message_op(v) {
        Some(op) => {
            if op != 7 {
                return None;
            }
        },
        None => {
            return None;
        },
    }
    let null = Json::Null;
    let d: &Json = match get_field(v, "d") {
        Some(d) => d,
        None => &null,
    };
    let id_ok = match get_str(d, "requestId") {
        Some(id) => str_eq(id.as_str(), request_id),
        None => false,
    };
    if !id_ok {
        return None;
    }
    let status: &Json = match get_field(d, "requestStatus") {
        Some(st) => st,
        None => &null,
    };
    if get_bool(status, "result") == Some(true) {
        let data = match get_field(d, "responseData") {
            Some(x) => jclone(x),
            None => {
                let ms: Vec<Member> = Vec::new();
                assert(jv_members(ms@) =~= Seq::<(Seq<char>, JsonView)>::empty());
                jobject(ms)
            },
        };
        Some(Ok(data))
    } else {
        match get_str(status, "comment") {
            Some(c) => Some(Err(c.clone())),
            None => Some(Err(owned("OBS request failed"))),
        }
    }
}

/// The Identified message (op 2) that ends the handshake.
pub fn is_identified(v: &Json) -> (r: bool)
    ensures
        r == (json_op(v@) == Some(2nat)),
{
    match message_op(v) {
        Some(op) => op == 2,
        None => false,
    }
}

/// The Hello message (op 0).
pub fn is_hello(v: &Json) -> (r: bool)
    ensures
        r == (json_op(v@) == Some(0nat)),
{
    match message_op(v) {
        Some(op) => op == 0,
        None => false,
    }
}

// ------------------------------------------------------------ session

/// `d.k.as_i64()`.
pub open spec fn d_int(v: JsonView, k: Seq<char>) -> Option<int> {
    match d_field(v, k) {
        Some(JsonView::Number(t)) => json_int(t),
        _ => None,
    }
}

fn json_as_i64(j: Option<&Json>) -> (r: Option<i64>)
    ensures
        match j {
            Some(x) => match x@ {
                JsonView::Number(t) => match r {
                    Some(n) => json_int(t) == Some(n as int),
                    None => json_int(t) is None,
                },
                _ => r is None,
            },
            None => r is None,
        },
{
    match j {
        Some(Json::Number(t)) => {
            let c = chars_of(t.as_str());
            json_int_chars(c.as_slice())
        },
        _ => None,
    }
}

/// An Identified message that accepts the connection.
pub open spec fn identified_success_spec(v: JsonView) -> bool {
    d_int(v, "negotiatedRpcVersion"@) is Some || d_field(v, "serverInfo"@) is Some
}

pub fn is_identified_success(v: &Json) -> (r: bool)
    ensures
        r == identified_success_spec(v@),
{
    json_as_i64(get_d_field(v, "negotiatedRpcVersion")).is_some() || get_d_field(
        v,
        "serverInfo",
    ).is_some()
}

/// The refusal an Identified message carries: "{comment} (code {code})",
/// unless its status code is missing or 100.
pub open spec fn identify_failure_spec(v: JsonView) -> Option<Seq<char>> {
    let status = or_null(d_field(v, "requestStatus"@));
    match jfield(status, "code"@) {
        Some(JsonView::Number(t)) => match json_int(t) {
            Some(code) => if code == 100 {
                None
            } else {
                let comment = match jfield_str(status, "comment"@) {
                    Some(c) => c,
                    None => "OBS rejected the connection"@,
                };
                Some(comment + " (code "@ + signed_decimal(code) + ")"@)
            },
            None => None,
        },
        _ => None,
    }
}

pub fn identify_failure_message(v: &Json) -> (r: Option<String>)
    ensures
        match (r, identify_failure_spec(v@)) {
            (Some(a), Some(b)) => a@ == b,
            (None, None) => true,
            _ => false,
        },
{
    let null = Json::Null;
    let status: &Json = match get_d_field(v, "requestStatus") {
        Some(st) => st,
        None => &null,
    };
    let code = match json_as_i64(get_field(status, "code")) {
        Some(c) => c,
        None => {
            return None;
        },
    };
    if code == 100 {
        return None;
    }
    let mut msg = match get_str(status, "comment") {
        Some(c) => c.clone(),
        None => owned("OBS rejected the connection"),
    };
    append_str(&mut msg, " (code ");
    let digits = signed_decimal_string(code);
    append_str(&mut msg, digits.as_str());
    append_str(&mut msg, ")");
    Some(msg)
}

/// The announcement that OBS saved the replay buffer.
pub struct ReplaySavedPayload {
    pub message: String,
    pub saved_path: Option<String>,
}

/// An event from OBS: a `ReplayBufferSaved` event is announced with the
/// saved path where the event data names one; other events are not.
pub open spec fn replay_saved_spec(event_type: Seq<char>, data: Option<JsonView>) -> Option<
    (Seq<char>, Option<Seq<char>>),
> {
    if event_type != "ReplayBufferSaved"@ {
        None
    } else {
        let path = match data {
            Some(d) => jfield_str(d, "savedReplayPath"@),
            None => None,
        };
        Some(
            (
                match path {
                    Some(p) => "Replay saved — "@ + p,
                    None => "Replay saved"@,
                },
                path,
            ),
        )
    }
}

pub fn replay_saved(event_type: &str, data: Option<&Json>) -> (r: Option<ReplaySavedPayload>)
    ensures
        match (r, replay_saved_spec(event_type@, match data {
            Some(d) => Some(d@),
            None => None,
        })) {
            (Some(p), Some((m, path))) => p.message@ == m && match (p.saved_path, path) {
                (Some(a), Some(b)) => a@ == b,
                (None, None) => true,
                _ => false,
            },
            (None, None) => true,
            _ => false,
        },
{
    if !str_eq(event_type, "ReplayBufferSaved") {
        return None;
    }
    let path: Option<String> = match data {
        Some(d) => match get_str(d, "savedReplayPath") {
            Some(p) => Some(p.clone()),
            None => None,
        },
        None => None,
    };
    let message = match &path {
        Some(p) => {
            let mut m = owned("Replay saved — ");
            append_str(&mut m, p.as_str());
            m
        },
        None => owned("Replay saved"),
    };
    Some(ReplaySavedPayload { message, saved_path: path })
}

/// Where the persistent session is: whether OBS has accepted it.
pub struct SessionState {
    pub identified: bool,
}

/// What arrived on the session's socket.
pub enum SessionEvent {
    /// A text frame, as parsed JSON.
    Message(Json),
    /// A close frame, with its reason text where it has one.
    Close(Option<String>),
    /// A frame that is neither text nor close.
    Binary,
    /// A read error, with the socket's error text.
    ReadError(String),
    /// The stream ended.
    Ended,
}

/// What the session does next.
pub enum SessionAction {
    /// Send this message.
    Send(Json),
    /// The connection is accepted: report connected.
    Connected,
    /// End the session with this error.
    Fail(String),
    /// Announce a saved replay.
    Announce(ReplaySavedPayload),
    /// Keep reading.
    Nothing,
}

/// One step of a WebSocket session: what the session does with one event;
/// `password` is the saved one.
pub fn session_step(state: &mut SessionState, event: SessionEvent, password: Option<&str>) -> (r:
    SessionAction)
    ensures
        match event {
            SessionEvent::ReadError(e) => {
                &&& final(state).identified == old(state).identified
                &&& r matches SessionAction::Fail(m) && m@ == "OBS WebSocket read error: "@ + e@
            },
            SessionEvent::Close(reason) => {
                &&& final(state).identified == old(state).identified
                &&& r matches SessionAction::Fail(m) && m@ == "OBS closed the connection ("@
                    + match reason {
                    Some(t) => t@,
                    None => "closed"@,
                } + "). Check WebSocket password in OBS matches 533clip."@
            },
            SessionEvent::Binary => final(state).identified == old(state).identified && r is Nothing,
            SessionEvent::Ended => {
                &&& final(state).identified == old(state).identified
                &&& r matches SessionAction::Fail(m) && m@ == if old(state).identified {
                    "OBS WebSocket disconnected"@
                } else {
                    "OBS closed before accepting the connection — wrong password or WebSocket disabled."@
                }
            },
            SessionEvent::Message(v) => {
                let op = match json_op(v@) {
                    Some(n) => n,
                    None => 999,
                };
                if op == 0 {
                    &&& final(state).identified == old(state).identified
                    &&& if old(state).identified {
                        r is Nothing
                    } else {
                        match (
                            r,
                            identify_spec(
                                rpc_text(v@),
                                d_field(v@, "authentication"@),
                                match password {
                                    Some(p) => if p@.len() > 0 {
                                        Some(p@)
                                    } else {
                                        None
                                    },
                                    None => None,
                                },
                                "OBS requires a WebSocket password. Paste it from OBS → Tools → WebSocket Server Settings into the sidebar, then Save."@,
                                "OBS auth challenge missing"@,
                                "OBS auth salt missing"@,
                            ),
                        ) {
                            (SessionAction::Send(j), Ok(x)) => j@ == x,
                            (SessionAction::Fail(e), Err(m)) => e@ == m,
                            _ => false,
                        }
                    }
                } else if op == 2 {
                    if identified_success_spec(v@) {
                        final(state).identified && r is Connected
                    } else {
                        &&& final(state).identified == old(state).identified
                        &&& match (r, identify_failure_spec(v@)) {
                            (SessionAction::Fail(e), Some(m)) => e@ == m,
                            (SessionAction::Nothing, None) => true,
                            _ => false,
                        }
                    }
                } else if op == 5 {
                    &&& final(state).identified == old(state).identified
                    &&& match d_field(v@, "eventType"@) {
                        Some(JsonView::Str(t)) => match (
                            r,
                            replay_saved_spec(t, jfield(v@, "d"@)),
                        ) {
                            (SessionAction::Announce(p), Some((m, path))) => p.message@ == m
                                && match (p.saved_path, path) {
                                (Some(a), Some(b)) => a@ == b,
                                (None, None) => true,
                                _ => false,
                            },
                            (SessionAction::Nothing, None) => true,
                            _ => false,
                        },
                        _ => r is Nothing,
                    }
                } else {
                    final(state).identified == old(state).identified && r is Nothing
                }
            },
        },
{
    match event {
        SessionEvent::ReadError(e) => {
            let mut m = owned("OBS WebSocket read error: ");
            append_str(&mut m, e.as_str());
            SessionAction::Fail(m)
        },
        SessionEvent::Close(reason) => {
            let mut m = owned("OBS closed the connection (");
            match &reason {
                Some(t) => append_str(&mut m, t.as_str()),
                None => append_str(&mut m, "closed"),
            }
            append_str(&mut m, "). Check WebSocket password in OBS matches 533clip.");
            SessionAction::Fail(m)
        },
        SessionEvent::Binary => SessionAction::Nothing,
        SessionEvent::Ended => {
            if state.identified {
                SessionAction::Fail(owned("OBS WebSocket disconnected"))
            } else {
                SessionAction::Fail(
                    owned(
                        "OBS closed before accepting the connection — wrong password or WebSocket disabled.",
                    ),
                )
            }
        },
        SessionEvent::Message(v) => {
            let op: u64 = match message_op(&v) {
                Some(n) => n,
                None => 999,
            };
            if op == 0 {
                if state.identified {
                    return SessionAction::Nothing;
                }
                match build_identify(&v, password) {
                    Ok(j) => SessionAction::Send(j),
                    Err(e) => SessionAction::Fail(e),
                }
            } else if op == 2 {
                if is_identified_success(&v) {
                    state.identified = true;
                    SessionAction::Connected
                } else {
                    match identify_failure_message(&v) {
                        Some(m) => SessionAction::Fail(m),
                        None => SessionAction::Nothing,
                    }
                }
            } else if op == 5 {
                match get_d_field(&v, "eventType") {
                    Some(Json::Str(t)) => match replay_saved(t.as_str(), get_field(&v, "d")) {
                        Some(p) => SessionAction::Announce(p),
                        None => SessionAction::Nothing,
                    },
                    _ => SessionAction::Nothing,
                }
            } else {
                SessionAction::Nothing
            }
        },
    }
}

// ------------------------------------------------------------ status

/// The connection status shown to the user.
pub struct ObsConnectionStatus {
    pub connected: bool,
    pub error: Option<String>,
}

/// Whether the session is connected, and the last error seen.
pub struct ConnectionState {
    pub connected: bool,
    pub last_error: Option<String>,
}

impl ConnectionState {
    pub fn new() -> (r: Self)
        ensures
            !r.connected,
            r.last_error is None,
    {
        ConnectionState { connected: false, last_error: None }
    }

    /// `set_connected`: connecting clears the last error; a failure with an
    /// error replaces it. The status announced carries the given error.
    pub fn set_connected(&mut self, connected: bool, error: Option<String>) -> (r: ObsConnectionStatus)
        ensures
            final(self).connected == connected,
            final(self).last_error == if connected {
                None
            } else if error is Some {
                error
            } else {
                old(self).last_error
            },
            r.connected == connected,
            r.error == error,
    {
        self.connected = connected;
        if connected {
            self.last_error = None;
        } else if error.is_some() {
            self.last_error = crate::clip::clone_opt_string(&error);
        }
        ObsConnectionStatus { connected, error }
    }

    /// `status`.
    pub fn status(&self) -> (r: ObsConnectionStatus)
        ensures
            r.connected == self.connected,
            r.error == self.last_error,
    {
        ObsConnectionStatus {
            connected: self.connected,
            error: crate::clip::clone_opt_string(&self.last_error),
        }
    }
}

/// What the connection worker does with the settings it loaded.
pub enum WorkerStep {
    /// Report this status and wait this many seconds (or a restart).
    Idle(ObsConnectionStatus, u64),
    /// Open a session.
    Connect,
}

/// No password: say how to set one and look again in 10 s; disabled: report
/// disconnected and look again in 30 s; otherwise connect.
pub fn worker_step(has_password: bool, enabled: bool) -> (r: WorkerStep)
    ensures
        match r {
            WorkerStep::Idle(st, secs) => {
                &&& !st.connected
                &&& !has_password ==> secs == 10 && st.error is Some && st.error->Some_0@
                    == "No WebSocket password saved. Click “Sync from OBS” or paste the password from OBS → Tools → WebSocket Server Settings."@
                &&& has_password ==> !enabled && secs == 30 && st.error is None
            },
            WorkerStep::Connect => has_password && enabled,
        },
{
    if !has_password {
        WorkerStep::Idle(
            ObsConnectionStatus {
                connected: false,
                error: Some(
                    owned(
                        "No WebSocket password saved. Click “Sync from OBS” or paste the password from OBS → Tools → WebSocket Server Settings.",
                    ),
                ),
            },
            10,
        )
    } else if !enabled {
        WorkerStep::Idle(ObsConnectionStatus { connected: false, error: None }, 30)
    } else {
        WorkerStep::Connect
    }
}

// ------------------------------------------------------------ one-shot requests

/// Where a one-shot request (`request`) stands.
#[derive(Clone, Copy, PartialEq, Eq, Debug, Structural)]
pub enum RequestPhase {
    /// Waiting for OBS's Hello.
    AwaitHello,
    /// Identify sent; waiting for Identified.
    AwaitIdentified,
    /// Request sent; waiting for its response.
    AwaitResponse,
}

/// What happened on the request's socket.
pub enum RequestEvent {
    /// A text message, parsed.
    Text(Json),
    /// A frame that is not text.
    Other,
    /// The socket ended.
    Ended,
    /// Nothing came within the phase's time limit.
    Timeout,
    /// Reading or parsing failed with this error.
    Failed(String),
}

/// What the request does next.
pub enum RequestAction {
    /// Send this Identify.
    Identify(Json),
    /// Send the request itself.
    SendRequest,
    /// Keep reading.
    Wait,
    /// The request is over, with this result.
    Done(Result<Json, String>),
}

/// How long a phase waits for a message: 1.2 s while shaking hands, 3 s for
/// the response.
pub fn phase_timeout_ms(phase: RequestPhase) -> (r: u64)
    ensures
        r == if phase == RequestPhase::AwaitResponse {
            3000u64
        } else {
            1200u64
        },
{
    match phase {
        RequestPhase::AwaitResponse => 3000,
        _ => 1200,
    }
}

/// `request`'s handling of one event in a phase, for a request of
/// `request_type` under `request_id`, with the password resolved for it.
pub fn request_step(
    phase: RequestPhase,
    event: RequestEvent,
    request_type: &str,
    request_id: &str,
    password: Option<&str>,
) -> (r: (RequestPhase, RequestAction))
    ensures
        match event {
            RequestEvent::Other => r.0 == phase && r.1 is Wait,
            RequestEvent::Failed(e) => r.0 == phase && is_done_err(r.1, e@),
            RequestEvent::Timeout => r.0 == phase && is_done_err(
                r.1,
                match phase {
                    RequestPhase::AwaitHello => "OBS WebSocket hello timed out"@,
                    RequestPhase::AwaitIdentified => "OBS identify timed out"@,
                    RequestPhase::AwaitResponse => "OBS request timed out: "@ + request_type@,
                },
            ),
            RequestEvent::Ended => r.0 == phase && is_done_err(
                r.1,
                match phase {
                    RequestPhase::AwaitResponse => "OBS request failed: "@ + request_type@,
                    _ => "OBS identify failed"@,
                },
            ),
            RequestEvent::Text(v) => match phase {
                RequestPhase::AwaitHello => if json_op(v@) == Some(0nat) {
                    match identify_spec(
                        rpc_text(v@),
                        hello_auth_request(v@),
                        match password {
                            Some(p) => Some(p@),
                            None => None,
                        },
                        "OBS WebSocket needs password. Save it in 533clip OBS settings."@,
                        "OBS WebSocket auth challenge missing"@,
                        "OBS WebSocket auth salt missing"@,
                    ) {
                        Ok(x) => r.0 == RequestPhase::AwaitIdentified && (r.1 matches RequestAction::Identify(j)
                            && j@ == x),
                        Err(m) => r.0 == phase && is_done_err(r.1, m),
                    }
                } else {
                    r.0 == phase && r.1 is Wait
                },
                RequestPhase::AwaitIdentified => if json_op(v@) == Some(2nat) {
                    r.0 == RequestPhase::AwaitResponse && r.1 is SendRequest
                } else {
                    r.0 == phase && r.1 is Wait
                },
                RequestPhase::AwaitResponse => r.0 == phase && match response_spec(v@, request_id@) {
                    None => r.1 is Wait,
                    Some(Ok(x)) => r.1 matches RequestAction::Done(Ok(j)) && j@ == x,
                    Some(Err(m)) => is_done_err(r.1, m),
                },
            },
        },
{
    match event {
        RequestEvent::Other => (phase, RequestAction::Wait),
        RequestEvent::Failed(e) => (phase, RequestAction::Done(Err(e))),
        RequestEvent::Timeout => {
            let m = match phase {
                RequestPhase::AwaitHello => owned("OBS WebSocket hello timed out"),
                RequestPhase::AwaitIdentified => owned("OBS identify timed out"),
                RequestPhase::AwaitResponse => {
                    let mut m = owned("OBS request timed out: ");
                    append_str(&mut m, request_type);
                    m
                },
            };
            (phase, RequestAction::Done(Err(m)))
        },
        RequestEvent::Ended => {
            let m = match phase {
                RequestPhase::AwaitResponse => {
                    let mut m = owned("OBS request failed: ");
                    append_str(&mut m, request_type);
                    m
                },
                _ => owned("OBS identify failed"),
            };
            (phase, RequestAction::Done(Err(m)))
        },
        RequestEvent::Text(v) => match phase {
            RequestPhase::AwaitHello => {
                if message_op(&v) == Some(0) {
                    match request_identify(&v, password) {
                        Ok(j) => (RequestPhase::AwaitIdentified, RequestAction::Identify(j)),
                        Err(e) => (phase, RequestAction::Done(Err(e))),
                    }
                } else {
                    (phase, RequestAction::Wait)
                }
            },
            RequestPhase::AwaitIdentified => {
                if message_op(&v) == Some(2) {
                    (RequestPhase::AwaitResponse, RequestAction::SendRequest)
                } else {
                    (phase, RequestAction::Wait)
                }
            },
            RequestPhase::AwaitResponse => match response_outcome(&v, request_id) {
                None => (phase, RequestAction::Wait),
                Some(res) => (phase, RequestAction::Done(res)),
            },
        },
    }
}

/// `a` ends the request with the error `m`.
pub open spec fn is_done_err(a: RequestAction, m: Seq<char>) -> bool {
    match a {
        RequestAction::Done(Err(e)) => e@ == m,
        _ => false,
    }
}

} // verus!
