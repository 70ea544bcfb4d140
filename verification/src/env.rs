//! The environment builder.
//!
//! Each HTTP request is turned into an ordered mapping of environment
//! attributes for the handler: fixed request facts, the listen port, the
//! host and content-type headers when present, the body length, a decoded
//! JSON body when one was advertised, and every further header whose name
//! is made of ASCII letters and hyphens, renamed `HTTP_<NAME>` with hyphens
//! turned to underscores and letters upper-cased.

use vstd::prelude::*;
use crate::response::{headers_view, spec_lower_ascii, FlackResponse};
use crate::trusted::{new_request_id, utf8_to_string};
use vstd::utf8::{decode_utf8, valid_utf8};

verus! {

/// A value handed to the handler runtime: plain text, an integer, or the
/// text of a JSON document the runtime is asked to decode.
#[derive(Debug)]
pub enum EnvValue {
    StrVal(String),
    IntVal(i64),
    JsonText(String),
}

/// The model of an environment value.
pub enum EnvValueModel {
    StrV(Seq<char>),
    IntV(int),
    JsonV(Seq<char>),
}

/// The view of an environment value.
pub open spec fn env_value_view(v: EnvValue) -> EnvValueModel {
    match v {
        EnvValue::StrVal(s) => EnvValueModel::StrV(s@),
        EnvValue::IntVal(n) => EnvValueModel::IntV(n as int),
        EnvValue::JsonText(s) => EnvValueModel::JsonV(s@),
    }
}

/// The view of an attribute list.
pub open spec fn env_view(es: Seq<(String, EnvValue)>) -> Seq<(Seq<char>, EnvValueModel)> {
    es.map_values(|e: (String, EnvValue)| (e.0@, env_value_view(e.1)))
}

/// What the HTTP layer hands over for one request, as plain values.
pub struct RequestInfo {
    pub method: String,
    pub path: String,
    pub query: String,
    pub server_name: String,
    pub protocol: String,
    pub scheme: String,
    pub headers: Vec<(String, String)>,
    pub body: Vec<u8>,
}

/// The first header of the given name, if any.
pub open spec fn spec_lookup(hs: Seq<(Seq<char>, Seq<char>)>, name: Seq<char>) -> Option<Seq<char>>
    decreases hs.len(),
{
    if hs.len() == 0 {
        None
    } else if hs[0].0 == name {
        Some(hs[0].1)
    } else {
        spec_lookup(hs.drop_first(), name)
    }
}

/// Finds the first header of the given name; mirrors `spec_lookup`.
pub fn find_header(hs: &Vec<(String, String)>, name: &str) -> (r: Option<String>)
    ensures
        (match r {
            Some(v) => spec_lookup(headers_view(hs@), name@) == Some(v@),
            None => spec_lookup(headers_view(hs@), name@) is None,
        }),
{
    let ghost all = headers_view(hs@);
    let mut i: usize = 0;
    proof {
        assert(all.skip(0) =~~= all);
    }
    while i < hs.len()
        invariant
            0 <= i <= hs.len(),
            all == headers_view(hs@),
            spec_lookup(all.skip(i as int), name@) == spec_lookup(all, name@),
        decreases hs.len() - i,
    {
        proof {
            assert(all.skip(i as int).len() > 0);
            assert(all.skip(i as int)[0] == (hs@[i as int].0@, hs@[i as int].1@));
            assert(all.skip(i as int).drop_first() =~~= all.skip(i as int + 1));
        }
        if crate::response::text_is(&hs[i].0, name) {
            return Some(hs[i].1.clone());
        }
        i = i + 1;
    }
    proof {
        assert(all.skip(hs.len() as int) =~~= Seq::<(Seq<char>, Seq<char>)>::empty());
    }
    None
}

/// True of characters that may appear in a forwarded header name: ASCII
/// letters and the hyphen.
pub open spec fn spec_env_header_char(c: char) -> bool {
    ('A' <= c && c <= 'Z') || ('a' <= c && c <= 'z') || c == '-'
}

/// A header name all of whose characters are letters or hyphens.
pub open spec fn spec_is_env_name(s: Seq<char>) -> bool {
    forall|i: int| 0 <= i < s.len() ==> spec_env_header_char(#[trigger] s[i])
}

/// How one character of a forwarded header name is spelled in the
/// environment: hyphens become underscores, letters are upper-cased.
pub open spec fn spec_env_char(c: char) -> char {
    if c == '-' {
        '_'
    } else if 'a' <= c && c <= 'z' {
        ((c as u32) - 32) as char
    } else {
        c
    }
}

/// The environment attribute name of a forwarded header.
pub open spec fn spec_env_name(s: Seq<char>) -> Seq<char> {
    "HTTP_"@ + s.map_values(|c: char| spec_env_char(c))
}

/// A header that is forwarded into the environment: any header other than
/// host and content-type whose name is made of letters and hyphens only.
pub open spec fn spec_forwardable(name: Seq<char>) -> bool {
    name != "host"@ && name != "content-type"@ && spec_is_env_name(name)
}

/// The environment entries contributed by the header list, in order:
/// forwardable headers renamed, all others silently skipped.
pub open spec fn spec_header_env(hs: Seq<(Seq<char>, Seq<char>)>) -> Seq<
    (Seq<char>, EnvValueModel),
>
    decreases hs.len(),
{
    if hs.len() == 0 {
        Seq::<(Seq<char>, EnvValueModel)>::empty()
    } else {
        let entry: Seq<(Seq<char>, EnvValueModel)> = if spec_forwardable(hs[0].0) {
            seq![(spec_env_name(hs[0].0), EnvValueModel::StrV(hs[0].1))]
        } else {
            Seq::<(Seq<char>, EnvValueModel)>::empty()
        };
        entry + spec_header_env(hs.drop_first())
    }
}

/// Whether the request advertises a JSON body: a non-empty body under a
/// content-type header equal to `application/json`, ASCII case ignored.
pub open spec fn spec_json_expected(req: RequestInfo) -> bool {
    &&& req.body@.len() > 0
    &&& (match spec_lookup(headers_view(req.headers@), "content-type"@) {
        Some(ct) => spec_lower_ascii(ct) == "application/json"@,
        None => false,
    })
}

/// The attributes that precede the forwarded headers: the fixed request
/// facts, the listen port, the conditional host / content-type /
/// content-length attributes.
pub open spec fn spec_env_prefix(
    req: RequestInfo,
    system: Seq<char>,
    request_id: Seq<char>,
    port: u16,
) -> Seq<(Seq<char>, EnvValueModel)> {
    seq![
        ("RACK"@, EnvValueModel::StrV("flack"@)),
        ("REQUEST_METHOD"@, EnvValueModel::StrV(req.method@)),
        ("PATH_INFO"@, EnvValueModel::StrV(req.path@)),
        ("QUERY_STRING"@, EnvValueModel::StrV(req.query@)),
        ("SERVER_NAME"@, EnvValueModel::StrV(req.server_name@)),
        ("SERVER_PROTOCOL"@, EnvValueModel::StrV(req.protocol@)),
        ("rack.url_scheme"@, EnvValueModel::StrV(req.scheme@)),
        ("flack.system"@, EnvValueModel::StrV(system)),
        ("flack.request_id"@, EnvValueModel::StrV(request_id)),
        ("SERVER_PORT"@, EnvValueModel::IntV(port as int)),
    ] + (match spec_lookup(headers_view(req.headers@), "host"@) {
        Some(v) => seq![("HTTP_HOST"@, EnvValueModel::StrV(v))],
        None => Seq::<(Seq<char>, EnvValueModel)>::empty(),
    }) + (match spec_lookup(headers_view(req.headers@), "content-type"@) {
        Some(v) => seq![("CONTENT_TYPE"@, EnvValueModel::StrV(v))],
        None => Seq::<(Seq<char>, EnvValueModel)>::empty(),
    }) + (if req.body@.len() > 0 {
        seq![("CONTENT_LENGTH"@, EnvValueModel::IntV(req.body@.len() as int))]
    } else {
        Seq::<(Seq<char>, EnvValueModel)>::empty()
    })
}

/// The whole environment for a request, or `None` when the request must be
/// rejected: a body advertised as JSON that is not valid UTF-8.
pub open spec fn spec_build_env(
    req: RequestInfo,
    system: Seq<char>,
    request_id: Seq<char>,
    port: u16,
) -> Option<Seq<(Seq<char>, EnvValueModel)>> {
    if spec_json_expected(req) && !valid_utf8(req.body@) {
        None
    } else {
        Some(
            spec_env_prefix(req, system, request_id, port) + (if spec_json_expected(req) {
                seq![("flack.body"@, EnvValueModel::JsonV(decode_utf8(req.body@)))]
            } else {
                Seq::<(Seq<char>, EnvValueModel)>::empty()
            }) + spec_header_env(headers_view(req.headers@)),
        )
    }
}

/// Decides whether a header name consists solely of ASCII letters and
/// hyphens; only such headers are forwarded to the environment.
pub fn is_env_header_name(s: &str) -> (r: bool)
    ensures
        r == spec_is_env_name(s@),
{
    let len = s.unicode_len();
    let mut i: usize = 0;
    while i < len
        invariant
            0 <= i <= len,
            len == s@.len(),
            forall|j: int| 0 <= j < i ==> spec_env_header_char(#[trigger] s@[j]),
        decreases len - i,
    {
        let c = s.get_char(i);
        if !(('A' <= c && c <= 'Z') || ('a' <= c && c <= 'z') || c == '-') {
            assert(!spec_env_header_char(s@[i as int]));
            return false;
        }
        i = i + 1;
    }
    true
}

/// Spells the environment name of a forwarded header: `HTTP_` plus the
/// name with hyphens as underscores and letters upper-cased.
pub fn env_header_name(s: &str) -> (r: String)
    requires
        spec_is_env_name(s@),
    ensures
        r@ == spec_env_name(s@),
{
    let len = s.unicode_len();
    let mut out = String::from_str("HTTP_");
    let mut i: usize = 0;
    proof {
        assert(s@.take(0).map_values(|c: char| spec_env_char(c)) =~= Seq::<char>::empty());
        assert(out@ =~= "HTTP_"@ + s@.take(0).map_values(|c: char| spec_env_char(c)));
    }
    while i < len
        invariant
            0 <= i <= len,
            len == s@.len(),
            spec_is_env_name(s@),
            out@ == "HTTP_"@ + s@.take(i as int).map_values(|c: char| spec_env_char(c)),
        decreases len - i,
    {
        let c = s.get_char(i);
        let tc: char = if c == '-' {
            '_'
        } else if 'a' <= c && c <= 'z' {
            (((c as u8) - 32u8) as char)
        } else {
            c
        };
        assert(tc == spec_env_char(s@[i as int])) by {
            vstd::utf8::char_is_scalar(c);
        }
        out.push(tc);
        proof {
            assert(out@ =~= "HTTP_"@ + s@.take(i as int + 1).map_values(
                |c: char| spec_env_char(c),
            ));
        }
        i = i + 1;
    }
    proof {
        assert(s@.take(len as int) =~= s@);
    }
    out
}

/// Builds the environment for a request. Returns the ordered attribute
/// list exactly as `spec_build_env` describes it, or a bad-request
/// response when a body advertised as JSON is not valid UTF-8.
pub fn build_environment(
    req: &RequestInfo,
    system: &str,
    request_id: &str,
    port: u16,
) -> (r: Result<Vec<(String, EnvValue)>, FlackResponse>)
    requires
        req.body@.len() <= i64::MAX,
    ensures
        (match r {
            Ok(es) => spec_build_env(*req, system@, request_id@, port) == Some(env_view(es@)),
            Err(resp) => {
                &&& spec_build_env(*req, system@, request_id@, port) is None
                &&& resp.code == 400
                &&& resp.error matches Some(e) && e.error@ == "Bad request"@
            },
        }),
{
    let ghost hs = headers_view(req.headers@);
    let mut pairs: Vec<(String, EnvValue)> = Vec::new();
    pairs.push((String::from_str("RACK"), EnvValue::StrVal(String::from_str("flack"))));
    pairs.push((String::from_str("REQUEST_METHOD"), EnvValue::StrVal(req.method.clone())));
    pairs.push((String::from_str("PATH_INFO"), EnvValue::StrVal(req.path.clone())));
    pairs.push((String::from_str("QUERY_STRING"), EnvValue::StrVal(req.query.clone())));
    pairs.push((String::from_str("SERVER_NAME"), EnvValue::StrVal(req.server_name.clone())));
    pairs.push((String::from_str("SERVER_PROTOCOL"), EnvValue::StrVal(req.protocol.clone())));
    pairs.push((String::from_str("rack.url_scheme"), EnvValue::StrVal(req.scheme.clone())));
    pairs.push((String::from_str("flack.system"), EnvValue::StrVal(String::from_str(system))));
    pairs.push((
        String::from_str("flack.request_id"),
        EnvValue::StrVal(String::from_str(request_id)),
    ));
    pairs.push((String::from_str("SERVER_PORT"), EnvValue::IntVal(port as i64)));
    let host = find_header(&req.headers, "host");
    match host {
        Some(v) => {
            pairs.push((String::from_str("HTTP_HOST"), EnvValue::StrVal(v)));
        },
        None => {},
    }
    let ctype = find_header(&req.headers, "content-type");
    let json_ct: bool = match &ctype {
        Some(v) => {
            let lowered = crate::response::lower_ascii(v.as_str());
            crate::response::text_is(&lowered, "application/json")
        },
        None => false,
    };
    match ctype {
        Some(v) => {
            pairs.push((String::from_str("CONTENT_TYPE"), EnvValue::StrVal(v)));
        },
        None => {},
    }
    if req.body.len() > 0 {
        pairs.push((String::from_str("CONTENT_LENGTH"), EnvValue::IntVal(req.body.len() as i64)));
        if json_ct {
            match utf8_to_string(req.body.as_slice()) {
                Some(text) => {
                    pairs.push((String::from_str("flack.body"), EnvValue::JsonText(text)));
                },
                None => {
                    let mut resp = FlackResponse::new();
                    resp.bad_request(String::from_str("request body was not valid UTF-8"));
                    return Err(resp);
                },
            }
        }
    }
    let ghost before_headers = spec_env_prefix(*req, system@, request_id@, port) + (
    if spec_json_expected(*req) {
        seq![("flack.body"@, EnvValueModel::JsonV(decode_utf8(req.body@)))]
    } else {
        Seq::<(Seq<char>, EnvValueModel)>::empty()
    });
    proof {
        assert(env_view(pairs@) =~~= before_headers);
    }
    let mut i: usize = 0;
    proof {
        assert(hs.skip(0) =~~= hs);
    }
    while i < req.headers.len()
        invariant
            0 <= i <= req.headers.len(),
            hs == headers_view(req.headers@),
            env_view(pairs@) + spec_header_env(hs.skip(i as int)) =~~= before_headers
                + spec_header_env(hs),
        decreases req.headers.len() - i,
    {
        proof {
            assert(hs.skip(i as int).len() > 0);
            assert(hs.skip(i as int)[0] == (req.headers@[i as int].0@, req.headers@[i as int].1@));
            assert(hs.skip(i as int).drop_first() =~~= hs.skip(i as int + 1));
        }
        let key = &req.headers[i].0;
        let skip = crate::response::text_is(key, "host") || crate::response::text_is(
            key,
            "content-type",
        );
        if !skip && is_env_header_name(key.as_str()) {
            let name = env_header_name(key.as_str());
            pairs.push((name, EnvValue::StrVal(req.headers[i].1.clone())));
        }
        proof {
            assert(env_view(pairs@) + spec_header_env(hs.skip(i as int + 1)) =~~= before_headers
                + spec_header_env(hs));
        }
        i = i + 1;
    }
    proof {
        assert(hs.skip(req.headers.len() as int) =~~= Seq::<(Seq<char>, Seq<char>)>::empty());
        assert(env_view(pairs@) =~~= before_headers + spec_header_env(hs));
    }
    Ok(pairs)
}

/// Builds the environment for a request under a freshly generated
/// time-ordered request identifier, which is returned beside it.
pub fn prepare_environment(req: &RequestInfo, system: &str, port: u16) -> (r: Result<
    (String, Vec<(String, EnvValue)>),
    FlackResponse,
>)
    requires
        req.body@.len() <= i64::MAX,
    ensures
        (match r {
            Ok(pair) => {
                &&& pair.0@.len() == 36
                &&& spec_build_env(*req, system@, pair.0@, port) == Some(env_view(pair.1@))
            },
            Err(resp) => {
                &&& (forall|id: Seq<char>| spec_build_env(*req, system@, id, port) is None)
                &&& resp.code == 400
                &&& resp.error matches Some(e) && e.error@ == "Bad request"@
            },
        }),
{
    let request_id = new_request_id();
    match build_environment(req, system, request_id.as_str(), port) {
        Ok(pairs) => Ok((request_id, pairs)),
        Err(resp) => {
            proof {
                assert(forall|id: Seq<char>|
                    spec_build_env(*req, system@, id, port) is None) by {
                    assert(spec_json_expected(*req) && !valid_utf8(req.body@));
                }
            }
            Err(resp)
        },
    }
}

/// True when the entry is the forwarded form of some header in the list.
pub open spec fn spec_arises_from(
    hs: Seq<(Seq<char>, Seq<char>)>,
    entry: (Seq<char>, EnvValueModel),
) -> bool {
    exists|i: int|
        0 <= i < hs.len() && spec_forwardable(#[trigger] hs[i].0) && entry == (
        spec_env_name(hs[i].0),
        EnvValueModel::StrV(hs[i].1),
        )
}

/// THE FORWARDING LAW for headers: every header whose name is letters and
/// hyphens only (host and content-type aside) appears in the forwarded
/// entries under its `HTTP_` name, and every forwarded entry arises from
/// such a header; a header with any other character in its name leaves no
/// trace.
pub proof fn lemma_header_forwarding(hs: Seq<(Seq<char>, Seq<char>)>)
    ensures
        forall|i: int|
            0 <= i < hs.len() && spec_forwardable(#[trigger] hs[i].0) ==> spec_header_env(
                hs,
            ).contains((spec_env_name(hs[i].0), EnvValueModel::StrV(hs[i].1))),
        forall|j: int|
            0 <= j < spec_header_env(hs).len() ==> spec_arises_from(
                hs,
                #[trigger] spec_header_env(hs)[j],
            ),
    decreases hs.len(),
{
    if hs.len() == 0 {
    } else {
        let rest = hs.drop_first();
        lemma_header_forwarding(rest);
        let entry: Seq<(Seq<char>, EnvValueModel)> = if spec_forwardable(hs[0].0) {
            seq![(spec_env_name(hs[0].0), EnvValueModel::StrV(hs[0].1))]
        } else {
            Seq::<(Seq<char>, EnvValueModel)>::empty()
        };
        assert(spec_header_env(hs) == entry + spec_header_env(rest));
        assert forall|i: int|
            0 <= i < hs.len() && spec_forwardable(#[trigger] hs[i].0) implies spec_header_env(
            hs,
        ).contains((spec_env_name(hs[i].0), EnvValueModel::StrV(hs[i].1))) by {
            if i == 0 {
                assert(spec_header_env(hs)[0] == (spec_env_name(hs[0].0), EnvValueModel::StrV(
                    hs[0].1,
                )));
            } else {
                assert(rest[i - 1] == hs[i]);
                assert(spec_header_env(rest).contains(
                    (spec_env_name(hs[i].0), EnvValueModel::StrV(hs[i].1)),
                ));
                let k = choose|k: int|
                    0 <= k < spec_header_env(rest).len() && spec_header_env(rest)[k] == (
                    spec_env_name(hs[i].0),
                    EnvValueModel::StrV(hs[i].1),
                    );
                assert(spec_header_env(hs)[entry.len() + k] == spec_header_env(rest)[k]);
            }
        }
        assert forall|j: int| 0 <= j < spec_header_env(hs).len() implies spec_arises_from(
            hs,
            #[trigger] spec_header_env(hs)[j],
        ) by {
            if j < entry.len() {
                assert(spec_forwardable(hs[0].0));
                assert(spec_header_env(hs)[j] == (spec_env_name(hs[0].0), EnvValueModel::StrV(
                    hs[0].1,
                )));
            } else {
                let jr = j - entry.len();
                assert(spec_header_env(hs)[j] == spec_header_env(rest)[jr]);
                assert(spec_arises_from(rest, spec_header_env(rest)[jr]));
                let i = choose|i: int|
                    0 <= i < rest.len() && spec_forwardable(#[trigger] rest[i].0)
                        && spec_header_env(rest)[jr] == (spec_env_name(rest[i].0),
                    EnvValueModel::StrV(rest[i].1),
                    );
                assert(hs[i + 1] == rest[i]);
                assert(spec_forwardable(hs[i + 1].0));
            }
        }
    }
}

/// THE PORT LAW: whatever the request holds, the environment carries the
/// configured listen port as the integer attribute `SERVER_PORT`, in the
/// fixed tenth position.
pub proof fn lemma_server_port(
    req: RequestInfo,
    system: Seq<char>,
    request_id: Seq<char>,
    port: u16,
    env: Seq<(Seq<char>, EnvValueModel)>,
)
    requires
        spec_build_env(req, system, request_id, port) == Some(env),
    ensures
        env.len() > 9,
        env[9] == ("SERVER_PORT"@, EnvValueModel::IntV(port as int)),
{
    assert(env[9] == spec_env_prefix(req, system, request_id, port)[9]);
}

} // verus!
