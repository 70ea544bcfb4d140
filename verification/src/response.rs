//! The adapter's internal response record.
//!
//! A `FlackResponse` is built up incrementally while a request is handled:
//! a status code, the accumulated header list, and exactly one payload —
//! inline text, a file path, or a structured error.

use vstd::prelude::*;

verus! {

/// A structured error: a short client-facing message and a fuller
/// diagnostic retained only for logs.
#[derive(Clone, Debug)]
pub struct FlackError {
    pub error: String,
    pub long: String,
}

/// The three payloads a response can carry.
pub enum ResponsePayload {
    ErrorBody(FlackError),
    TextBody(String),
    FileBody(String),
}

/// The adapter's internal response record.
#[derive(Clone, Debug)]
pub struct FlackResponse {
    pub code: u16,
    pub headers: Vec<(String, String)>,
    pub body: Option<String>,
    pub body_path: Option<String>,
    pub error: Option<FlackError>,
}

/// True of characters allowed in an HTTP header name: the token characters
/// of the HTTP grammar (digits, letters, and a fixed set of punctuation).
pub open spec fn spec_header_name_char(c: char) -> bool {
    ||| ('a' <= c && c <= 'z')
    ||| ('A' <= c && c <= 'Z')
    ||| ('0' <= c && c <= '9')
    ||| c == '!' || c == '#' || c == '$' || c == '%' || c == '&' || c == '\''
    ||| c == '*' || c == '+' || c == '-' || c == '.' || c == '^' || c == '_'
    ||| c == '`' || c == '|' || c == '~'
}

/// A valid header name is non-empty and made of token characters only.
pub open spec fn spec_valid_header_name(s: Seq<char>) -> bool {
    s.len() > 0 && (forall|i: int| 0 <= i < s.len() ==> spec_header_name_char(#[trigger] s[i]))
}

/// True of characters allowed in an HTTP header value: horizontal tab and
/// anything that is not an ASCII control character (DEL included).
pub open spec fn spec_header_value_char(c: char) -> bool {
    c == '\t' || (32 <= c as u32 && c as u32 != 127)
}

/// A valid header value contains no control characters other than tab.
pub open spec fn spec_valid_header_value(s: Seq<char>) -> bool {
    forall|i: int| 0 <= i < s.len() ==> spec_header_value_char(#[trigger] s[i])
}

/// ASCII lower-casing of a single character.
pub open spec fn spec_lower_char(c: char) -> char {
    if 'A' <= c && c <= 'Z' {
        ((c as u32) + 32) as char
    } else {
        c
    }
}

/// ASCII lower-casing of a whole name, as the HTTP layer normalizes header
/// names.
pub open spec fn spec_lower_ascii(s: Seq<char>) -> Seq<char> {
    s.map_values(|c: char| spec_lower_char(c))
}

/// The header entry that `add_header` appends for a given name and value:
/// the lower-cased name paired with the value, or nothing when either part
/// is invalid.
pub open spec fn spec_added_header(name: Seq<char>, value: Seq<char>) -> Seq<(Seq<char>, Seq<char>)> {
    if spec_valid_header_name(name) && spec_valid_header_value(value) {
        seq![(spec_lower_ascii(name), value)]
    } else {
        Seq::empty()
    }
}

/// The view of an accumulated header list: each entry as a pair of
/// character sequences.
pub open spec fn headers_view(hs: Seq<(String, String)>) -> Seq<(Seq<char>, Seq<char>)> {
    hs.map_values(|h: (String, String)| (h.0@, h.1@))
}

/// Decides validity of a header name; mirrors `spec_valid_header_name`.
pub fn is_valid_header_name(s: &str) -> (r: bool)
    ensures
        r == spec_valid_header_name(s@),
{
    let len = s.unicode_len();
    if len == 0 {
        return false;
    }
    let mut i: usize = 0;
    while i < len
        invariant
            0 <= i <= len,
            len == s@.len(),
            forall|j: int| 0 <= j < i ==> spec_header_name_char(#[trigger] s@[j]),
        decreases len - i,
    {
        let c = s.get_char(i);
        let ok = ('a' <= c && c <= 'z') || ('A' <= c && c <= 'Z') || ('0' <= c && c <= '9')
            || c == '!' || c == '#' || c == '$' || c == '%' || c == '&' || c == '\'' || c == '*'
            || c == '+' || c == '-' || c == '.' || c == '^' || c == '_' || c == '`' || c == '|'
            || c == '~';
        if !ok {
            assert(!spec_header_name_char(s@[i as int]));
            return false;
        }
        i = i + 1;
    }
    true
}

/// Decides validity of a header value; mirrors `spec_valid_header_value`.
pub fn is_valid_header_value(s: &str) -> (r: bool)
    ensures
        r == spec_valid_header_value(s@),
{
    let len = s.unicode_len();
    let mut i: usize = 0;
    while i < len
        invariant
            0 <= i <= len,
            len == s@.len(),
            forall|j: int| 0 <= j < i ==> spec_header_value_char(#[trigger] s@[j]),
        decreases len - i,
    {
        let c = s.get_char(i);
        if !(c == '\t' || (32 <= c as u32 && c as u32 != 127)) {
            assert(!spec_header_value_char(s@[i as int]));
            return false;
        }
        i = i + 1;
    }
    true
}

/// True when the text equals the given pattern.
pub(crate) fn text_is(s: &String, pat: &str) -> (r: bool)
    ensures
        r == (s@ == pat@),
{
    let p = String::from_str(pat);
    s.eq(&p)
}

/// Lower-cases the ASCII letters of a string, leaving other characters
/// unchanged.
pub fn lower_ascii(s: &str) -> (r: String)
    ensures
        r@ == spec_lower_ascii(s@),
{
    let len = s.unicode_len();
    let mut out = String::new();
    let mut i: usize = 0;
    while i < len
        invariant
            0 <= i <= len,
            len == s@.len(),
            out@ == spec_lower_ascii(s@).take(i as int),
        decreases len - i,
    {
        let c = s.get_char(i);
        let lc: char = if 'A' <= c && c <= 'Z' {
            (((c as u8) + 32u8) as char)
        } else {
            c
        };
        assert(lc == spec_lower_char(s@[i as int])) by {
            vstd::utf8::char_is_scalar(c);
        }
        out.push(lc);
        assert(out@ =~= spec_lower_ascii(s@).take(i as int + 1));
        i = i + 1;
    }
    assert(out@ =~= spec_lower_ascii(s@));
    out
}

impl FlackResponse {
    /// A blank response: no status, no headers, no payload.
    pub fn new() -> (r: FlackResponse)
        ensures
            r.code == 0,
            r.headers@.len() == 0,
            r.body is None,
            r.body_path is None,
            r.error is None,
    {
        FlackResponse {
            code: 0,
            headers: Vec::new(),
            body: None,
            body_path: None,
            error: None,
        }
    }

    /// Appends a header when both the name and the value are valid HTTP
    /// header text; an invalid pair is silently dropped (best-effort header
    /// copy). The kept name is lower-cased, as the HTTP layer stores names.
    pub fn add_header(&mut self, key: String, value: String)
        ensures
            headers_view(final(self).headers@) == headers_view(old(self).headers@)
                + spec_added_header(key@, value@),
            final(self).code == old(self).code,
            final(self).body == old(self).body,
            final(self).body_path == old(self).body_path,
            final(self).error == old(self).error,
    {
        let ghost prior = headers_view(self.headers@);
        if is_valid_header_name(key.as_str()) && is_valid_header_value(value.as_str()) {
            let ghost kv = key@;
            let ghost vv = value@;
            let lowered = lower_ascii(key.as_str());
            self.headers.push((lowered, value));
            assert(headers_view(self.headers@) =~= prior + spec_added_header(kv, vv));
        } else {
            assert(headers_view(self.headers@) =~= prior + spec_added_header(key@, value@));
        }
    }

    /// Appends already-validated header entries, in order, after the
    /// accumulated ones.
    pub fn append_headers(&mut self, more: Vec<(String, String)>)
        ensures
            final(self).headers@ == old(self).headers@ + more@,
            final(self).code == old(self).code,
            final(self).body == old(self).body,
            final(self).body_path == old(self).body_path,
            final(self).error == old(self).error,
    {
        let ghost prior = self.headers@;
        let mut i: usize = 0;
        proof {
            assert(self.headers@ =~= prior + more@.take(0));
        }
        while i < more.len()
            invariant
                0 <= i <= more@.len(),
                self.headers@ == prior + more@.take(i as int),
                self.code == old(self).code,
                self.body == old(self).body,
                self.body_path == old(self).body_path,
                self.error == old(self).error,
            decreases more@.len() - i,
        {
            let pair = (more[i].0.clone(), more[i].1.clone());
            proof {
                assert(pair == more@[i as int]);
            }
            self.headers.push(pair);
            proof {
                assert(self.headers@ =~= prior + more@.take(i as int + 1));
            }
            i = i + 1;
        }
        proof {
            assert(more@.take(more@.len() as int) =~= more@);
        }
    }

    /// Installs a payload under the given status code; headers and the
    /// other payload slots are left as they are.
    pub fn set(&mut self, code: u16, payload: ResponsePayload)
        ensures
            final(self).code == code,
            final(self).headers == old(self).headers,
            (match payload {
                ResponsePayload::ErrorBody(e) => final(self).error == Some(e)
                    && final(self).body == old(self).body
                    && final(self).body_path == old(self).body_path,
                ResponsePayload::TextBody(b) => final(self).body == Some(b)
                    && final(self).error == old(self).error
                    && final(self).body_path == old(self).body_path,
                ResponsePayload::FileBody(p) => final(self).body_path == Some(p)
                    && final(self).error == old(self).error
                    && final(self).body == old(self).body,
            }),
    {
        self.code = code;
        match payload {
            ResponsePayload::ErrorBody(e) => {
                self.error = Some(e);
            },
            ResponsePayload::TextBody(b) => {
                self.body = Some(b);
            },
            ResponsePayload::FileBody(p) => {
                self.body_path = Some(p);
            },
        }
    }

    /// A handler-contract violation or internal failure: status 500 with
    /// the fixed short message, keeping the fuller diagnostic for logs.
    pub fn server_error(&mut self, long: String)
        ensures
            final(self).code == 500,
            final(self).headers == old(self).headers,
            final(self).body == old(self).body,
            final(self).body_path == old(self).body_path,
            (final(self).error matches Some(e) && e.error@ == "Internal server error"@
                && e.long == long),
    {
        let short = String::from_str("Internal server error");
        self.set(500, ResponsePayload::ErrorBody(FlackError { error: short, long }));
    }

    /// A malformed request: status 400 with the fixed short message.
    pub fn bad_request(&mut self, long: String)
        ensures
            final(self).code == 400,
            final(self).headers == old(self).headers,
            final(self).body == old(self).body,
            final(self).body_path == old(self).body_path,
            (final(self).error matches Some(e) && e.error@ == "Bad request"@ && e.long == long),
    {
        let short = String::from_str("Bad request");
        self.set(400, ResponsePayload::ErrorBody(FlackError { error: short, long }));
    }

    /// A missing or unreadable artifact file: status 404 with the fixed
    /// short message.
    pub fn not_found(&mut self, long: String)
        ensures
            final(self).code == 404,
            final(self).headers == old(self).headers,
            final(self).body == old(self).body,
            final(self).body_path == old(self).body_path,
            (final(self).error matches Some(e) && e.error@ == "Not found"@ && e.long == long),
    {
        let short = String::from_str("Not found");
        self.set(404, ResponsePayload::ErrorBody(FlackError { error: short, long }));
    }

    /// An inline text body under the given status.
    pub fn ok_string(&mut self, code: u16, body: String)
        ensures
            final(self).code == code,
            final(self).headers == old(self).headers,
            final(self).body == Some(body),
            final(self).body_path == old(self).body_path,
            final(self).error == old(self).error,
    {
        self.set(code, ResponsePayload::TextBody(body));
    }

    /// A file body under the given status.
    pub fn ok_path(&mut self, code: u16, path: String)
        ensures
            final(self).code == code,
            final(self).headers == old(self).headers,
            final(self).body == old(self).body,
            final(self).body_path == Some(path),
            final(self).error == old(self).error,
    {
        self.set(code, ResponsePayload::FileBody(path));
    }
}

} // verus!
