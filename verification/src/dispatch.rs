//! The dispatcher.
//!
//! Decides how a built `FlackResponse` renders as an actual HTTP answer:
//! an inline body, a streamed file, or a JSON error object — and how the
//! serving of a body string proceeds: as literal text, or as a file after
//! realizing the artifact the path-safety validator named.

use vstd::prelude::*;
use crate::paths::{get_safe_path, spec_validate, PathVerdict, SpecVerdict};
use crate::response::{spec_added_header, FlackResponse};

verus! {

/// How a body string is served: as literal text (the silent fallback), as
/// a file under the store after realization, or not at all because the
/// store root is unusable (fail closed).
pub enum BodyServePlan {
    ServeLiteral,
    ServeArtifact { base_path: String, full_path: String },
    Invalid,
}

/// Plans the serving of a body string. A candidate that does not lie
/// under the store root falls back to literal text — deliberately not an
/// error; a validated candidate names the artifact to realize and the
/// file to serve; a store root that is not absolute fails closed.
pub fn plan_body_serve(store_dir: &str, text: &str) -> (r: BodyServePlan)
    ensures
        (match r {
            BodyServePlan::ServeLiteral => spec_validate(store_dir@, text@) is NotAPath
                || spec_validate(store_dir@, text@) is NotStorePath,
            BodyServePlan::ServeArtifact { base_path, full_path } => spec_validate(
                store_dir@,
                text@,
            ) == (SpecVerdict::Candidate { base: base_path@, full: full_path@ }),
            BodyServePlan::Invalid => spec_validate(store_dir@, text@) is RootNotAbsolute,
        }),
{
    match get_safe_path(store_dir, text) {
        PathVerdict::RootNotAbsolute => BodyServePlan::Invalid,
        PathVerdict::NotAPath => BodyServePlan::ServeLiteral,
        PathVerdict::NotStorePath => BodyServePlan::ServeLiteral,
        PathVerdict::Candidate { base_path, full_path } => BodyServePlan::ServeArtifact {
            base_path,
            full_path,
        },
    }
}

/// Finishes a JSON-classified body: unless the handler itself supplied a
/// content-type header, one is forced to `application/json`; the
/// serialized text becomes the inline body under the given status.
pub fn finish_json(resp: &mut FlackResponse, status: u16, content_type_set: bool, json: String)
    ensures
        final(resp).code == status,
        final(resp).body == Some(json),
        final(resp).body_path == old(resp).body_path,
        final(resp).error == old(resp).error,
        content_type_set ==> final(resp).headers == old(resp).headers,
        !content_type_set ==> crate::response::headers_view(final(resp).headers@)
            == crate::response::headers_view(old(resp).headers@) + spec_added_header(
            "content-type"@,
            "application/json"@,
        ),
{
    if !content_type_set {
        resp.add_header(
            String::from_str("content-type"),
            String::from_str("application/json"),
        );
    }
    resp.ok_string(status, json);
}

/// Forcing the JSON content type appends exactly one header pair: the
/// name is already lower-case and both parts are valid header text.
pub proof fn lemma_json_content_type_header()
    ensures
        spec_added_header("content-type"@, "application/json"@) == seq![
            ("content-type"@, "application/json"@),
        ],
{
    reveal_strlit("content-type");
    reveal_strlit("application/json");
    assert(crate::response::spec_valid_header_name("content-type"@));
    assert(crate::response::spec_valid_header_value("application/json"@));
    assert(crate::response::spec_lower_ascii("content-type"@) =~= "content-type"@);
    assert(spec_added_header("content-type"@, "application/json"@) =~~= seq![
        ("content-type"@, "application/json"@),
    ]);
}

/// Which of the three render shapes a finished response takes: an inline
/// body, a file to try to open, or an error object alone.
pub enum RenderStage {
    Inline { status: u16, body: String },
    TryFile { path: String },
    ErrorOnly,
}

/// Reads off how a finished response renders. An inline body wins over a
/// file path, as the response record is only ever given one of the two.
pub fn render_stage(resp: &FlackResponse) -> (r: RenderStage)
    ensures
        (match resp.body {
            Some(b) => r matches RenderStage::Inline { status, body } && status == resp.code
                && body@ == b@,
            None => (match resp.body_path {
                Some(p) => r matches RenderStage::TryFile { path } && path@ == p@,
                None => r is ErrorOnly,
            }),
        }),
{
    match &resp.body {
        Some(b) => RenderStage::Inline { status: resp.code, body: b.clone() },
        None => {
            match &resp.body_path {
                Some(p) => RenderStage::TryFile { path: p.clone() },
                None => RenderStage::ErrorOnly,
            }
        },
    }
}

/// Why a validated, realized file could still not be served.
pub enum FileOutcome {
    NotRegular,
    OpenFailed,
}

/// Records that the realized path could not be served as a regular file:
/// the response is overridden to 404 whatever status the handler had
/// asked for.
pub fn file_serving_failed(resp: &mut FlackResponse, outcome: FileOutcome)
    ensures
        final(resp).code == 404,
        final(resp).headers == old(resp).headers,
        final(resp).body == old(resp).body,
        final(resp).body_path == old(resp).body_path,
        (final(resp).error matches Some(e) && e.error@ == "Not found"@ && e.long@ == (
        match outcome {
            FileOutcome::NotRegular => "store path was not a file"@,
            FileOutcome::OpenFailed => "cannot open file"@,
        })),
{
    match outcome {
        FileOutcome::NotRegular => {
            resp.not_found(String::from_str("store path was not a file"));
        },
        FileOutcome::OpenFailed => {
            resp.not_found(String::from_str("cannot open file"));
        },
    }
}

/// How one character is spelled inside a JSON string literal.
pub open spec fn spec_escape_char(c: char) -> Seq<char> {
    if c == '"' {
        seq!['\\', '"']
    } else if c == '\\' {
        seq!['\\', '\\']
    } else if c == '\u{08}' {
        seq!['\\', 'b']
    } else if c == '\t' {
        seq!['\\', 't']
    } else if c == '\n' {
        seq!['\\', 'n']
    } else if c == '\u{0C}' {
        seq!['\\', 'f']
    } else if c == '\r' {
        seq!['\\', 'r']
    } else if (c as u32) < 32 {
        seq!['\\', 'u', '0', '0', spec_hex_digit((c as u32) / 16), spec_hex_digit((c as u32) % 16)]
    } else {
        seq![c]
    }
}

/// The lower-case hexadecimal digit for a value below sixteen.
pub open spec fn spec_hex_digit(d: u32) -> char {
    if d < 10 {
        (('0' as u32) + d) as char
    } else {
        (('a' as u32) + (d - 10)) as char
    }
}

/// A whole string spelled inside a JSON string literal.
pub open spec fn spec_escape(s: Seq<char>) -> Seq<char>
    decreases s.len(),
{
    if s.len() == 0 {
        Seq::<char>::empty()
    } else {
        spec_escape_char(s[0]) + spec_escape(s.drop_first())
    }
}

/// The JSON error object shown to the client for a short message.
pub open spec fn spec_error_json(msg: Seq<char>) -> Seq<char> {
    "{\"error\":\""@ + spec_escape(msg) + "\"}"@
}

/// Escaping a longer string escapes the new character after the rest.
proof fn lemma_escape_push(s: Seq<char>, c: char)
    ensures
        spec_escape(s.push(c)) =~= spec_escape(s) + spec_escape_char(c),
    decreases s.len(),
{
    if s.len() == 0 {
        assert(s.push(c).drop_first() =~= s);
        assert(s.push(c)[0] == c);
    } else {
        lemma_escape_push(s.drop_first(), c);
        assert(s.push(c).drop_first() =~= s.drop_first().push(c));
        assert(s.push(c)[0] == s[0]);
    }
}

/// Spells a string as the inside of a JSON string literal; mirrors
/// `spec_escape`.
pub fn json_escape(s: &str) -> (r: String)
    ensures
        r@ == spec_escape(s@),
{
    let len = s.unicode_len();
    let mut out = String::new();
    let mut i: usize = 0;
    proof {
        assert(out@ =~= spec_escape(s@.take(0)));
    }
    while i < len
        invariant
            0 <= i <= len,
            len == s@.len(),
            out@ == spec_escape(s@.take(i as int)),
        decreases len - i,
    {
        let c = s.get_char(i);
        proof {
            lemma_escape_push(s@.take(i as int), c);
            assert(s@.take(i as int).push(c) =~= s@.take(i as int + 1));
            vstd::utf8::char_is_scalar(c);
        }
        if c == '"' {
            out.push('\\');
            out.push('"');
        } else if c == '\\' {
            out.push('\\');
            out.push('\\');
        } else if c == '\u{08}' {
            out.push('\\');
            out.push('b');
        } else if c == '\t' {
            out.push('\\');
            out.push('t');
        } else if c == '\n' {
            out.push('\\');
            out.push('n');
        } else if c == '\u{0C}' {
            out.push('\\');
            out.push('f');
        } else if c == '\r' {
            out.push('\\');
            out.push('r');
        } else if (c as u32) < 32 {
            let v: u8 = c as u8;
            let hi: u8 = v / 16;
            let lo: u8 = v % 16;
            let hic: char = if hi < 10 {
                (('0' as u8) + hi) as char
            } else {
                (('a' as u8) + (hi - 10)) as char
            };
            let loc: char = if lo < 10 {
                (('0' as u8) + lo) as char
            } else {
                (('a' as u8) + (lo - 10)) as char
            };
            out.push('\\');
            out.push('u');
            out.push('0');
            out.push('0');
            out.push(hic);
            out.push(loc);
            proof {
                assert(hic == spec_hex_digit((c as u32) / 16));
                assert(loc == spec_hex_digit((c as u32) % 16));
            }
        } else {
            out.push(c);
        }
        proof {
            assert(out@ =~= spec_escape(s@.take(i as int + 1)));
        }
        i = i + 1;
    }
    proof {
        assert(s@.take(len as int) =~= s@);
    }
    out
}

/// Renders the client-facing JSON error object for a short message.
pub fn error_body_json(msg: &str) -> (r: String)
    ensures
        r@ == spec_error_json(msg@),
{
    let mut out = String::from_str("{\"error\":\"");
    let escaped = json_escape(msg);
    out.append(escaped.as_str());
    out.append("\"}");
    proof {
        assert(out@ =~= spec_error_json(msg@));
    }
    out
}

/// Reads off the terminal error rendering of a response: its status and
/// the JSON error object for its short message. A response that reached
/// rendering with no payload at all is an internal contract violation and
/// renders as a plain 500.
pub fn render_error(resp: &FlackResponse) -> (r: (u16, String))
    ensures
        (match resp.error {
            Some(e) => r.0 == resp.code && r.1@ == spec_error_json(e.error@),
            None => r.0 == 500 && r.1@ == spec_error_json("Internal server error"@),
        }),
{
    match &resp.error {
        Some(e) => (resp.code, error_body_json(e.error.as_str())),
        None => (500, error_body_json("Internal server error")),
    }
}

} // verus!
