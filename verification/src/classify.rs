//! The response classifier.
//!
//! The handler returns one value, which must be a sequence of exactly
//! three elements: a status code in [100, 599], a header mapping, and a
//! body. The body is classified by its shape: a string (and a record
//! tagged `"type" = "derivation"`) is served as a path or as literal text;
//! any other record is serialized to JSON; anything else is an error.

use vstd::prelude::*;
use crate::response::{
    spec_added_header, spec_lower_ascii, is_valid_header_name, is_valid_header_value, lower_ascii,
    text_is,
};

verus! {

/// A handler runtime value, as far as the classifier reads it: integers,
/// strings, sequences, attribute records, and everything else.
#[derive(Debug)]
pub enum RtValue {
    IntVal(i64),
    StrVal(String),
    ListVal(Vec<RtValue>),
    AttrsVal(Vec<(String, RtValue)>),
    OtherVal,
}

/// How the body will be produced: a string already in hand, a
/// derivation-tagged record the runtime must stringify, or a record the
/// runtime must JSON-encode.
#[derive(Debug)]
pub enum BodyClass {
    TextLike(String),
    DerivationLike,
    JsonLike,
}

/// The model of a body classification.
pub enum BodyClassModel {
    TextL(Seq<char>),
    DerivationL,
    JsonL,
}

/// The view of a body classification.
pub open spec fn body_class_view(b: BodyClass) -> BodyClassModel {
    match b {
        BodyClass::TextLike(s) => BodyClassModel::TextL(s@),
        BodyClass::DerivationLike => BodyClassModel::DerivationL,
        BodyClass::JsonLike => BodyClassModel::JsonL,
    }
}

/// A classified handler result: the status to answer with, the header
/// entries that survived the best-effort copy, whether a content-type
/// header was among them as supplied, and the body classification.
#[derive(Debug)]
pub struct ClassifiedResponse {
    pub status: u16,
    pub headers: Vec<(String, String)>,
    pub content_type_set: bool,
    pub body: BodyClass,
}

/// The model of a classified result.
pub struct ClassifiedModel {
    pub status: int,
    pub headers: Seq<(Seq<char>, Seq<char>)>,
    pub content_type_set: bool,
    pub body: BodyClassModel,
}

/// The view of a classified result.
pub open spec fn classified_view(c: ClassifiedResponse) -> ClassifiedModel {
    ClassifiedModel {
        status: c.status as int,
        headers: crate::response::headers_view(c.headers@),
        content_type_set: c.content_type_set,
        body: body_class_view(c.body),
    }
}

/// The ways a handler result violates the response contract.
#[derive(Debug)]
pub enum ClassifyFault {
    NotLengthThree,
    CodeMissing,
    CodeOutOfRange,
    HeadersMissing,
    BodyUnsupported,
}

impl ClassifyFault {
    /// The diagnostic retained for the log of a failed request.
    pub fn message(&self) -> (r: String)
        ensures
            r@ == self.spec_message(),
    {
        match self {
            ClassifyFault::NotLengthThree => String::from_str(
                "result of flack app did not have length 3",
            ),
            ClassifyFault::CodeMissing => String::from_str("error getting code"),
            ClassifyFault::CodeOutOfRange => String::from_str("invalid status code"),
            ClassifyFault::HeadersMissing => String::from_str("error getting headers"),
            ClassifyFault::BodyUnsupported => String::from_str(
                "body was not a string or attribute set",
            ),
        }
    }

    /// The diagnostic text of each contract violation.
    pub open spec fn spec_message(&self) -> Seq<char> {
        match self {
            ClassifyFault::NotLengthThree => "result of flack app did not have length 3"@,
            ClassifyFault::CodeMissing => "error getting code"@,
            ClassifyFault::CodeOutOfRange => "invalid status code"@,
            ClassifyFault::HeadersMissing => "error getting headers"@,
            ClassifyFault::BodyUnsupported => "body was not a string or attribute set"@,
        }
    }
}

/// The header entries that survive the best-effort copy, in order: entries
/// whose value is a string and whose name and value are valid header text,
/// names lower-cased.
pub open spec fn spec_copied_headers(ps: Seq<(String, RtValue)>) -> Seq<(Seq<char>, Seq<char>)>
    decreases ps.len(),
{
    if ps.len() == 0 {
        Seq::<(Seq<char>, Seq<char>)>::empty()
    } else {
        let head: Seq<(Seq<char>, Seq<char>)> = match ps[0].1 {
            RtValue::StrVal(s) => spec_added_header(ps[0].0@, s@),
            _ => Seq::<(Seq<char>, Seq<char>)>::empty(),
        };
        head + spec_copied_headers(ps.drop_first())
    }
}

/// Whether the handler itself supplied a content-type header: some entry
/// with a string value whose name is `content-type`, ASCII case ignored.
pub open spec fn spec_content_type_supplied(ps: Seq<(String, RtValue)>) -> bool
    decreases ps.len(),
{
    if ps.len() == 0 {
        false
    } else {
        (ps[0].1 is StrVal && spec_lower_ascii(ps[0].0@) == "content-type"@)
            || spec_content_type_supplied(ps.drop_first())
    }
}

/// The first attribute of the given name, if any.
pub open spec fn spec_attr_lookup(ps: Seq<(String, RtValue)>, name: Seq<char>) -> Option<RtValue>
    decreases ps.len(),
{
    if ps.len() == 0 {
        None
    } else if ps[0].0@ == name {
        Some(ps[0].1)
    } else {
        spec_attr_lookup(ps.drop_first(), name)
    }
}

/// Whether a record is tagged as a derivation: its `type` attribute is the
/// string `derivation`.
pub open spec fn spec_is_derivation(ps: Seq<(String, RtValue)>) -> bool {
    match spec_attr_lookup(ps, "type"@) {
        Some(v) => (match v {
            RtValue::StrVal(s) => s@ == "derivation"@,
            _ => false,
        }),
        None => false,
    }
}

/// What the classifier decides for every handler result: the faults, and
/// on success the status, the surviving headers, the supplied-content-type
/// flag, and the body classification.
pub open spec fn spec_classify(v: RtValue) -> Result<ClassifiedModel, ClassifyFault> {
    match v {
        RtValue::ListVal(items) => {
            if items@.len() != 3 {
                Err(ClassifyFault::NotLengthThree)
            } else {
                match items@[0] {
                    RtValue::IntVal(code) => {
                        if !(100 <= code <= 599) {
                            Err(ClassifyFault::CodeOutOfRange)
                        } else {
                            match items@[1] {
                                RtValue::AttrsVal(pairs) => {
                                    let m = ClassifiedModel {
                                        status: code as int,
                                        headers: spec_copied_headers(pairs@),
                                        content_type_set: spec_content_type_supplied(pairs@),
                                        body: BodyClassModel::JsonL,
                                    };
                                    match items@[2] {
                                        RtValue::StrVal(s) => Ok(
                                            ClassifiedModel {
                                                body: BodyClassModel::TextL(s@),
                                                ..m
                                            },
                                        ),
                                        RtValue::AttrsVal(battrs) => {
                                            if spec_is_derivation(battrs@) {
                                                Ok(
                                                    ClassifiedModel {
                                                        body: BodyClassModel::DerivationL,
                                                        ..m
                                                    },
                                                )
                                            } else {
                                                Ok(m)
                                            }
                                        },
                                        _ => Err(ClassifyFault::BodyUnsupported),
                                    }
                                },
                                _ => Err(ClassifyFault::HeadersMissing),
                            }
                        }
                    },
                    _ => Err(ClassifyFault::CodeMissing),
                }
            }
        },
        _ => Err(ClassifyFault::NotLengthThree),
    }
}

/// Copies the header mapping best-effort: entries that are not strings or
/// not valid header text are silently dropped; mirrors
/// `spec_copied_headers` and `spec_content_type_supplied`.
fn copy_headers(pairs: &Vec<(String, RtValue)>) -> (r: (Vec<(String, String)>, bool))
    ensures
        crate::response::headers_view(r.0@) == spec_copied_headers(pairs@),
        r.1 == spec_content_type_supplied(pairs@),
{
    let ghost all = pairs@;
    let mut kept: Vec<(String, String)> = Vec::new();
    let mut ct_set: bool = false;
    let mut i: usize = 0;
    proof {
        assert(all.skip(0) =~= all);
        assert(crate::response::headers_view(kept@) =~= Seq::<(Seq<char>, Seq<char>)>::empty());
    }
    while i < pairs.len()
        invariant
            0 <= i <= pairs.len(),
            all == pairs@,
            crate::response::headers_view(kept@) + spec_copied_headers(all.skip(i as int))
                =~= spec_copied_headers(all),
            spec_content_type_supplied(all) == (ct_set || spec_content_type_supplied(
                all.skip(i as int),
            )),
        decreases pairs.len() - i,
    {
        proof {
            assert(all.skip(i as int).len() > 0);
            assert(all.skip(i as int)[0] == all[i as int]);
            assert(all.skip(i as int).drop_first() =~= all.skip(i as int + 1));
        }
        match &pairs[i].1 {
            RtValue::StrVal(s) => {
                let name = &pairs[i].0;
                let lowered = lower_ascii(name.as_str());
                if text_is(&lowered, "content-type") {
                    ct_set = true;
                }
                if is_valid_header_name(name.as_str()) && is_valid_header_value(s.as_str()) {
                    kept.push((lowered, s.clone()));
                }
                proof {
                    assert(crate::response::headers_view(kept@) + spec_copied_headers(
                        all.skip(i as int + 1),
                    ) =~= spec_copied_headers(all));
                }
            },
            _ => {
                proof {
                    assert(crate::response::headers_view(kept@) + spec_copied_headers(
                        all.skip(i as int + 1),
                    ) =~= spec_copied_headers(all));
                }
            },
        }
        i = i + 1;
    }
    proof {
        assert(all.skip(pairs.len() as int) =~= Seq::<(String, RtValue)>::empty());
        assert(crate::response::headers_view(kept@) =~= spec_copied_headers(all));
    }
    (kept, ct_set)
}

/// Looks up an attribute by name; mirrors `spec_attr_lookup` as far as the
/// derivation check needs it.
fn attrs_type_is_derivation(pairs: &Vec<(String, RtValue)>) -> (r: bool)
    ensures
        r == spec_is_derivation(pairs@),
{
    let ghost all = pairs@;
    let mut i: usize = 0;
    proof {
        assert(all.skip(0) =~= all);
    }
    while i < pairs.len()
        invariant
            0 <= i <= pairs.len(),
            all == pairs@,
            spec_attr_lookup(all.skip(i as int), "type"@) == spec_attr_lookup(all, "type"@),
        decreases pairs.len() - i,
    {
        proof {
            assert(all.skip(i as int).len() > 0);
            assert(all.skip(i as int)[0] == all[i as int]);
            assert(all.skip(i as int).drop_first() =~= all.skip(i as int + 1));
        }
        if text_is(&pairs[i].0, "type") {
            return match &pairs[i].1 {
                RtValue::StrVal(s) => text_is(s, "derivation"),
                _ => false,
            };
        }
        i = i + 1;
    }
    proof {
        assert(all.skip(pairs.len() as int) =~= Seq::<(String, RtValue)>::empty());
    }
    false
}

/// Classifies a handler result; every outcome is exactly the one
/// `spec_classify` names for this value.
pub fn classify_result(v: &RtValue) -> (r: Result<ClassifiedResponse, ClassifyFault>)
    ensures
        (match r {
            Ok(c) => spec_classify(*v) == Ok::<ClassifiedModel, ClassifyFault>(classified_view(c)),
            Err(f) => spec_classify(*v) == Err::<ClassifiedModel, ClassifyFault>(f),
        }),
{
    match v {
        RtValue::ListVal(items) => {
            if items.len() != 3 {
                return Err(ClassifyFault::NotLengthThree);
            }
            let code: i64 = match &items[0] {
                RtValue::IntVal(code) => *code,
                _ => {
                    return Err(ClassifyFault::CodeMissing);
                },
            };
            if !(100 <= code && code <= 599) {
                return Err(ClassifyFault::CodeOutOfRange);
            }
            let (kept, ct_set) = match &items[1] {
                RtValue::AttrsVal(pairs) => copy_headers(pairs),
                _ => {
                    return Err(ClassifyFault::HeadersMissing);
                },
            };
            let body = match &items[2] {
                RtValue::StrVal(s) => BodyClass::TextLike(s.clone()),
                RtValue::AttrsVal(battrs) => {
                    if attrs_type_is_derivation(battrs) {
                        BodyClass::DerivationLike
                    } else {
                        BodyClass::JsonLike
                    }
                },
                _ => {
                    return Err(ClassifyFault::BodyUnsupported);
                },
            };
            Ok(
                ClassifiedResponse {
                    status: code as u16,
                    headers: kept,
                    content_type_set: ct_set,
                    body,
                },
            )
        },
        _ => Err(ClassifyFault::NotLengthThree),
    }
}

} // verus!
