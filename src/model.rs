//! The documentation model: media types, schema handles, response entries
//! and the errors that resolution can report.
use vstd::prelude::*;

verus! {

/// A MIME type that a documented response can carry.
#[derive(Clone, Copy, Debug, PartialEq, Eq, Structural)]
pub enum MediaType {
    ApplicationJson,
    TextPlain,
    OctetStream,
    TextCss,
    TextHtml,
    ApplicationJavascript,
    ApplicationMsgpack,
    TextXml,
}

impl MediaType {
    /// The MIME string of this media type.
    pub open spec fn mime(self) -> Seq<char> {
        match self {
            MediaType::ApplicationJson => "application/json"@,
            MediaType::TextPlain => "text/plain"@,
            MediaType::OctetStream => "application/octet-stream"@,
            MediaType::TextCss => "text/css"@,
            MediaType::TextHtml => "text/html"@,
            MediaType::ApplicationJavascript => "application/javascript"@,
            MediaType::ApplicationMsgpack => "application/msgpack"@,
            MediaType::TextXml => "text/xml"@,
        }
    }

    /// The MIME string of this media type.
    pub fn as_str(&self) -> (r: &'static str)
        ensures
            r@ == self.mime(),
    {
        match self {
            MediaType::ApplicationJson => "application/json",
            MediaType::TextPlain => "text/plain",
            MediaType::OctetStream => "application/octet-stream",
            MediaType::TextCss => "text/css",
            MediaType::TextHtml => "text/html",
            MediaType::ApplicationJavascript => "application/javascript",
            MediaType::ApplicationMsgpack => "application/msgpack",
            MediaType::TextXml => "text/xml",
        }
    }
}

/// A handle to a generated JSON schema. Resolution threads it through and
/// never looks inside.
#[derive(Clone, Copy, Debug, PartialEq, Eq, Structural)]
pub enum SchemaRef {
    /// The schema that accepts any JSON value.
    Any,
    /// The schema of a string.
    Str,
    /// The inline schema of the registered type with this id.
    Inline(usize),
    /// A reference to the registered component schema of a data type.
    Component(usize),
}

/// The body of a documented response: its content type, and the schema of
/// the payload where the payload is schema-described.
#[derive(Clone, Copy, Debug, PartialEq, Eq, Structural)]
pub struct Body {
    pub media_type: MediaType,
    pub schema: Option<SchemaRef>,
}

/// One documented response: a status code and, where there is one, its body.
#[derive(Clone, Copy, Debug, PartialEq, Eq, Structural)]
pub struct ResponseEntry {
    pub status: u16,
    pub body: Option<Body>,
}

/// Why a response type could not be documented.
#[derive(Clone, Copy, Debug, PartialEq, Eq, Structural)]
pub enum ResolveError {
    /// The response type with this id has no documentation rule.
    UnsupportedResponseType { type_id: usize },
    /// The schema generator does not know the data type with this id.
    SchemaGenerationFailure { type_id: usize },
    /// A status rewrite had no target, or would clash with this code.
    StatusRewriteFailure { status: u16 },
    /// Two branches describe this status code differently.
    ResponseMergeConflict { status: u16 },
}

impl ResolveError {
    /// A short human-readable account of the error.
    pub open spec fn spec_message(self) -> Seq<char> {
        match self {
            ResolveError::UnsupportedResponseType { .. } => "response type has no documentation rule"@,
            ResolveError::SchemaGenerationFailure { .. } => "schema generation failed"@,
            ResolveError::StatusRewriteFailure { .. } => "status code rewrite is not possible"@,
            ResolveError::ResponseMergeConflict { .. } => "conflicting responses for one status code"@,
        }
    }

    /// A short human-readable account of the error.
    pub fn message(&self) -> (r: &'static str)
        ensures
            r@ == self.spec_message(),
    {
        match self {
            ResolveError::UnsupportedResponseType { .. } => "response type has no documentation rule",
            ResolveError::SchemaGenerationFailure { .. } => "schema generation failed",
            ResolveError::StatusRewriteFailure { .. } => "status code rewrite is not possible",
            ResolveError::ResponseMergeConflict { .. } => "conflicting responses for one status code",
        }
    }
}

/// An entry with no body.
pub open spec fn empty_entry(status: u16) -> ResponseEntry {
    ResponseEntry { status, body: None }
}

/// Some entry of `s` has status `code`.
pub open spec fn has_status(s: Seq<ResponseEntry>, code: u16) -> bool {
    exists|i: int| 0 <= i < s.len() && s[i].status == code
}

/// Every entry of `s` with the status of `e` is `e`.
pub open spec fn agrees(s: Seq<ResponseEntry>, e: ResponseEntry) -> bool {
    forall|i: int| 0 <= i < s.len() && s[i].status == e.status ==> s[i] == e
}

/// No status code occurs twice in `s`.
pub open spec fn statuses_unique(s: Seq<ResponseEntry>) -> bool {
    forall|i: int, j: int| 0 <= i < j < s.len() ==> s[i].status != s[j].status
}

/// `s` with an empty entry for `code` appended, unless `code` is present.
pub open spec fn with_status(s: Seq<ResponseEntry>, code: u16) -> Seq<ResponseEntry> {
    if has_status(s, code) {
        s
    } else {
        s.push(empty_entry(code))
    }
}

/// `s` with `body` documented under status `code`: the entry for `code`
/// takes it, or a new entry is appended.
pub open spec fn with_body(s: Seq<ResponseEntry>, code: u16, body: Body) -> Seq<ResponseEntry> {
    let e = ResponseEntry { status: code, body: Some(body) };
    if has_status(s, code) {
        s.map_values(|x: ResponseEntry| if x.status == code { e } else { x })
    } else {
        s.push(e)
    }
}

/// The entries of `s` whose status is not `code`, in order.
pub open spec fn without_status(s: Seq<ResponseEntry>, code: u16) -> Seq<ResponseEntry>
    decreases s.len(),
{
    if s.len() == 0 {
        s
    } else if s.last().status == code {
        without_status(s.drop_last(), code)
    } else {
        without_status(s.drop_last(), code).push(s.last())
    }
}

/// `s` with its primary (first) entry moved to status `code`, keeping its
/// body; the entry it displaces there, if any, is dropped, and the other
/// entries stay in order. Fails on an empty set, which has no primary entry.
pub open spec fn renamed(s: Seq<ResponseEntry>, code: u16) -> Result<Seq<ResponseEntry>, ResolveError> {
    if s.len() == 0 {
        Err(ResolveError::StatusRewriteFailure { status: code })
    } else {
        Ok(seq![ResponseEntry { status: code, body: s[0].body }] + without_status(s.drop_first(), code))
    }
}

/// Dropping the entries of status `code` keeps only entries of `s`, and
/// none with status `code`.
pub proof fn lemma_without_status_from(s: Seq<ResponseEntry>, code: u16)
    ensures
        forall|k: int| 0 <= k < without_status(s, code).len()
            ==> (#[trigger] without_status(s, code)[k]).status != code && s.contains(without_status(s, code)[k]),
    decreases s.len(),
{
    if s.len() > 0 {
        let p = s.drop_last();
        lemma_without_status_from(p, code);
        let w = without_status(p, code);
        let r = without_status(s, code);
        assert forall|k: int| 0 <= k < r.len() implies (#[trigger] r[k]).status != code && s.contains(r[k]) by {
            if k < w.len() {
                assert(r[k] == w[k]);
                assert(p.contains(w[k]));
                let j = choose|j: int| 0 <= j < p.len() && p[j] == w[k];
                assert(s[j] == p[j]);
            } else {
                assert(r[k] == s[s.len() - 1]);
            }
        }
    }
}

/// Dropping the entries of status `code` keeps every other entry of `s`.
pub proof fn lemma_without_status_keeps(s: Seq<ResponseEntry>, code: u16)
    ensures
        forall|j: int| 0 <= j < s.len() && (#[trigger] s[j]).status != code ==> without_status(s, code).contains(s[j]),
    decreases s.len(),
{
    if s.len() > 0 {
        let p = s.drop_last();
        lemma_without_status_keeps(p, code);
        let w = without_status(p, code);
        let r = without_status(s, code);
        assert forall|j: int| 0 <= j < s.len() && (#[trigger] s[j]).status != code implies r.contains(s[j]) by {
            if j < p.len() {
                assert(s[j] == p[j]);
                assert(w.contains(p[j]));
                let k = choose|k: int| 0 <= k < w.len() && w[k] == p[j];
                if s.last().status != code {
                    assert(r[k] == w[k]);
                }
            } else {
                assert(r[r.len() - 1] == s[j]);
            }
        }
    }
}

/// Dropping the entries of status `code` keeps status codes unique.
pub proof fn lemma_without_status_unique(s: Seq<ResponseEntry>, code: u16)
    requires
        statuses_unique(s),
    ensures
        statuses_unique(without_status(s, code)),
    decreases s.len(),
{
    if s.len() > 0 {
        let p = s.drop_last();
        assert(statuses_unique(p));
        lemma_without_status_unique(p, code);
        lemma_without_status_from(p, code);
        let w = without_status(p, code);
        if s.last().status != code {
            assert forall|k: int| 0 <= k < w.len() implies (#[trigger] w[k]).status != s.last().status by {
                assert(p.contains(w[k]));
                let j = choose|j: int| 0 <= j < p.len() && p[j] == w[k];
                assert(s[j] == p[j]);
            }
        }
    }
}

/// Renaming the primary entry keeps status codes unique.
pub proof fn lemma_renamed_unique(s: Seq<ResponseEntry>, code: u16)
    requires
        statuses_unique(s),
    ensures
        renamed(s, code) matches Ok(o) ==> statuses_unique(o),
{
    if s.len() > 0 {
        let t = s.drop_first();
        assert(statuses_unique(t)) by {
            assert forall|i: int, j: int| 0 <= i < j < t.len() implies t[i].status != t[j].status by {
                assert(t[i] == s[i + 1] && t[j] == s[j + 1]);
            }
        }
        lemma_without_status_unique(t, code);
        lemma_without_status_from(t, code);
        let w = without_status(t, code);
        let o = seq![ResponseEntry { status: code, body: s[0].body }] + w;
        assert forall|i: int, j: int| 0 <= i < j < o.len() implies o[i].status != o[j].status by {
            assert(o[j] == w[j - 1]);
            if i > 0 {
                assert(o[i] == w[i - 1]);
            }
        }
    }
}

/// `e` with its content type forced to `m`, keeping its schema.
pub open spec fn retyped_entry(e: ResponseEntry, m: MediaType) -> ResponseEntry {
    ResponseEntry {
        status: e.status,
        body: Some(
            Body {
                media_type: m,
                schema: match e.body {
                    Some(b) => b.schema,
                    None => None,
                },
            },
        ),
    }
}

/// Every entry of `s` with its content type forced to `m`.
pub open spec fn retyped(s: Seq<ResponseEntry>, m: MediaType) -> Seq<ResponseEntry> {
    s.map_values(|e: ResponseEntry| retyped_entry(e, m))
}

/// The entries of `b`, taken in order, merged into `a`: a status code new to
/// the set is appended, one that is present must carry the same description,
/// and the first that does not is a conflict.
pub open spec fn merged(a: Seq<ResponseEntry>, b: Seq<ResponseEntry>) -> Result<Seq<ResponseEntry>, ResolveError>
    decreases b.len(),
{
    if b.len() == 0 {
        Ok(a)
    } else {
        match merged(a, b.drop_last()) {
            Ok(m) => {
                let e = b.last();
                if !has_status(m, e.status) {
                    Ok(m.push(e))
                } else if agrees(m, e) {
                    Ok(m)
                } else {
                    Err(ResolveError::ResponseMergeConflict { status: e.status })
                }
            },
            Err(x) => Err(x),
        }
    }
}

} // verus!
