//! What holds of every resolution: its shape, its determinism, and how each
//! wrapper relates its responses to those of its inner type.
use vstd::prelude::*;
use crate::generator::{DataType, SchemaGenerator};
use crate::model::{
    agrees, has_status, lemma_renamed_unique, lemma_without_status_from, lemma_without_status_keeps,
    merged, without_status, renamed, retyped, statuses_unique, with_status, ResolveError,
    MediaType, ResponseEntry,
};
use crate::resolver::{generated, resolved};
use crate::shape::{ContentWrapper, ResponseShape, StatusWrapper};

verus! {

/// A merge that succeeds keeps `a` as its prefix, keeps status codes
/// unique, and holds every entry of `b`.
proof fn lemma_merged_ok(a: Seq<ResponseEntry>, b: Seq<ResponseEntry>)
    requires
        statuses_unique(a),
        statuses_unique(b),
    ensures
        merged(a, b) matches Ok(m) ==> {
            &&& a.len() <= m.len()
            &&& forall|i: int| 0 <= i < a.len() ==> m[i] == a[i]
            &&& statuses_unique(m)
            &&& forall|j: int| 0 <= j < b.len() ==> has_status(m, #[trigger] b[j].status) && agrees(m, b[j])
        },
    decreases b.len(),
{
    if b.len() > 0 {
        let bp = b.drop_last();
        lemma_merged_ok(a, bp);
        if let Ok(m) = merged(a, bp) {
            let e = b.last();
            assert forall|j: int| 0 <= j < bp.len() implies b[j].status != e.status by {
                assert(b[j] == bp[j]);
            }
            if !has_status(m, e.status) {
                let m2 = m.push(e);
                assert forall|j: int| 0 <= j < b.len() implies has_status(m2, #[trigger] b[j].status) && agrees(m2, b[j]) by {
                    if j < bp.len() {
                        assert(b[j] == bp[j]);
                        let k = choose|k: int| 0 <= k < m.len() && m[k].status == bp[j].status;
                        assert(m2[k].status == b[j].status);
                    } else {
                        assert(m2[m.len() as int].status == b[j].status);
                    }
                }
            } else if agrees(m, e) {
                assert forall|j: int| 0 <= j < b.len() implies has_status(m, #[trigger] b[j].status) && agrees(m, b[j]) by {
                    if j < bp.len() {
                        assert(b[j] == bp[j]);
                    }
                }
            }
        }
    }
}

/// Merging sets with no status code in common appends the second to the
/// first.
proof fn lemma_merged_disjoint(a: Seq<ResponseEntry>, b: Seq<ResponseEntry>)
    requires
        statuses_unique(b),
        forall|i: int, j: int| 0 <= i < a.len() && 0 <= j < b.len() ==> a[i].status != b[j].status,
    ensures
        merged(a, b) == Ok::<Seq<ResponseEntry>, ResolveError>(a + b),
    decreases b.len(),
{
    if b.len() == 0 {
        assert(a + b =~= a);
    } else {
        let bp = b.drop_last();
        lemma_merged_disjoint(a, bp);
        let e = b.last();
        let m = a + bp;
        assert forall|k: int| 0 <= k < m.len() implies m[k].status != e.status by {
            if k >= a.len() {
                assert(m[k] == b[k - a.len()]);
            }
        }
        assert(m.push(e) =~= a + b);
    }
}

/// Every successful resolution documents at least one status code, and no
/// status code twice.
pub proof fn lemma_resolution_well_formed(shape: ResponseShape, inline: Seq<bool>)
    ensures
        resolved(shape, inline) matches Ok(s) ==> s.len() > 0 && statuses_unique(s),
    decreases shape,
{
    match shape {
        ResponseShape::Optional(t) => {
            lemma_resolution_well_formed(*t, inline);
        },
        ResponseShape::Status(w, t) => {
            lemma_resolution_well_formed(*t, inline);
            if let Ok(s) = resolved(*t, inline) {
                lemma_renamed_unique(s, w.spec_code());
            }
        },
        ResponseShape::Content(w, t) => {
            lemma_resolution_well_formed(*t, inline);
            if let Ok(s) = resolved(*t, inline) {
                let o = retyped(s, w.spec_media_type());
                assert forall|i: int, j: int| 0 <= i < j < o.len() implies o[i].status != o[j].status by {
                    assert(o[i].status == s[i].status && o[j].status == s[j].status);
                }
            }
        },
        ResponseShape::Fallible(t, e) => {
            lemma_resolution_well_formed(*t, inline);
            lemma_resolution_well_formed(*e, inline);
            if let (Ok(a), Ok(b)) = (resolved(*t, inline), resolved(*e, inline)) {
                lemma_merged_ok(a, b);
            }
        },
        _ => {},
    }
}

/// Resolution is deterministic: two equivalent generators (the same types,
/// the same generated components) document every shape identically and
/// end with the same generated components.
pub proof fn lemma_resolution_deterministic(shape: ResponseShape, g1: SchemaGenerator, g2: SchemaGenerator)
    requires
        g1.names() == g2.names(),
        g1.inline_flags() == g2.inline_flags(),
        g1.registered() == g2.registered(),
    ensures
        resolved(shape, g1.inline_flags()) == resolved(shape, g2.inline_flags()),
        generated(shape, g1.inline_flags(), g1.registered()) == generated(shape, g2.inline_flags(), g2.registered()),
{
}

/// A JSON body holding a string documents the same status code and schema
/// as a plain-text string; only the content type differs.
pub proof fn lemma_json_string_is_text(inline: Seq<bool>)
    ensures
        resolved(ResponseShape::Json(DataType::String), inline) matches Ok(j) && resolved(ResponseShape::Text, inline) matches Ok(t) && {
            &&& j.len() == 1 && t.len() == 1
            &&& j[0].status == t[0].status
            &&& j[0].body->Some_0.schema == t[0].body->Some_0.schema
            &&& j[0].body->Some_0.media_type == MediaType::ApplicationJson
            &&& t[0].body->Some_0.media_type == MediaType::TextPlain
        },
{
}

/// An optional value keeps every status code of its inner type, in the
/// same order and with the same descriptions, and adds 404.
pub proof fn lemma_optional_adds_not_found(t: ResponseShape, inline: Seq<bool>)
    ensures
        match resolved(t, inline) {
            Ok(s) => resolved(ResponseShape::Optional(Box::new(t)), inline) matches Ok(o) && {
                &&& s.len() <= o.len()
                &&& forall|i: int| 0 <= i < s.len() ==> o[i] == s[i]
                &&& forall|code: u16| has_status(s, code) ==> has_status(o, code)
                &&& has_status(o, 404)
            },
            Err(x) => resolved(ResponseShape::Optional(Box::new(t)), inline) == Err::<Seq<ResponseEntry>, ResolveError>(x),
        },
{
    if let Ok(s) = resolved(t, inline) {
        let o = with_status(s, 404);
        if !has_status(s, 404) {
            assert(o[s.len() as int].status == 404);
        }
        assert forall|code: u16| has_status(s, code) implies has_status(o, code) by {
            let k = choose|k: int| 0 <= k < s.len() && s[k].status == code;
            assert(o[k].status == code);
        }
    }
}

/// A status wrapper always succeeds on a resolvable inner type: the
/// primary response takes the wrapper's code and keeps its body, so the old
/// primary code is gone (renamed, not duplicated); an entry that already
/// had the wrapper's code gives way; every other entry stays, in order.
pub proof fn lemma_status_wrapper(w: StatusWrapper, t: ResponseShape, inline: Seq<bool>)
    ensures
        match resolved(t, inline) {
            Ok(s) => resolved(ResponseShape::Status(w, Box::new(t)), inline) matches Ok(o) && {
                &&& o[0] == (ResponseEntry { status: w.spec_code(), body: s[0].body })
                &&& o.drop_first() == without_status(s.drop_first(), w.spec_code())
                &&& s[0].status != w.spec_code() ==> !has_status(o, s[0].status)
                &&& forall|i: int| 1 <= i < s.len() && s[i].status != w.spec_code() ==> o.contains(#[trigger] s[i])
                &&& forall|i: int| 1 <= i < o.len() ==> (#[trigger] o[i]).status != w.spec_code() && s.contains(o[i])
            },
            Err(x) => resolved(ResponseShape::Status(w, Box::new(t)), inline) == Err::<Seq<ResponseEntry>, ResolveError>(x),
        },
{
    lemma_resolution_well_formed(t, inline);
    if let Ok(s) = resolved(t, inline) {
        let code = w.spec_code();
        let d = s.drop_first();
        let o = renamed(s, code)->Ok_0;
        let wo = without_status(d, code);
        lemma_without_status_from(d, code);
        lemma_without_status_keeps(d, code);
        assert(o.drop_first() =~= wo);
        assert forall|i: int| 1 <= i < o.len() implies (#[trigger] o[i]).status != code && s.contains(o[i]) by {
            assert(o[i] == wo[i - 1]);
            assert(d.contains(wo[i - 1]));
            let j = choose|j: int| 0 <= j < d.len() && d[j] == wo[i - 1];
            assert(s[j + 1] == d[j]);
        }
        assert forall|i: int| 1 <= i < s.len() && s[i].status != code implies o.contains(#[trigger] s[i]) by {
            assert(d[i - 1] == s[i]);
            assert(wo.contains(d[i - 1]));
            let k = choose|k: int| 0 <= k < wo.len() && wo[k] == d[i - 1];
            assert(o[k + 1] == wo[k]);
        }
        if s[0].status != code {
            assert forall|i: int| 0 <= i < o.len() implies o[i].status != s[0].status by {
                if i > 0 {
                    assert(s.contains(o[i]));
                    let j = choose|j: int| 0 <= j < s.len() && s[j] == o[i];
                    assert(o[i].status != code);
                }
            }
        }
    }
}

/// A content-type wrapper gives every entry the wrapper's media type and
/// leaves the status codes, their order and the schemas as the inner type
/// documented them.
pub proof fn lemma_content_wrapper(w: ContentWrapper, t: ResponseShape, inline: Seq<bool>)
    ensures
        match resolved(t, inline) {
            Ok(s) => resolved(ResponseShape::Content(w, Box::new(t)), inline) matches Ok(o) && {
                &&& o.len() == s.len()
                &&& forall|i: int| 0 <= i < s.len() ==> o[i].status == s[i].status
                &&& forall|i: int| 0 <= i < s.len() ==> (#[trigger] o[i].body matches Some(b)
                    && b.media_type == w.spec_media_type()
                    && b.schema == (match s[i].body { Some(c) => c.schema, None => None }))
            },
            Err(x) => resolved(ResponseShape::Content(w, Box::new(t)), inline) == Err::<Seq<ResponseEntry>, ResolveError>(x),
        },
{
}

/// A fallible response whose error type has a rule, where the success and
/// error responses share no status code, documents both, success first,
/// without error.
pub proof fn lemma_result_disjoint(t: ResponseShape, e: ResponseShape, inline: Seq<bool>)
    requires
        e.has_rule(),
        resolved(t, inline) is Ok,
        resolved(e, inline) is Ok,
        forall|i: int, j: int|
            0 <= i < resolved(t, inline)->Ok_0.len() && 0 <= j < resolved(e, inline)->Ok_0.len()
                ==> resolved(t, inline)->Ok_0[i].status != resolved(e, inline)->Ok_0[j].status,
    ensures
        resolved(ResponseShape::Fallible(Box::new(t), Box::new(e)), inline)
            == Ok::<Seq<ResponseEntry>, ResolveError>(resolved(t, inline)->Ok_0 + resolved(e, inline)->Ok_0),
{
    lemma_resolution_well_formed(e, inline);
    lemma_merged_disjoint(resolved(t, inline)->Ok_0, resolved(e, inline)->Ok_0);
}

/// A fallible response whose error type has a rule, where the success and
/// error responses describe one status code differently, fails with a
/// merge conflict.
pub proof fn lemma_result_conflict(t: ResponseShape, e: ResponseShape, inline: Seq<bool>)
    requires
        e.has_rule(),
        resolved(t, inline) is Ok,
        resolved(e, inline) is Ok,
        exists|i: int, j: int|
            0 <= i < resolved(t, inline)->Ok_0.len() && 0 <= j < resolved(e, inline)->Ok_0.len()
                && resolved(t, inline)->Ok_0[i].status == resolved(e, inline)->Ok_0[j].status
                && resolved(t, inline)->Ok_0[i] != resolved(e, inline)->Ok_0[j],
    ensures
        resolved(ResponseShape::Fallible(Box::new(t), Box::new(e)), inline)
            matches Err(ResolveError::ResponseMergeConflict { .. }),
{
    let a = resolved(t, inline)->Ok_0;
    let b = resolved(e, inline)->Ok_0;
    lemma_resolution_well_formed(t, inline);
    lemma_resolution_well_formed(e, inline);
    lemma_merged_ok(a, b);
    lemma_merged_errors_are_conflicts(a, b);
    let (i, j) = choose|i: int, j: int|
        0 <= i < a.len() && 0 <= j < b.len() && a[i].status == b[j].status && a[i] != b[j];
    if let Ok(m) = merged(a, b) {
        assert(has_status(m, b[j].status) && agrees(m, b[j]));
        assert(m[i] == a[i]);
    }
}

/// A merge fails only with a conflict.
proof fn lemma_merged_errors_are_conflicts(a: Seq<ResponseEntry>, b: Seq<ResponseEntry>)
    ensures
        merged(a, b) is Err ==> merged(a, b) matches Err(ResolveError::ResponseMergeConflict { .. }),
    decreases b.len(),
{
    if b.len() > 0 {
        lemma_merged_errors_are_conflicts(a, b.drop_last());
    }
}

} // verus!
