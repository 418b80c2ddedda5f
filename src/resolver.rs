//! The rules that document each response shape, and the dispatcher that
//! picks the rule for a shape.
use vstd::prelude::*;
use crate::generator::{extends, generated_after, schema_of, DataType, SchemaGenerator};
use crate::model::{
    empty_entry, lemma_without_status_from, merged, renamed, without_status, retyped, statuses_unique, with_status, Body, MediaType,
    ResolveError, ResponseEntry, SchemaRef,
};
use crate::response_set::{outcome, ResponseSet};
use crate::shape::{ContentWrapper, ResponseShape, StatusWrapper};

verus! {

/// An entry at `status` whose body has type `media` and schema `schema`.
pub open spec fn body_entry(status: u16, media: MediaType, schema: Option<SchemaRef>) -> ResponseEntry {
    ResponseEntry { status, body: Some(Body { media_type: media, schema }) }
}

/// The data type whose component schema `e` references, if any.
pub open spec fn component_of(e: ResponseEntry) -> Option<usize> {
    match e.body {
        Some(b) => match b.schema {
            Some(SchemaRef::Component(id)) => Some(id),
            _ => None,
        },
        None => None,
    }
}

/// Every component schema that `s` references was generated by `g`.
pub open spec fn schemas_generated(s: Seq<ResponseEntry>, g: SchemaGenerator) -> bool {
    forall|i: int| 0 <= i < s.len() ==> (#[trigger] component_of(s[i]) matches Some(id) ==> g.registered().contains(id))
}

proof fn lemma_generated_extends(s: Seq<ResponseEntry>, g1: SchemaGenerator, g2: SchemaGenerator)
    requires
        schemas_generated(s, g1),
        extends(g1, g2),
    ensures
        schemas_generated(s, g2),
{
    assert forall|i: int| 0 <= i < s.len() implies (#[trigger] component_of(s[i]) matches Some(id) ==> g2.registered().contains(id)) by {
        if let Some(id) = component_of(s[i]) {
            let k = choose|k: int| 0 <= k < g1.registered().len() && g1.registered()[k] == id;
            assert(g2.registered()[k] == id);
        }
    }
}

proof fn lemma_generated_with_status(s: Seq<ResponseEntry>, code: u16, g: SchemaGenerator)
    requires
        schemas_generated(s, g),
    ensures
        schemas_generated(with_status(s, code), g),
{
    let o = with_status(s, code);
    assert forall|i: int| 0 <= i < o.len() implies (#[trigger] component_of(o[i]) matches Some(id) ==> g.registered().contains(id)) by {
        if i < s.len() {
            assert(o[i] == s[i]);
        }
    }
}

proof fn lemma_generated_renamed(s: Seq<ResponseEntry>, code: u16, g: SchemaGenerator)
    requires
        schemas_generated(s, g),
    ensures
        renamed(s, code) matches Ok(o) ==> schemas_generated(o, g),
{
    if let Ok(o) = renamed(s, code) {
        let t = s.drop_first();
        lemma_without_status_from(t, code);
        let w = without_status(t, code);
        assert forall|i: int| 0 <= i < o.len() implies (#[trigger] component_of(o[i]) matches Some(id) ==> g.registered().contains(id)) by {
            if i == 0 {
                assert(component_of(o[0]) == component_of(s[0]));
            } else {
                assert(o[i] == w[i - 1]);
                assert(t.contains(w[i - 1]));
                let j = choose|j: int| 0 <= j < t.len() && t[j] == w[i - 1];
                assert(t[j] == s[j + 1]);
            }
        }
    }
}

proof fn lemma_generated_retyped(s: Seq<ResponseEntry>, m: MediaType, g: SchemaGenerator)
    requires
        schemas_generated(s, g),
    ensures
        schemas_generated(retyped(s, m), g),
{
    let o = retyped(s, m);
    assert forall|i: int| 0 <= i < o.len() implies (#[trigger] component_of(o[i]) matches Some(id) ==> g.registered().contains(id)) by {
        assert(component_of(o[i]) == component_of(s[i]));
    }
}

proof fn lemma_generated_merged(a: Seq<ResponseEntry>, b: Seq<ResponseEntry>, g: SchemaGenerator)
    requires
        schemas_generated(a, g),
        schemas_generated(b, g),
    ensures
        merged(a, b) matches Ok(m) ==> schemas_generated(m, g),
    decreases b.len(),
{
    if b.len() > 0 {
        let bp = b.drop_last();
        assert forall|i: int| 0 <= i < bp.len() implies (#[trigger] component_of(bp[i]) matches Some(id) ==> g.registered().contains(id)) by {
            assert(bp[i] == b[i]);
        }
        lemma_generated_merged(a, bp, g);
        if let Ok(m) = merged(a, bp) {
            let e = b.last();
            let m2 = m.push(e);
            assert(component_of(b[b.len() - 1]) matches Some(id) ==> g.registered().contains(id));
            assert forall|i: int| 0 <= i < m2.len() implies (#[trigger] component_of(m2[i]) matches Some(id) ==> g.registered().contains(id)) by {
                if i < m.len() {
                    assert(m2[i] == m[i]);
                }
            }
        }
    }
}

/// The responses documented for `shape`, where `inline` tells, for each
/// type known to the generator, whether its schema is inline.
pub open spec fn resolved(shape: ResponseShape, inline: Seq<bool>) -> Result<Seq<ResponseEntry>, ResolveError>
    decreases shape,
{
    match shape {
        ResponseShape::Json(t) => match schema_of(t, inline) {
            Ok(schema) => Ok(seq![body_entry(200, MediaType::ApplicationJson, Some(schema))]),
            Err(x) => Err(x),
        },
        ResponseShape::JsonValue => Ok(seq![body_entry(200, MediaType::ApplicationJson, Some(SchemaRef::Any))]),
        ResponseShape::Text => Ok(seq![body_entry(200, MediaType::TextPlain, Some(SchemaRef::Str))]),
        ResponseShape::TextRef => Ok(seq![body_entry(200, MediaType::TextPlain, Some(SchemaRef::Str))]),
        ResponseShape::Bytes => Ok(seq![body_entry(200, MediaType::OctetStream, None)]),
        ResponseShape::ByteSlice => Ok(seq![body_entry(200, MediaType::OctetStream, None)]),
        ResponseShape::Unit => Ok(seq![empty_entry(200)]),
        ResponseShape::Optional(t) => match resolved(*t, inline) {
            Ok(s) => Ok(with_status(s, 404)),
            Err(x) => Err(x),
        },
        ResponseShape::Status(w, t) => match resolved(*t, inline) {
            Ok(s) => renamed(s, w.spec_code()),
            Err(x) => Err(x),
        },
        ResponseShape::Content(w, t) => match resolved(*t, inline) {
            Ok(s) => Ok(retyped(s, w.spec_media_type())),
            Err(x) => Err(x),
        },
        ResponseShape::Fallible(t, e) => match resolved(*t, inline) {
            Ok(s) => if e.has_rule() {
                match resolved(*e, inline) {
                    Ok(f) => merged(s, f),
                    Err(x) => Err(x),
                }
            } else {
                Ok(with_status(s, 500))
            },
            Err(x) => Err(x),
        },
        ResponseShape::Undocumented(id) => Err(ResolveError::UnsupportedResponseType { type_id: id.index }),
    }
}

/// The generated components `regs` after `shape` is documented, where
/// `inline` tells which known types have inline schemas: each JSON body
/// met on the way generates the component of its type, in the order of
/// resolution, which stops at the first error.
pub open spec fn generated(shape: ResponseShape, inline: Seq<bool>, regs: Seq<usize>) -> Seq<usize>
    decreases shape,
{
    match shape {
        ResponseShape::Json(t) => generated_after(regs, t, inline),
        ResponseShape::Optional(t) => generated(*t, inline, regs),
        ResponseShape::Status(_, t) => generated(*t, inline, regs),
        ResponseShape::Content(_, t) => generated(*t, inline, regs),
        ResponseShape::Fallible(t, e) => if resolved(*t, inline) is Ok && e.has_rule() {
            generated(*e, inline, generated(*t, inline, regs))
        } else {
            generated(*t, inline, regs)
        },
        _ => regs,
    }
}

/// Documents a JSON body of type `t`: status 200, `application/json`, the
/// schema of `t`. A component schema is generated if it was not yet; the
/// generator changes in nothing else.
pub fn json_responses(gen: &mut SchemaGenerator, t: DataType) -> (r: Result<ResponseSet, ResolveError>)
    ensures
        outcome(r) == resolved(ResponseShape::Json(t), old(gen).inline_flags()),
        extends(*old(gen), *final(gen)),
        final(gen).registered() == generated_after(old(gen).registered(), t, old(gen).inline_flags()),
        final(gen).registered() == old(gen).registered() ==> *final(gen) == *old(gen),
        r matches Ok(s) ==> statuses_unique(s@),
{
    match gen.json_schema(t) {
        Ok(schema) => {
            let mut responses = ResponseSet::new();
            let added = responses.add_schema_response(200, MediaType::ApplicationJson, schema);
            proof {
                assert(responses@ =~= seq![body_entry(200, MediaType::ApplicationJson, Some(schema))]);
            }
            match added {
                Ok(()) => Ok(responses),
                Err(x) => Err(x),
            }
        },
        Err(x) => Err(x),
    }
}

/// Documents an untyped JSON value: status 200, `application/json`, the
/// schema that accepts any value.
pub fn json_value_responses(gen: &mut SchemaGenerator) -> (r: Result<ResponseSet, ResolveError>)
    ensures
        outcome(r) == resolved(ResponseShape::JsonValue, old(gen).inline_flags()),
        *final(gen) == *old(gen),
        r matches Ok(s) ==> statuses_unique(s@),
{
    let schema = gen.schema_for_any();
    let mut responses = ResponseSet::new();
    let added = responses.add_schema_response(200, MediaType::ApplicationJson, schema);
    proof {
        assert(responses@ =~= seq![body_entry(200, MediaType::ApplicationJson, Some(schema))]);
    }
    match added {
        Ok(()) => Ok(responses),
        Err(x) => Err(x),
    }
}

/// Documents an owned string: status 200, `text/plain`, the string schema.
pub fn string_responses(gen: &mut SchemaGenerator) -> (r: Result<ResponseSet, ResolveError>)
    ensures
        outcome(r) == resolved(ResponseShape::Text, old(gen).inline_flags()),
        *final(gen) == *old(gen),
        r matches Ok(s) ==> statuses_unique(s@),
{
    match gen.json_schema(DataType::String) {
        Ok(schema) => {
            let mut responses = ResponseSet::new();
            let added = responses.add_schema_response(200, MediaType::TextPlain, schema);
            proof {
                assert(responses@ =~= seq![body_entry(200, MediaType::TextPlain, Some(schema))]);
            }
            match added {
                Ok(()) => Ok(responses),
                Err(x) => Err(x),
            }
        },
        Err(x) => Err(x),
    }
}

/// Documents a borrowed string view exactly as an owned string.
pub fn str_responses(gen: &mut SchemaGenerator) -> (r: Result<ResponseSet, ResolveError>)
    ensures
        outcome(r) == resolved(ResponseShape::TextRef, old(gen).inline_flags()),
        *final(gen) == *old(gen),
        r matches Ok(s) ==> statuses_unique(s@),
{
    string_responses(gen)
}

/// Documents an owned binary buffer: status 200,
/// `application/octet-stream`, no schema.
pub fn bytes_responses() -> (r: Result<ResponseSet, ResolveError>)
    ensures
        outcome(r) == Ok::<Seq<ResponseEntry>, ResolveError>(seq![body_entry(200, MediaType::OctetStream, None)]),
        r matches Ok(s) ==> statuses_unique(s@),
{
    let mut responses = ResponseSet::new();
    let added = responses.add_content_response(200, Body { media_type: MediaType::OctetStream, schema: None });
    proof {
        assert(responses@ =~= seq![body_entry(200, MediaType::OctetStream, None)]);
    }
    match added {
        Ok(()) => Ok(responses),
        Err(x) => Err(x),
    }
}

/// Documents a borrowed binary buffer exactly as an owned one.
pub fn byte_slice_responses() -> (r: Result<ResponseSet, ResolveError>)
    ensures
        outcome(r) == Ok::<Seq<ResponseEntry>, ResolveError>(seq![body_entry(200, MediaType::OctetStream, None)]),
        r matches Ok(s) ==> statuses_unique(s@),
{
    bytes_responses()
}

/// Documents the empty response: an entry at status 200 with no body.
pub fn unit_responses() -> (r: Result<ResponseSet, ResolveError>)
    ensures
        outcome(r) == Ok::<Seq<ResponseEntry>, ResolveError>(seq![empty_entry(200)]),
        r matches Ok(s) ==> statuses_unique(s@),
{
    let mut responses = ResponseSet::new();
    responses.ensure_status_code_exists(200);
    proof {
        assert(responses@ =~= seq![empty_entry(200)]);
    }
    Ok(responses)
}

/// Documents an optional value from the responses of the value: a 404 entry
/// is added where there is none.
pub fn option_responses(inner: ResponseSet) -> (r: ResponseSet)
    requires
        statuses_unique(inner@),
    ensures
        r@ == with_status(inner@, 404),
        statuses_unique(r@),
{
    let mut responses = inner;
    responses.ensure_status_code_exists(404);
    responses
}

/// Documents a status wrapper from the responses of its inner type: the
/// primary entry moves to the wrapper's code.
pub fn status_responses(inner: ResponseSet, wrapper: StatusWrapper) -> (r: Result<ResponseSet, ResolveError>)
    requires
        statuses_unique(inner@),
    ensures
        outcome(r) == renamed(inner@, wrapper.spec_code()),
        r matches Ok(s) ==> statuses_unique(s@),
{
    let mut responses = inner;
    match responses.set_status_code(wrapper.code()) {
        Ok(()) => Ok(responses),
        Err(x) => Err(x),
    }
}

/// Documents a content-type wrapper from the responses of its inner type:
/// every entry takes the wrapper's media type.
pub fn content_responses(inner: ResponseSet, wrapper: ContentWrapper) -> (r: ResponseSet)
    requires
        statuses_unique(inner@),
    ensures
        r@ == retyped(inner@, wrapper.spec_media_type()),
        statuses_unique(r@),
{
    let mut responses = inner;
    responses.set_content_type(wrapper.media_type());
    responses
}

/// Documents a fallible response whose error has no rule of its own, from
/// the responses of its success type: a 500 entry is added where there is
/// none.
pub fn result_fallback_responses(ok: ResponseSet) -> (r: ResponseSet)
    requires
        statuses_unique(ok@),
    ensures
        r@ == with_status(ok@, 500),
        statuses_unique(r@),
{
    let mut responses = ok;
    responses.ensure_status_code_exists(500);
    responses
}

/// Documents a fallible response whose error has a rule of its own: the
/// success and error responses are merged, and a status code that both
/// describe differently is a conflict.
pub fn result_responses(ok: ResponseSet, err: ResponseSet) -> (r: Result<ResponseSet, ResolveError>)
    requires
        statuses_unique(ok@),
        statuses_unique(err@),
    ensures
        outcome(r) == merged(ok@, err@),
        r matches Ok(s) ==> statuses_unique(s@),
{
    ok.produce_any_responses(err)
}

/// Documents the response type of shape `shape`: the rule of the shape is
/// applied, wrappers first documenting their inner shapes. A fallible
/// response uses the merging rule where its error shape has a rule, and
/// the fallback rule otherwise.
pub fn resolve_responses(shape: &ResponseShape, gen: &mut SchemaGenerator) -> (r: Result<ResponseSet, ResolveError>)
    ensures
        outcome(r) == resolved(*shape, old(gen).inline_flags()),
        extends(*old(gen), *final(gen)),
        final(gen).registered() == generated(*shape, old(gen).inline_flags(), old(gen).registered()),
        r matches Ok(s) ==> statuses_unique(s@) && schemas_generated(s@, *final(gen)),
    decreases shape,
{
    let ghost g0 = *gen;
    let r = match shape {
        ResponseShape::Json(id) => json_responses(gen, *id),
        ResponseShape::JsonValue => json_value_responses(gen),
        ResponseShape::Text => string_responses(gen),
        ResponseShape::TextRef => str_responses(gen),
        ResponseShape::Bytes => bytes_responses(),
        ResponseShape::ByteSlice => byte_slice_responses(),
        ResponseShape::Unit => unit_responses(),
        ResponseShape::Optional(t) => match resolve_responses(t, gen) {
            Ok(s) => {
                proof {
                    lemma_generated_with_status(s@, 404, *gen);
                }
                Ok(option_responses(s))
            },
            Err(x) => Err(x),
        },
        ResponseShape::Status(w, t) => match resolve_responses(t, gen) {
            Ok(s) => {
                proof {
                    lemma_generated_renamed(s@, w.spec_code(), *gen);
                }
                status_responses(s, *w)
            },
            Err(x) => Err(x),
        },
        ResponseShape::Content(w, t) => match resolve_responses(t, gen) {
            Ok(s) => {
                proof {
                    lemma_generated_retyped(s@, w.spec_media_type(), *gen);
                }
                Ok(content_responses(s, *w))
            },
            Err(x) => Err(x),
        },
        ResponseShape::Fallible(t, e) => match resolve_responses(t, gen) {
            Ok(s) => if e.is_documented() {
                let ghost g1 = *gen;
                match resolve_responses(e, gen) {
                    Ok(f) => {
                        proof {
                            lemma_generated_extends(s@, g1, *gen);
                            lemma_generated_merged(s@, f@, *gen);
                        }
                        result_responses(s, f)
                    },
                    Err(x) => Err(x),
                }
            } else {
                proof {
                    lemma_generated_with_status(s@, 500, *gen);
                }
                Ok(result_fallback_responses(s))
            },
            Err(x) => Err(x),
        },
        ResponseShape::Undocumented(id) => Err(ResolveError::UnsupportedResponseType { type_id: id.index }),
    };
    proof {
        if r is Ok && *shape is Json {
            let t = shape->Json_0;
            if let Ok(SchemaRef::Component(i)) = schema_of(t, old(gen).inline_flags()) {
                assert(component_of(r->Ok_0@[0]) == Some(i));
                if old(gen).registered().contains(i) {
                    let k = choose|k: int| 0 <= k < old(gen).registered().len() && old(gen).registered()[k] == i;
                    assert(gen.registered()[k] == i);
                } else {
                    assert(gen.registered().last() == i);
                }
            }
        }
    }
    r
}

} // verus!
