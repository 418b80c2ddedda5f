use rocket_okapi::generator::{DataType, DataTypeId, SchemaGenerator};
use rocket_okapi::model::{Body, MediaType, ResolveError, ResponseEntry, SchemaRef};
use rocket_okapi::resolver::{
    bytes_responses, byte_slice_responses, json_responses, json_value_responses,
    resolve_responses, str_responses, string_responses, unit_responses,
};
use rocket_okapi::response_set::ResponseSet;
use rocket_okapi::shape::{ContentWrapper, ResponseShape, StatusWrapper};

fn with_user() -> (SchemaGenerator, DataTypeId) {
    let mut gen = SchemaGenerator::new();
    let user = gen.register_type("UserRecord".to_string(), false);
    (gen, user)
}

fn json_entry(status: u16, id: DataTypeId) -> ResponseEntry {
    ResponseEntry {
        status,
        body: Some(Body { media_type: MediaType::ApplicationJson, schema: Some(SchemaRef::Component(id.index)) }),
    }
}

fn empty(status: u16) -> ResponseEntry {
    ResponseEntry { status, body: None }
}

fn text_entry(status: u16) -> ResponseEntry {
    ResponseEntry {
        status,
        body: Some(Body { media_type: MediaType::TextPlain, schema: Some(SchemaRef::Str) }),
    }
}

fn boxed(s: ResponseShape) -> Box<ResponseShape> {
    Box::new(s)
}

#[test]
fn json_body_documents_200_json_schema() {
    let (mut gen, user) = with_user();
    let r = resolve_responses(&ResponseShape::Json(DataType::Registered(user)), &mut gen).unwrap();
    assert_eq!(r.entries(), &vec![json_entry(200, user)]);
    assert_eq!(gen.components(), &vec![user.index]);
}

#[test]
fn unit_documents_empty_200() {
    let mut gen = SchemaGenerator::new();
    let r = resolve_responses(&ResponseShape::Unit, &mut gen).unwrap();
    assert_eq!(r.entries(), &vec![empty(200)]);
    assert_eq!(unit_responses().unwrap().entries(), &vec![empty(200)]);
}

#[test]
fn optional_json_adds_404() {
    let (mut gen, user) = with_user();
    let shape = ResponseShape::Optional(boxed(ResponseShape::Json(DataType::Registered(user))));
    let r = resolve_responses(&shape, &mut gen).unwrap();
    assert_eq!(r.entries(), &vec![json_entry(200, user), empty(404)]);
}

#[test]
fn created_renames_200_to_201() {
    let (mut gen, user) = with_user();
    let shape = ResponseShape::Status(StatusWrapper::Created, boxed(ResponseShape::Json(DataType::Registered(user))));
    let r = resolve_responses(&shape, &mut gen).unwrap();
    assert_eq!(r.entries(), &vec![json_entry(201, user)]);
    assert!(r.get(200).is_none());
}

#[test]
fn resolving_twice_is_deterministic() {
    let (mut g1, u1) = with_user();
    let (mut g2, u2) = with_user();
    let shape = ResponseShape::Fallible(
        boxed(ResponseShape::Optional(boxed(ResponseShape::Json(DataType::Registered(u1))))),
        boxed(ResponseShape::Status(StatusWrapper::BadRequest, boxed(ResponseShape::Text))),
    );
    let shape2 = ResponseShape::Fallible(
        boxed(ResponseShape::Optional(boxed(ResponseShape::Json(DataType::Registered(u2))))),
        boxed(ResponseShape::Status(StatusWrapper::BadRequest, boxed(ResponseShape::Text))),
    );
    let a = resolve_responses(&shape, &mut g1).unwrap();
    let b = resolve_responses(&shape2, &mut g2).unwrap();
    assert_eq!(a.entries(), b.entries());
    let again = resolve_responses(&shape, &mut g1).unwrap();
    assert_eq!(a.entries(), again.entries());
    assert_eq!(g1.components(), &vec![u1.index]);
}

#[test]
fn optional_keeps_inner_codes() {
    let mut gen = SchemaGenerator::new();
    let inner = ResponseShape::Fallible(boxed(ResponseShape::Text), boxed(ResponseShape::Undocumented(DataTypeId { index: 9 })));
    let shape = ResponseShape::Optional(boxed(ResponseShape::Fallible(
        boxed(ResponseShape::Text),
        boxed(ResponseShape::Undocumented(DataTypeId { index: 9 })),
    )));
    let t = resolve_responses(&inner, &mut gen).unwrap();
    let o = resolve_responses(&shape, &mut gen).unwrap();
    assert_eq!(t.entries(), &vec![text_entry(200), empty(500)]);
    assert_eq!(o.entries(), &vec![text_entry(200), empty(500), empty(404)]);
}

#[test]
fn optional_of_not_found_keeps_one_404() {
    let mut gen = SchemaGenerator::new();
    let shape = ResponseShape::Optional(boxed(ResponseShape::Optional(boxed(ResponseShape::Unit))));
    let o = resolve_responses(&shape, &mut gen).unwrap();
    assert_eq!(o.entries(), &vec![empty(200), empty(404)]);
}

#[test]
fn status_wrapper_keeps_other_entries() {
    let mut gen = SchemaGenerator::new();
    let shape = ResponseShape::Status(
        StatusWrapper::Accepted,
        boxed(ResponseShape::Optional(boxed(ResponseShape::Text))),
    );
    let r = resolve_responses(&shape, &mut gen).unwrap();
    assert_eq!(r.entries(), &vec![text_entry(202), empty(404)]);
}

#[test]
fn status_wrapper_replaces_clashing_entry() {
    let mut gen = SchemaGenerator::new();
    let shape = ResponseShape::Status(
        StatusWrapper::NotFound,
        boxed(ResponseShape::Optional(boxed(ResponseShape::Text))),
    );
    let r = resolve_responses(&shape, &mut gen).unwrap();
    assert_eq!(r.entries(), &vec![text_entry(404)]);
}

#[test]
fn set_status_code_drops_displaced_entry_and_keeps_order() {
    let mut s = ResponseSet::new();
    s.add_content_response(200, Body { media_type: MediaType::TextPlain, schema: Some(SchemaRef::Str) }).unwrap();
    s.ensure_status_code_exists(500);
    s.ensure_status_code_exists(400);
    s.ensure_status_code_exists(404);
    assert_eq!(s.set_status_code(400), Ok(()));
    assert_eq!(s.entries(), &vec![text_entry(400), empty(500), empty(404)]);
}

#[test]
fn status_codes_of_wrappers() {
    assert_eq!(StatusWrapper::Accepted.code(), 202);
    assert_eq!(StatusWrapper::Created.code(), 201);
    assert_eq!(StatusWrapper::BadRequest.code(), 400);
    assert_eq!(StatusWrapper::NotFound.code(), 404);
}

#[test]
fn content_wrapper_forces_media_type() {
    let (mut gen, user) = with_user();
    let shape = ResponseShape::Content(
        ContentWrapper::Html,
        boxed(ResponseShape::Optional(boxed(ResponseShape::Json(DataType::Registered(user))))),
    );
    let r = resolve_responses(&shape, &mut gen).unwrap();
    let html = |status: u16, schema: Option<SchemaRef>| ResponseEntry {
        status,
        body: Some(Body { media_type: MediaType::TextHtml, schema }),
    };
    assert_eq!(r.entries(), &vec![html(200, Some(SchemaRef::Component(user.index))), html(404, None)]);
}

#[test]
fn content_wrapper_media_types() {
    assert_eq!(ContentWrapper::Css.media_type().as_str(), "text/css");
    assert_eq!(ContentWrapper::Html.media_type().as_str(), "text/html");
    assert_eq!(ContentWrapper::JavaScript.media_type().as_str(), "application/javascript");
    assert_eq!(ContentWrapper::Json.media_type().as_str(), "application/json");
    assert_eq!(ContentWrapper::MsgPack.media_type().as_str(), "application/msgpack");
    assert_eq!(ContentWrapper::Plain.media_type().as_str(), "text/plain");
    assert_eq!(ContentWrapper::Xml.media_type().as_str(), "text/xml");
    assert_eq!(MediaType::OctetStream.as_str(), "application/octet-stream");
}

#[test]
fn result_with_disjoint_error_merges() {
    let (mut gen, user) = with_user();
    let err = gen.register_type("ApiError".to_string(), false);
    let shape = ResponseShape::Fallible(
        boxed(ResponseShape::Json(DataType::Registered(user))),
        boxed(ResponseShape::Status(StatusWrapper::BadRequest, boxed(ResponseShape::Json(DataType::Registered(err))))),
    );
    let r = resolve_responses(&shape, &mut gen).unwrap();
    assert_eq!(r.entries(), &vec![json_entry(200, user), json_entry(400, err)]);
    assert_eq!(gen.components(), &vec![user.index, err.index]);
}

#[test]
fn result_with_conflicting_error_fails() {
    let (mut gen, user) = with_user();
    let err = gen.register_type("ApiError".to_string(), false);
    let shape = ResponseShape::Fallible(boxed(ResponseShape::Json(DataType::Registered(user))), boxed(ResponseShape::Json(DataType::Registered(err))));
    let r = resolve_responses(&shape, &mut gen);
    assert_eq!(r.err(), Some(ResolveError::ResponseMergeConflict { status: 200 }));
}

#[test]
fn result_with_equal_error_entries_merges_once() {
    let mut gen = SchemaGenerator::new();
    let shape = ResponseShape::Fallible(boxed(ResponseShape::Text), boxed(ResponseShape::TextRef));
    let r = resolve_responses(&shape, &mut gen).unwrap();
    assert_eq!(r.entries(), &vec![text_entry(200)]);
}

#[test]
fn result_with_undocumented_error_adds_500() {
    let mut gen = SchemaGenerator::new();
    let shape = ResponseShape::Fallible(boxed(ResponseShape::Bytes), boxed(ResponseShape::Undocumented(DataTypeId { index: 9 })));
    let r = resolve_responses(&shape, &mut gen).unwrap();
    let bin = ResponseEntry { status: 200, body: Some(Body { media_type: MediaType::OctetStream, schema: None }) };
    assert_eq!(r.entries(), &vec![bin, empty(500)]);
}

#[test]
fn result_with_failing_success_type_fails() {
    let mut gen = SchemaGenerator::new();
    let redirect = gen.register_type("Redirect".to_string(), false);
    let shape = ResponseShape::Fallible(boxed(ResponseShape::Undocumented(redirect)), boxed(ResponseShape::Text));
    assert!(!shape.is_documented());
    let r = resolve_responses(&shape, &mut gen);
    assert_eq!(r.err(), Some(ResolveError::UnsupportedResponseType { type_id: redirect.index }));
}

#[test]
fn undocumented_shapes_are_unsupported() {
    let mut gen = SchemaGenerator::new();
    let stream = gen.register_type("ByteStream".to_string(), false);
    let r = resolve_responses(&ResponseShape::Undocumented(stream), &mut gen);
    assert_eq!(r.err(), Some(ResolveError::UnsupportedResponseType { type_id: 0 }));
    assert_eq!(gen.name_of(stream).map(|s| s.as_str()), Some("ByteStream"));
    let shape = ResponseShape::Optional(boxed(ResponseShape::Undocumented(stream)));
    assert_eq!(resolve_responses(&shape, &mut gen).err(), Some(ResolveError::UnsupportedResponseType { type_id: 0 }));
}

#[test]
fn json_string_has_the_text_schema() {
    let mut gen = SchemaGenerator::new();
    let j = resolve_responses(&ResponseShape::Json(DataType::String), &mut gen).unwrap();
    let t = resolve_responses(&ResponseShape::Text, &mut gen).unwrap();
    let json_str = ResponseEntry {
        status: 200,
        body: Some(Body { media_type: MediaType::ApplicationJson, schema: Some(SchemaRef::Str) }),
    };
    assert_eq!(j.entries(), &vec![json_str]);
    assert_eq!(t.entries(), &vec![text_entry(200)]);
    assert!(gen.components().is_empty());
}

#[test]
fn inline_types_generate_no_component() {
    let mut gen = SchemaGenerator::new();
    let count = gen.register_type("uint32".to_string(), true);
    assert_eq!(gen.is_inline(count), Some(true));
    let r = json_responses(&mut gen, DataType::Registered(count)).unwrap();
    let inline = ResponseEntry {
        status: 200,
        body: Some(Body { media_type: MediaType::ApplicationJson, schema: Some(SchemaRef::Inline(0)) }),
    };
    assert_eq!(r.entries(), &vec![inline]);
    assert!(gen.components().is_empty());
}

#[test]
fn second_json_resolution_adds_no_component() {
    let (mut gen, user) = with_user();
    let a = json_responses(&mut gen, DataType::Registered(user)).unwrap();
    let b = json_responses(&mut gen, DataType::Registered(user)).unwrap();
    assert_eq!(a.entries(), b.entries());
    assert_eq!(gen.components(), &vec![user.index]);
}

#[test]
fn unknown_data_type_fails_schema_generation() {
    let mut gen = SchemaGenerator::new();
    let r = json_responses(&mut gen, DataType::Registered(DataTypeId { index: 3 }));
    assert_eq!(r.err(), Some(ResolveError::SchemaGenerationFailure { type_id: 3 }));
    assert!(gen.components().is_empty());
}

#[test]
fn primitive_shapes() {
    let mut gen = SchemaGenerator::new();
    let any = ResponseEntry {
        status: 200,
        body: Some(Body { media_type: MediaType::ApplicationJson, schema: Some(SchemaRef::Any) }),
    };
    assert_eq!(json_value_responses(&mut gen).unwrap().entries(), &vec![any]);
    assert_eq!(string_responses(&mut gen).unwrap().entries(), &vec![text_entry(200)]);
    assert_eq!(str_responses(&mut gen).unwrap().entries(), &vec![text_entry(200)]);
    let bin = ResponseEntry { status: 200, body: Some(Body { media_type: MediaType::OctetStream, schema: None }) };
    assert_eq!(bytes_responses().unwrap().entries(), &vec![bin]);
    assert_eq!(byte_slice_responses().unwrap().entries(), &vec![bin]);
    assert!(gen.components().is_empty());
}

#[test]
fn json_schema_is_generated_once() {
    let (mut gen, user) = with_user();
    assert_eq!(gen.json_schema(DataType::Registered(user)), Ok(SchemaRef::Component(0)));
    assert_eq!(gen.json_schema(DataType::Registered(user)), Ok(SchemaRef::Component(0)));
    assert_eq!(gen.components(), &vec![0]);
    assert!(gen.is_generated(0));
    assert_eq!(gen.name_of(user).map(|s| s.as_str()), Some("UserRecord"));
    assert!(gen.name_of(DataTypeId { index: 1 }).is_none());
}

#[test]
fn set_status_code_on_empty_set_fails() {
    let mut s = ResponseSet::new();
    assert_eq!(s.set_status_code(201), Err(ResolveError::StatusRewriteFailure { status: 201 }));
    assert_eq!(s.len(), 0);
}

#[test]
fn ensure_status_code_exists_is_idempotent() {
    let mut s = ResponseSet::new();
    s.ensure_status_code_exists(500);
    s.ensure_status_code_exists(500);
    assert_eq!(s.entries(), &vec![empty(500)]);
    assert_eq!(s.position(500), Some(0));
    assert_eq!(s.position(200), None);
}

#[test]
fn add_content_response_fills_and_conflicts() {
    let mut s = ResponseSet::new();
    s.ensure_status_code_exists(200);
    let text = Body { media_type: MediaType::TextPlain, schema: Some(SchemaRef::Str) };
    assert_eq!(s.add_content_response(200, text), Ok(()));
    assert_eq!(s.add_schema_response(200, MediaType::TextPlain, SchemaRef::Str), Ok(()));
    let json = Body { media_type: MediaType::ApplicationJson, schema: Some(SchemaRef::Any) };
    assert_eq!(s.add_content_response(200, json), Err(ResolveError::ResponseMergeConflict { status: 200 }));
    assert_eq!(s.entries(), &vec![text_entry(200)]);
}

#[test]
fn merge_reports_first_conflict_of_second_set() {
    let mut a = ResponseSet::new();
    a.ensure_status_code_exists(200);
    a.ensure_status_code_exists(404);
    let mut b = ResponseSet::new();
    b.ensure_status_code_exists(500);
    b.add_content_response(404, Body { media_type: MediaType::TextPlain, schema: None }).unwrap();
    let r = a.produce_any_responses(b);
    assert_eq!(r.err(), Some(ResolveError::ResponseMergeConflict { status: 404 }));
}

#[test]
fn error_messages() {
    assert_eq!(ResolveError::UnsupportedResponseType { type_id: 0 }.message(), "response type has no documentation rule");
    assert_eq!(
        ResolveError::ResponseMergeConflict { status: 200 }.message(),
        "conflicting responses for one status code"
    );
}
