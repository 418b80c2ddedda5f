//! The response types that can be documented, as tags: one per supported
//! shape, with the status and content-type wrappers given as small tables.
use vstd::prelude::*;
use crate::generator::{DataType, DataTypeId};
use crate::model::MediaType;

verus! {

/// A wrapper that fixes the status code of its inner response.
#[derive(Clone, Copy, Debug, PartialEq, Eq, Structural)]
pub enum StatusWrapper {
    Accepted,
    Created,
    BadRequest,
    NotFound,
}

impl StatusWrapper {
    pub open spec fn spec_code(self) -> u16 {
        match self {
            StatusWrapper::Accepted => 202,
            StatusWrapper::Created => 201,
            StatusWrapper::BadRequest => 400,
            StatusWrapper::NotFound => 404,
        }
    }

    /// The status code that this wrapper sets.
    pub fn code(&self) -> (r: u16)
        ensures
            r == self.spec_code(),
    {
        match self {
            StatusWrapper::Accepted => 202,
            StatusWrapper::Created => 201,
            StatusWrapper::BadRequest => 400,
            StatusWrapper::NotFound => 404,
        }
    }
}

/// A wrapper that fixes the content type of its inner response.
#[derive(Clone, Copy, Debug, PartialEq, Eq, Structural)]
pub enum ContentWrapper {
    Css,
    Html,
    JavaScript,
    Json,
    MsgPack,
    Plain,
    Xml,
}

impl ContentWrapper {
    pub open spec fn spec_media_type(self) -> MediaType {
        match self {
            ContentWrapper::Css => MediaType::TextCss,
            ContentWrapper::Html => MediaType::TextHtml,
            ContentWrapper::JavaScript => MediaType::ApplicationJavascript,
            ContentWrapper::Json => MediaType::ApplicationJson,
            ContentWrapper::MsgPack => MediaType::ApplicationMsgpack,
            ContentWrapper::Plain => MediaType::TextPlain,
            ContentWrapper::Xml => MediaType::TextXml,
        }
    }

    /// The media type that this wrapper forces.
    pub fn media_type(&self) -> (r: MediaType)
        ensures
            r == self.spec_media_type(),
    {
        match self {
            ContentWrapper::Css => MediaType::TextCss,
            ContentWrapper::Html => MediaType::TextHtml,
            ContentWrapper::JavaScript => MediaType::ApplicationJavascript,
            ContentWrapper::Json => MediaType::ApplicationJson,
            ContentWrapper::MsgPack => MediaType::ApplicationMsgpack,
            ContentWrapper::Plain => MediaType::TextPlain,
            ContentWrapper::Xml => MediaType::TextXml,
        }
    }
}

/// The shape of a handler's response type.
#[derive(Debug)]
pub enum ResponseShape {
    /// A JSON body holding a value of a type.
    Json(DataType),
    /// An untyped JSON value.
    JsonValue,
    /// An owned text string.
    Text,
    /// A borrowed string view.
    TextRef,
    /// An owned binary buffer.
    Bytes,
    /// A borrowed binary buffer.
    ByteSlice,
    /// The empty response.
    Unit,
    /// A value that may be absent.
    Optional(Box<ResponseShape>),
    /// A response whose status code is fixed by a wrapper.
    Status(StatusWrapper, Box<ResponseShape>),
    /// A response whose content type is fixed by a wrapper.
    Content(ContentWrapper, Box<ResponseShape>),
    /// Either a success response or an error response.
    Fallible(Box<ResponseShape>, Box<ResponseShape>),
    /// A responder with no documentation rule of its own, named by its id
    /// among the generator's types.
    Undocumented(DataTypeId),
}

impl ResponseShape {
    /// Whether this shape has a documentation rule.
    pub open spec fn has_rule(self) -> bool
        decreases self,
    {
        match self {
            ResponseShape::Undocumented(_) => false,
            ResponseShape::Optional(t) => t.has_rule(),
            ResponseShape::Status(_, t) => t.has_rule(),
            ResponseShape::Content(_, t) => t.has_rule(),
            ResponseShape::Fallible(t, _) => t.has_rule(),
            _ => true,
        }
    }

    /// Whether this shape has a documentation rule: an undocumented
    /// responder has none, and a wrapper has one where its inner shape (for
    /// a fallible response, its success shape) has one.
    pub fn is_documented(&self) -> (r: bool)
        ensures
            r == self.has_rule(),
        decreases self,
    {
        match self {
            ResponseShape::Undocumented(_) => false,
            ResponseShape::Optional(t) => t.is_documented(),
            ResponseShape::Status(_, t) => t.is_documented(),
            ResponseShape::Content(_, t) => t.is_documented(),
            ResponseShape::Fallible(t, _) => t.is_documented(),
            _ => true,
        }
    }
}

} // verus!
