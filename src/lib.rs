//! Derivation of OpenAPI response descriptions from the shape of a
//! handler's declared response type.
pub mod model;
pub mod response_set;
pub mod generator;
pub mod shape;
pub mod resolver;
pub mod laws;
