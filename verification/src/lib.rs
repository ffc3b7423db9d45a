//! Typed JSON-over-HTTP RPC building blocks: schema derivation for declared
//! data types, a serializer that provably agrees with the derived schemas,
//! error classification, request routing and a verified handler pipeline.

pub mod decl;
pub mod error;
pub mod error_attrs;
pub mod derive;
pub mod handler;
pub mod json;
pub mod laws;
pub mod router;
pub mod schema;
pub mod text;
pub mod value;

use vstd::prelude::*;

verus! {

pub use error::ApiError;
pub use error::IntoApiError;
pub use handler::Method;
pub use router::Api;
pub use router::RouteBuilder;
pub use router::RouteError;
pub use router::RouteInfo;
pub use schema::ApiBodyInfo;
pub use schema::ApiBodyStructInfo;
pub use schema::ApiBodyType;

} // verus!
