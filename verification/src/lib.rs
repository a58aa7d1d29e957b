//! A minimal HTTP/1.1 request-response engine: decoding of requests,
//! routing, and encoding of responses, with verified contracts.

pub mod config;
pub mod connection;
pub mod error;
pub mod framing;
pub mod headers;
pub mod laws;
pub mod lossy;
pub mod method;
pub mod request;
pub mod response;
pub mod router;
pub mod text;

pub use connection::{decode, decode_text, respond_to_text, respond_via_http};
pub use error::DecodeError;
pub use headers::Headers;
pub use method::HttpMethod;
pub use request::HttpRequest;
pub use response::HttpResponse;
pub use router::{Action, ReadOutcome, WriteOutcome};
