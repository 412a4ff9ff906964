//! The value types of the protocol: status codes, header values, requests,
//! responses, bodies and documents.

pub mod body;
pub use body::Body;

pub mod document;
pub use document::Document;

pub mod meta;
pub use meta::Meta;

pub mod request;
pub use request::Certificate;
pub use request::Request;

pub mod response;
pub use response::Response;

pub mod response_header;
pub use response_header::ResponseHeader;

pub mod status;
pub use status::Status;
pub use status::StatusCategory;
