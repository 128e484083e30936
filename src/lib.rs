//! A small HTTP/1.x server's core: the request parser, the session table, the
//! JSON resource store's decisions with its merge-patch policy, and the
//! response writer. Sockets, files and the worker pool live with the caller.

pub mod json;
pub mod models;
pub mod request;
pub mod response;
pub mod session;
pub mod store;
pub mod text;

pub use request::{parse_request, parse_request_bytes, HttpRequest, Method, ParseError};
pub use response::{render_response, HttpResponse};
pub use session::{Server, SessionTable};
pub use store::{
    create_plan, create_reply, delete_reply, document_path, get_reply, handle_method_not_allowed,
    merge_patch, patch_plan, patch_reply, replace_plan, replace_reply, Lookup, Removal,
    WriteOutcome,
};
