//! The data types a worker passes around.

pub use crate::request::HttpRequest;
pub use crate::response::HttpResponse;
pub use crate::session::Server;
