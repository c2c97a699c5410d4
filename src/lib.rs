//! An embeddable HTTP/1.1 server core: a wire codec, an ordered route table
//! guarded by a middleware chain, and the to-do list domain it serves.
pub mod codec;
pub mod config;
pub mod document;
pub mod error;
pub mod http_types;
pub mod manager;
pub mod pool;
pub mod router;
pub mod section;
pub mod text;

pub use config::{Action, Command, Config};
pub use document::Document;
pub use error::{Error, IoFailure};
pub use http_types::{Headers, Method, Request, Response};
pub use manager::{DefaultManager, Manager, Repo};
pub use pool::{Next, WorkQueue};
pub use router::{Handler, Middleware, RequireHeader, RequireJsonBody, Router};
pub use section::Section;
