pub mod bytes;
pub mod codec;
pub mod mime;
pub mod path;
pub mod request;
pub mod response;
pub mod server;
