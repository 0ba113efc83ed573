pub mod calc;
pub mod http;
pub mod server;
pub mod text;
