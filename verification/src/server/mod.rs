pub mod handler;
pub mod router;

pub use handler::{ConnectionAction, ConnectionState};
pub use router::{Route, Router};
