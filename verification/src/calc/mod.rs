pub mod error;
pub mod operation;
pub mod operations;

pub use error::CalcError;
pub use operation::OperationRegistry;
pub use operations::{AddOperation, DivOperation, MulOperation, SubOperation};
