//! Static size and call report for WebAssembly binaries.
//!
//! The crate walks the section structure of a module or component, keeps one
//! record per declared function, tallies the `call` instructions found in the
//! function bodies, and groups the functions into namespaces inferred from
//! their debug names.

pub mod code;
pub mod cursor;
pub mod dump;
pub mod error;
pub mod functions;
pub mod names;
pub mod namespace;
pub mod printer;
pub mod render;
pub mod sections;
pub mod session;
pub mod stream;
pub mod summary;

pub use dump::{replay, Dump, Opts};
pub use error::Error;
pub use functions::FunctionInfo;
