//! A verified parser for the `.http` request-file dialect: a text file holds
//! one or more HTTP request descriptions, separated by lines of three or more
//! `#` characters, and each is parsed into a structured request descriptor.

pub mod chars;
pub mod driver;
pub mod error;
pub mod header;
pub mod laws;
pub mod lines;
pub mod machine;
pub mod model;
pub mod request;
pub mod spinner;

pub use driver::parse;
pub use error::Error;
pub use header::Header;
pub use lines::LineSource;
pub use machine::Parser;
pub use model::{AppState, Scroll};
pub use request::HttpRequest;
pub use spinner::SpinnerState;
