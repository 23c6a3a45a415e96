//! A command-line interpreter engine over bounded text buffers: characters
//! are gathered into a line, the line is split into tokens, the first token
//! selects a command of a fixed table, and its callback gets the rest.

pub mod args;
pub mod buffer;
pub mod cli;
pub mod cmd;
pub mod device;
pub mod error;
pub mod help;
pub mod interpreter;
pub mod numeral;
pub mod text;
pub mod utils;

pub use buffer::BoundedString;
pub use cli::Cli;
pub use cmd::{Cmd, Registry};
pub use error::Error;
pub use interpreter::Interpreter;
