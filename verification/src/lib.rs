//! FAR (Float ARray): an interpreter of a small stack language in which
//! every value is an array of floating-point numbers.

pub mod text;
pub mod error;
pub mod token;
pub mod output;
pub mod input;
pub mod vector;
pub mod store;
pub mod machine;
pub mod console;

pub use console::{classify, LineKind};
pub use error::FarError;
pub use input::parseinput;
pub use machine::{Action, Event, Interpreter};
pub use output::{prettyformat, tryconvert};
pub use token::{Command, Relation};
pub use vector::vecop;
