mod text;
pub mod escape;
pub mod grammar;
pub mod matcher;
pub mod parser;
pub mod textual;

pub use escape::{unescape, EscapeError};
pub use matcher::{Matcher, Path};
pub use parser::{parse, ParseError};
