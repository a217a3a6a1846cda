//! Reader for the DMM tile-map text format: a dictionary of keyed object
//! lists followed by a grid of coordinates mapped to key sequences.
//!
//! Text is parsed by a grammar (`grammar` states it, `parser` runs it) into
//! a syntax tree (`syntax`), which `convert` turns into a map (`model`)
//! whose keys are decoded by the key codec (`key`).

pub mod assoc;
pub mod convert;
pub mod decode;
pub mod error;
pub mod grammar;
pub mod key;
pub mod lex;
pub mod literal;
pub mod model;
pub mod parser;
pub mod syntax;
pub mod text;

pub use decode::from_str;
pub use error::Error;
pub use key::{Key, KeyStrConverter};
pub use literal::Literal;
pub use model::{Coords, Datum, GridIterator, DMM};
