//! A template-driven parser generator.
//!
//! A template mixes literal tokens with capture holes (`#<name>`, `#<a | @b>`,
//! `#<v>?` or `#<v?>`), control constructs (`#<FOR: Record>`, `#<SEQ: @items>`) and
//! brace blocks. [`quote_template`] turns the template's tokens into a
//! [`Parser`]; [`Parser::parse`] reads an input token stream with it and
//! yields the [`Record`] named by `<FOR>`.

pub mod token;
pub mod scan;
pub mod model;
pub mod run;
pub mod laws;


pub use token::{Tok, TokKind, Delim};
pub use scan::{Binding, Item, GenError, scan};
pub use model::{Mult, Field, Step, Parser, build, quote_template};
pub use run::{Capture, ParseError, Value, Record, token_ends};
