//! A compact summary of a working tree's status for a shell prompt: a parser
//! for the null-separated machine-readable status text, and a renderer that
//! turns the resulting counters into a colorized prompt fragment.
//!
//! - `status`: the summary, its model, and the parser.
//! - `delta`: signed decimal fields.
//! - `text`: splitting at a separator, and comparing with a literal.
//! - `render`: the prompt fragment.
//! - `source`: the untracked-files mode the status command is asked for.
//! - `laws`: properties of the parser.
pub mod delta;
pub mod laws;
pub mod render;
pub mod source;
pub mod status;
pub mod text;
