//! A text macro-expansion engine.
//!
//! A template is a text with delimiter-bracketed placeholders (`${name}` by
//! default). Rendering resolves every placeholder against a set of variables,
//! a snapshot of the environment and a record of include files, and expands
//! the result again while it still holds placeholders, up to a fixed depth.
//! A render never fails: a variable that is not bound, a file that cannot be
//! read, a placeholder that does not close and a text that would expand
//! without end all give less output, never an error.
//!
//! The keys that a placeholder can hold:
//!
//! | key                    | gives                                              |
//! |------------------------|----------------------------------------------------|
//! | `name`                 | the value of a variable                            |
//! | `name:-text`           | the value, or `text` where there is none           |
//! | `!path.inc`            | the content of a file                              |
//! | `?name=value:-text`    | `text`, where `name` is bound to `value`           |
//! | `*name`, `*,name`      | the value of `name`, once for each element of the lists it refers to |
//! | `=name`                | the value, never expanded again                    |
//! | `#name`                | the next element of a list, round and round        |
//!
//! The library reads neither the environment nor the file system. A [`Host`]
//! carries what a render may read of them; [`Template::pending_include`] names
//! the next file that a render needs and that the host does not hold yet.
//!
//! The modules, from the leaves up: [`text`] (trimming, searching and
//! splitting character sequences), [`table`] and [`variables`] (what a render
//! reads), [`scanner`] (where the placeholders stand), [`directive`] (what a
//! key asks for), [`multi`] (the fan-out over value lists), [`model`] (what a
//! render gives, as mathematics), [`render`] (the renderer), [`template`]
//! (the type that callers hold) and [`laws`] (what holds of every render).
pub mod directive;
pub mod laws;
pub mod model;
pub mod multi;
pub mod render;
pub mod scanner;
pub mod table;
pub mod template;
pub mod text;
pub mod variables;

pub use crate::template::Template;
pub use crate::variables::{Host, Variables};
