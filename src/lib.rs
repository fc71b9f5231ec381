//! Injects a `function_name!()` macro at the start of every function body of
//! a token tree, so that code inside a function can name the function.
//!
//! A function body is the first brace group that follows the keyword `fn`
//! and a name at the same level of the tree. The declaration put in front of
//! it is `macro_rules! function_name { () => ("<name>") }`; a function nested
//! in that body gets its own, which shadows the outer one inside it.

pub mod entry;
pub mod laws;
pub mod rewrite;
pub mod token;

pub use entry::{named_functions, named_impl, ConfigError};
pub use rewrite::{declaration, rewrite};
pub use token::{Delimiter, Spacing, Token, TokenModel};
