use crate::rewrite::{rewrite, rewrite_tokens};
use crate::token::{tokens_model, Token};
use proc_macro2::Span;
use vstd::prelude::*;

verus! {

/// Relies on proc_macro2's `Span::call_site`: the span of the macro's
/// invocation, which depends on the macro call being expanded.
pub assume_specification[ proc_macro2::Span::call_site ]() -> proc_macro2::Span;

/// Why an invocation was refused.
#[derive(Clone, Copy, Debug, PartialEq, Eq, Structural)]
pub enum ConfigError {
    /// The attribute was given arguments; it takes none.
    InvalidConfiguration,
}

/// The diagnostic reported for arguments given to the attribute.
pub open spec fn config_error_message() -> Seq<char> {
    "unexpected attribute arguments"@
}

impl ConfigError {
    /// The diagnostic for this error.
    pub fn message(&self) -> (r: &'static str)
        ensures
            r@ == config_error_message(),
    {
        "unexpected attribute arguments"
    }
}

/// Checks that no arguments were given, then rewrites `input`.
pub fn named_impl(params: Vec<Token>, input: Vec<Token>, site: Span) -> (r: Result<
    Vec<Token>,
    ConfigError,
>)
    ensures
        r is Err <==> params@.len() > 0,
        r matches Err(e) ==> e == ConfigError::InvalidConfiguration,
        r matches Ok(out) ==> tokens_model(out@) == rewrite_tokens(tokens_model(input@), site),
{
    if params.len() > 0 {
        return Err(ConfigError::InvalidConfiguration);
    }
    Ok(rewrite(input, site))
}

/// Checks that no arguments were given, then rewrites `input`, its
/// generated tokens placed at the invocation's call site.
pub fn named_functions(params: Vec<Token>, input: Vec<Token>) -> (r: Result<
    Vec<Token>,
    ConfigError,
>)
    ensures
        r is Err <==> params@.len() > 0,
        r matches Err(e) ==> e == ConfigError::InvalidConfiguration,
        r matches Ok(out) ==> exists|site: Span|
            tokens_model(out@) == #[trigger] rewrite_tokens(tokens_model(input@), site),
{
    let site = Span::call_site();
    named_impl(params, input, site)
}

} // verus!
