use proc_macro2::Span;
use vstd::prelude::*;

verus! {

/// proc_macro2's `Span`, held opaque: the source position a token carries
/// through the rewrite.
#[verifier::external_type_specification]
#[verifier::external_body]
pub struct ExSpan(proc_macro2::Span);

/// How a group's contents are delimited.
#[derive(Clone, Copy, Debug, PartialEq, Eq, Structural)]
pub enum Delimiter {
    Parenthesis,
    Brace,
    Bracket,
    Invisible,
}

/// Whether a punctuation character is joined to the one after it (`=>`).
#[derive(Clone, Copy, Debug, PartialEq, Eq, Structural)]
pub enum Spacing {
    Alone,
    Joint,
}

/// One token tree: a leaf, or a delimited group that owns its contents.
#[derive(Debug)]
pub enum Token {
    /// An identifier or keyword, known by its spelling.
    Ident { name: String, span: Span },
    /// A punctuation character.
    Punct { ch: char, spacing: Spacing, span: Span },
    /// A literal, as the source wrote it (`42u8`, `"a\n"`).
    Literal { text: String, span: Span },
    /// A string literal known by its value rather than by its source text.
    Str { value: String, span: Span },
    /// A delimited sequence of tokens.
    Group { delimiter: Delimiter, stream: Vec<Token>, span: Span },
}

/// The mathematical value of a [`Token`].
pub enum TokenModel {
    Ident { name: Seq<char>, span: Span },
    Punct { ch: char, spacing: Spacing, span: Span },
    Literal { text: Seq<char>, span: Span },
    Str { value: Seq<char>, span: Span },
    Group { delimiter: Delimiter, stream: Seq<TokenModel>, span: Span },
}

/// The model of one token.
pub open spec fn token_model(t: Token) -> TokenModel
    decreases t,
{
    match t {
        Token::Ident { name, span } => TokenModel::Ident { name: name@, span },
        Token::Punct { ch, spacing, span } => TokenModel::Punct { ch, spacing, span },
        Token::Literal { text, span } => TokenModel::Literal { text: text@, span },
        Token::Str { value, span } => TokenModel::Str { value: value@, span },
        Token::Group { delimiter, stream, span } => {
            TokenModel::Group { delimiter, stream: tokens_model(stream@), span }
        },
    }
}

/// The model of a sequence of tokens, element by element.
pub open spec fn tokens_model(s: Seq<Token>) -> Seq<TokenModel>
    decreases s,
{
    if s.len() == 0 {
        Seq::empty()
    } else {
        tokens_model(s.subrange(0, s.len() - 1)).push(token_model(s[s.len() - 1]))
    }
}

/// The model of a sequence has one entry for each token, in order.
pub proof fn lemma_tokens_model(s: Seq<Token>)
    ensures
        tokens_model(s).len() == s.len(),
        forall|i: int| 0 <= i < s.len() ==> #[trigger] tokens_model(s)[i] == token_model(s[i]),
    decreases s.len(),
{
    if s.len() > 0 {
        lemma_tokens_model(s.subrange(0, s.len() - 1));
    }
}

/// Appending a token appends its model.
pub proof fn lemma_tokens_model_push(s: Seq<Token>, t: Token)
    ensures
        tokens_model(s.push(t)) == tokens_model(s).push(token_model(t)),
{
    assert(s.push(t).subrange(0, s.len() as int) =~= s);
}

impl View for Token {
    type V = TokenModel;

    open spec fn view(&self) -> TokenModel {
        token_model(*self)
    }
}

} // verus!
