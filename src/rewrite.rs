use crate::token::{
    lemma_tokens_model, lemma_tokens_model_push, token_model, tokens_model, Delimiter, Spacing, Token,
    TokenModel,
};
use proc_macro2::Span;
use vstd::prelude::*;

verus! {

/// What the scan of one level has seen of a function header so far.
pub struct Scan {
    /// The keyword `fn` was seen and no name has been taken after it.
    pub expecting: bool,
    /// The name of a function whose body has not been reached yet.
    pub pending: Option<Seq<char>>,
}

/// The state at the start of every level.
pub open spec fn scan_start() -> Scan {
    Scan { expecting: false, pending: None }
}

/// The spelling of the keyword that opens a function.
pub open spec fn keyword() -> Seq<char> {
    seq!['f', 'n']
}

/// The scan state after an identifier spelled `name`.
pub open spec fn after_ident(scan: Scan, name: Seq<char>) -> Scan {
    if name == keyword() {
        Scan { expecting: true, pending: scan.pending }
    } else if scan.expecting {
        Scan { expecting: false, pending: Some(name) }
    } else {
        scan
    }
}

pub open spec fn ident_model(name: Seq<char>, site: Span) -> TokenModel {
    TokenModel::Ident { name, span: site }
}

pub open spec fn punct_model(ch: char, spacing: Spacing, site: Span) -> TokenModel {
    TokenModel::Punct { ch, spacing, span: site }
}

/// `macro_rules! function_name { () => ("<name>") }`, every token at `site`.
pub open spec fn injected_declaration(name: Seq<char>, site: Span) -> Seq<TokenModel> {
    let args = TokenModel::Group { delimiter: Delimiter::Parenthesis, stream: seq![], span: site };
    let value = TokenModel::Group {
        delimiter: Delimiter::Parenthesis,
        stream: seq![TokenModel::Str { value: name, span: site }],
        span: site,
    };
    let rules = TokenModel::Group {
        delimiter: Delimiter::Brace,
        stream: seq![
            args,
            punct_model('=', Spacing::Joint, site),
            punct_model('>', Spacing::Alone, site),
            value,
        ],
        span: site,
    };
    seq![
        ident_model(seq!['m', 'a', 'c', 'r', 'o', '_', 'r', 'u', 'l', 'e', 's'], site),
        punct_model('!', Spacing::Alone, site),
        ident_model(
            seq!['f', 'u', 'n', 'c', 't', 'i', 'o', 'n', '_', 'n', 'a', 'm', 'e'],
            site,
        ),
        rules,
    ]
}

/// The rewrite of one level that starts in state `scan`: each group's
/// contents are rewritten as a level of their own, and the first brace group
/// after a function's name gets that name's declaration in front.
pub open spec fn rewrite_level(ts: Seq<TokenModel>, scan: Scan, site: Span) -> Seq<TokenModel>
    decreases ts,
{
    if ts.len() == 0 {
        Seq::empty()
    } else {
        let rest = ts.subrange(1, ts.len() as int);
        match ts[0] {
            TokenModel::Ident { name, span } => {
                seq![ts[0]] + rewrite_level(rest, after_ident(scan, name), site)
            },
            TokenModel::Group { delimiter, stream, span } => {
                let inner = rewrite_level(stream, scan_start(), site);
                if delimiter == Delimiter::Brace && scan.pending is Some {
                    let body = injected_declaration(scan.pending->0, site) + inner;
                    seq![TokenModel::Group { delimiter, stream: body, span }] + rewrite_level(
                        rest,
                        scan_start(),
                        site,
                    )
                } else {
                    seq![TokenModel::Group { delimiter, stream: inner, span }] + rewrite_level(
                        rest,
                        scan,
                        site,
                    )
                }
            },
            _ => seq![ts[0]] + rewrite_level(rest, scan, site),
        }
    }
}

/// The rewrite of a whole tree.
pub open spec fn rewrite_tokens(ts: Seq<TokenModel>, site: Span) -> Seq<TokenModel> {
    rewrite_level(ts, scan_start(), site)
}

/// The scan state that the executable scan holds.
pub open spec fn scan_of(expecting: bool, pending: Option<String>) -> Scan {
    Scan {
        expecting,
        pending: match pending {
            Some(name) => Some(name@),
            None => None,
        },
    }
}

/// The model of two sequences joined is the two models joined.
pub proof fn lemma_tokens_model_concat(a: Seq<Token>, b: Seq<Token>)
    ensures
        tokens_model(a + b) == tokens_model(a) + tokens_model(b),
{
    lemma_tokens_model(a);
    lemma_tokens_model(b);
    lemma_tokens_model(a + b);
    assert(tokens_model(a + b) =~= tokens_model(a) + tokens_model(b));
}

/// Emitting one more token adds its model in front of what is left to emit.
proof fn lemma_emit(before: Seq<Token>, t: Token, tail: Seq<TokenModel>)
    ensures
        tokens_model(before.push(t)) + tail == tokens_model(before) + (seq![token_model(t)] + tail),
{
    lemma_tokens_model_push(before, t);
    assert(tokens_model(before).push(token_model(t)) + tail =~= tokens_model(before) + (seq![
        token_model(t),
    ] + tail));
}

/// Whether `name` is spelled as the keyword that opens a function.
fn is_keyword(name: &String) -> (b: bool)
    ensures
        b == (name@ == keyword()),
{
    let kw = "fn".to_owned();
    proof {
        reveal_strlit("fn");
        assert("fn"@ =~= keyword());
    }
    *name == kw
}

fn ident(text: &str, site: Span) -> (t: Token)
    ensures
        t@ == ident_model(text@, site),
{
    Token::Ident { name: text.to_owned(), span: site }
}

fn punct(ch: char, spacing: Spacing, site: Span) -> (t: Token)
    ensures
        t@ == punct_model(ch, spacing, site),
{
    Token::Punct { ch, spacing, span: site }
}

fn group(delimiter: Delimiter, stream: Vec<Token>, site: Span) -> (t: Token)
    ensures
        t@ == (TokenModel::Group { delimiter, stream: tokens_model(stream@), span: site }),
{
    Token::Group { delimiter, stream, span: site }
}

/// Builds the declaration that makes `function_name!()` expand to `name`.
pub fn declaration(name: String, site: Span) -> (r: Vec<Token>)
    ensures
        tokens_model(r@) == injected_declaration(name@, site),
{
    let mut value: Vec<Token> = Vec::new();
    value.push(Token::Str { value: name, span: site });
    let mut rules: Vec<Token> = Vec::new();
    rules.push(group(Delimiter::Parenthesis, Vec::new(), site));
    rules.push(punct('=', Spacing::Joint, site));
    rules.push(punct('>', Spacing::Alone, site));
    rules.push(group(Delimiter::Parenthesis, value, site));
    let mut r: Vec<Token> = Vec::new();
    r.push(ident("macro_rules", site));
    r.push(punct('!', Spacing::Alone, site));
    r.push(ident("function_name", site));
    r.push(group(Delimiter::Brace, rules, site));
    proof {
        reveal_strlit("macro_rules");
        reveal_strlit("function_name");
        assert("macro_rules"@ =~= seq!['m', 'a', 'c', 'r', 'o', '_', 'r', 'u', 'l', 'e', 's']);
        assert("function_name"@ =~= seq![
            'f', 'u', 'n', 'c', 't', 'i', 'o', 'n', '_', 'n', 'a', 'm', 'e',
        ]);
        lemma_tokens_model(value@);
        lemma_tokens_model(rules@);
        lemma_tokens_model(r@);
        lemma_tokens_model(Seq::<Token>::empty());
        let decl = injected_declaration(name@, site);
        assert(tokens_model(value@) =~= decl[3]->stream[3]->stream);
        assert(tokens_model(rules@) =~= decl[3]->stream);
        assert(tokens_model(r@) =~= decl);
    }
    r
}

/// Rewrites a token tree: every function body (the first brace group after
/// `fn` and a name, at the same level) starts with the declaration of
/// `function_name!()` for that function, its tokens placed at `site`. Nothing
/// else changes; a group keeps its delimiter and its span.
pub fn rewrite(input: Vec<Token>, site: Span) -> (r: Vec<Token>)
    ensures
        tokens_model(r@) == rewrite_tokens(tokens_model(input@), site),
    decreases input,
{
    let ghost inp = input@;
    let ghost all = tokens_model(input@);
    proof {
        lemma_tokens_model(input@);
        assert(all.subrange(0, all.len() as int) =~= all);
        lemma_tokens_model(Seq::<Token>::empty());
    }
    let mut output: Vec<Token> = Vec::new();
    let mut expecting: bool = false;
    let mut pending: Option<String> = None;
    for tt in it: input.into_iter()
        invariant
            it.seq() == inp,
            all.len() == inp.len(),
            forall|i: int| 0 <= i < inp.len() ==> #[trigger] all[i] == token_model(inp[i]),
            rewrite_tokens(all, site) == tokens_model(output@) + rewrite_level(
                all.subrange(it.index() as int, all.len() as int),
                scan_of(expecting, pending),
                site,
            ),
    {
        let ghost i = it.index() as int;
        let ghost before = output@;
        let ghost scan = scan_of(expecting, pending);
        let ghost rest = all.subrange(i + 1, all.len() as int);
        proof {
            assert(all.subrange(i, all.len() as int).subrange(1, all.len() - i) =~= rest);
            assert(all.subrange(i, all.len() as int)[0] == token_model(tt));
        }
        match tt {
            Token::Ident { name, span } => {
                if is_keyword(&name) {
                    expecting = true;
                } else if expecting {
                    pending = Some(name.clone());
                    expecting = false;
                }
                let ghost t = Token::Ident { name, span };
                output.push(Token::Ident { name, span });
                proof {
                    lemma_emit(before, t, rewrite_level(rest, scan_of(expecting, pending), site));
                }
            },
            Token::Group { delimiter, stream, span } => {
                let inner = rewrite(stream, site);
                let body = match pending {
                    Some(name) if delimiter == Delimiter::Brace => {
                        let mut decl = declaration(name, site);
                        let mut inner = inner;
                        let ghost d = decl@;
                        let ghost n = inner@;
                        decl.append(&mut inner);
                        proof {
                            lemma_tokens_model_concat(d, n);
                        }
                        expecting = false;
                        pending = None;
                        decl
                    },
                    _ => inner,
                };
                let ghost t = Token::Group { delimiter, stream: body, span };
                output.push(Token::Group { delimiter, stream: body, span });
                proof {
                    lemma_emit(before, t, rewrite_level(rest, scan_of(expecting, pending), site));
                }
            },
            other => {
                let ghost t = other;
                output.push(other);
                proof {
                    lemma_emit(before, t, rewrite_level(rest, scan, site));
                }
            },
        }
    }
    proof {
        assert(all.subrange(all.len() as int, all.len() as int) =~= Seq::<TokenModel>::empty());
        assert(tokens_model(output@) + Seq::<TokenModel>::empty() =~= tokens_model(output@));
    }
    output
}

} // verus!
