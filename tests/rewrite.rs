use named_functions_macro::{
    declaration, named_functions, named_impl, rewrite, ConfigError, Delimiter, Spacing, Token,
};
use proc_macro2::{Span, TokenStream, TokenTree};

fn convert(ts: TokenStream) -> Vec<Token> {
    ts.into_iter()
        .map(|tt| match tt {
            TokenTree::Group(g) => Token::Group {
                delimiter: match g.delimiter() {
                    proc_macro2::Delimiter::Parenthesis => Delimiter::Parenthesis,
                    proc_macro2::Delimiter::Brace => Delimiter::Brace,
                    proc_macro2::Delimiter::Bracket => Delimiter::Bracket,
                    proc_macro2::Delimiter::None => Delimiter::Invisible,
                },
                stream: convert(g.stream()),
                span: g.span(),
            },
            TokenTree::Ident(i) => Token::Ident { name: i.to_string(), span: i.span() },
            TokenTree::Punct(p) => Token::Punct {
                ch: p.as_char(),
                spacing: match p.spacing() {
                    proc_macro2::Spacing::Alone => Spacing::Alone,
                    proc_macro2::Spacing::Joint => Spacing::Joint,
                },
                span: p.span(),
            },
            TokenTree::Literal(l) => Token::Literal { text: l.to_string(), span: l.span() },
        })
        .collect()
}

fn tokens(src: &str) -> Vec<Token> {
    convert(src.parse::<TokenStream>().unwrap())
}

fn render(ts: &[Token]) -> String {
    let mut out: Vec<String> = Vec::new();
    for t in ts {
        out.push(match t {
            Token::Ident { name, .. } => name.clone(),
            Token::Punct { ch, spacing, .. } => match spacing {
                Spacing::Joint => format!("{}~", ch),
                Spacing::Alone => ch.to_string(),
            },
            Token::Literal { text, .. } => text.clone(),
            Token::Str { value, .. } => format!("<{}>", value),
            Token::Group { delimiter, stream, .. } => {
                let inner = if stream.is_empty() {
                    " ".to_string()
                } else {
                    format!(" {} ", render(stream))
                };
                match delimiter {
                    Delimiter::Parenthesis => format!("({})", inner),
                    Delimiter::Brace => format!("{{{}}}", inner),
                    Delimiter::Bracket => format!("[{}]", inner),
                    Delimiter::Invisible => format!("<{}>", inner),
                }
            }
        });
    }
    out.join(" ")
}

fn decl(name: &str) -> String {
    format!("macro_rules ! function_name {{ ( ) =~ > ( <{}> ) }}", name)
}

fn run(src: &str) -> String {
    render(&rewrite(tokens(src), Span::call_site()))
}

fn group_spans(ts: &[Token], out: &mut Vec<String>) {
    for t in ts {
        if let Token::Group { stream, span, .. } = t {
            out.push(format!("{:?}", span));
            group_spans(stream, out);
        }
    }
}

#[test]
fn tree_without_functions_is_unchanged() {
    let src = "struct S { a: u8 } impl S { const X: u8 = 1; } let v = [1, 2]; { x }";
    assert_eq!(run(src), render(&tokens(src)));
}

#[test]
fn empty_tree_is_unchanged() {
    assert!(rewrite(Vec::new(), Span::call_site()).is_empty());
}

#[test]
fn single_function_gets_its_name() {
    assert_eq!(
        run("pub fn foo(x: u8) -> u8 { x + 1 }"),
        format!("pub fn foo ( x : u8 ) -~ > u8 {{ {} x + 1 }}", decl("foo"))
    );
}

#[test]
fn empty_body_gets_declaration_alone() {
    assert_eq!(run("fn f() {}"), format!("fn f ( ) {{ {} }}", decl("f")));
}

#[test]
fn nested_function_shadows_outer_name() {
    assert_eq!(
        run("fn outer() { let a = 1; fn inner() { b } c }"),
        format!(
            "fn outer ( ) {{ {} let a = 1 ; fn inner ( ) {{ {} b }} c }}",
            decl("outer"),
            decl("inner")
        )
    );
}

#[test]
fn every_function_of_a_level_gets_its_own_name() {
    assert_eq!(
        run("fn a() { 1 } fn b() { 2 }"),
        format!("fn a ( ) {{ {} 1 }} fn b ( ) {{ {} 2 }}", decl("a"), decl("b"))
    );
}

#[test]
fn functions_inside_other_groups_are_found() {
    assert_eq!(
        run("impl S { fn m(&self) { } }"),
        format!("impl S {{ fn m ( & self ) {{ {} }} }}", decl("m"))
    );
}

#[test]
fn forward_declaration_gets_no_injection() {
    let src = "fn foo(x: u8) -> u8;";
    assert_eq!(run(src), render(&tokens(src)));
}

#[test]
fn pending_name_reaches_next_brace_group() {
    assert_eq!(
        run("fn foo(); struct S { a: u8 }"),
        format!("fn foo ( ) ; struct S {{ {} a : u8 }}", decl("foo"))
    );
}

#[test]
fn keyword_without_name_injects_nothing() {
    let src = "let f: fn(u8); ";
    assert_eq!(run(src), render(&tokens(src)));
    let src = "fn";
    assert_eq!(run(src), render(&tokens(src)));
}

#[test]
fn keyword_in_inner_group_does_not_reach_outer_level() {
    let src = "( fn ) foo { x }";
    assert_eq!(run(src), render(&tokens(src)));
}

#[test]
fn keyword_then_group_then_name_is_still_captured() {
    assert_eq!(
        run("fn (u8) g { y }"),
        format!("fn ( u8 ) g {{ {} y }}", decl("g"))
    );
}

#[test]
fn literals_and_punctuation_pass_through() {
    assert_eq!(
        run("fn f() { \"s\\n\" 'c' 1.5f32 a::b => #[x] }"),
        format!("fn f ( ) {{ {} \"s\\n\" 'c' 1.5f32 a :~ : b =~ > # [ x ] }}", decl("f"))
    );
}

#[test]
fn group_spans_are_kept() {
    let src = "fn outer(a: (u8, u8)) { [1]; fn inner() { (2) } }";
    let input = tokens(src);
    let mut before = Vec::new();
    group_spans(&input, &mut before);
    let output = rewrite(input, Span::call_site());
    let mut after = Vec::new();
    group_spans(&output, &mut after);
    // The injected declarations add groups at the call site; the others keep theirs.
    let site = format!("{:?}", Span::call_site());
    let kept: Vec<String> = after.into_iter().filter(|s| *s != site).collect();
    assert_eq!(kept, before);
    assert_eq!(before.len(), 7);
    assert!(!before.contains(&site));
}

#[test]
fn top_level_token_count_is_kept() {
    let input = tokens("fn a() { } x y fn b() { z }");
    let n = input.len();
    assert_eq!(rewrite(input, Span::call_site()).len(), n);
}

#[test]
fn declaration_binds_the_name() {
    let d = declaration("my_fn".to_string(), Span::call_site());
    assert_eq!(render(&d), decl("my_fn"));
    assert_eq!(d.len(), 4);
}

#[test]
fn arguments_are_rejected() {
    let r = named_impl(tokens("x"), tokens("fn f() {}"), Span::call_site());
    assert!(matches!(r, Err(ConfigError::InvalidConfiguration)));
    assert_eq!(
        ConfigError::InvalidConfiguration.message(),
        "unexpected attribute arguments"
    );
}

#[test]
fn arguments_are_rejected_by_entry_point() {
    let r = named_functions(tokens("a = 1"), tokens("fn f() {}"));
    assert!(matches!(r, Err(ConfigError::InvalidConfiguration)));
}

#[test]
fn empty_arguments_rewrite_item() {
    let r = named_impl(Vec::new(), tokens("fn f() { 1 }"), Span::call_site());
    assert_eq!(render(&r.unwrap()), format!("fn f ( ) {{ {} 1 }}", decl("f")));
    let r = named_functions(Vec::new(), tokens("mod m { fn g() {} }"));
    assert_eq!(
        render(&r.unwrap()),
        format!("mod m {{ fn g ( ) {{ {} }} }}", decl("g"))
    );
}
