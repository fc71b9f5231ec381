use crate::rewrite::{
    after_ident, injected_declaration, keyword, rewrite_level, rewrite_tokens, scan_start, Scan,
};
use crate::token::{Delimiter, TokenModel};
use proc_macro2::Span;
use vstd::prelude::*;

verus! {

/// Whether no identifier spelled `fn` occurs in the tree, at any depth.
pub open spec fn keyword_free(ts: Seq<TokenModel>) -> bool
    decreases ts,
{
    if ts.len() == 0 {
        true
    } else {
        let head = match ts[0] {
            TokenModel::Ident { name, span } => name != keyword(),
            TokenModel::Group { delimiter, stream, span } => keyword_free(stream),
            _ => true,
        };
        head && keyword_free(ts.subrange(1, ts.len() as int))
    }
}

/// Whether no brace group stands at the top level of `ts`.
pub open spec fn no_brace_group(ts: Seq<TokenModel>) -> bool {
    forall|i: int|
        0 <= i < ts.len() ==> !(#[trigger] ts[i] matches TokenModel::Group { delimiter, .. }
            && delimiter == Delimiter::Brace)
}

/// Whether `t` is the keyword `fn`.
pub open spec fn is_keyword_token(t: TokenModel) -> bool {
    t matches TokenModel::Ident { name, .. } && name == keyword()
}

/// Whether `t` is an identifier other than `fn`, which can name a function.
pub open spec fn is_name_token(t: TokenModel) -> bool {
    t matches TokenModel::Ident { name, .. } && name != keyword()
}

/// A brace group: a function body when it follows a function's header.
pub open spec fn brace(stream: Seq<TokenModel>, span: Span) -> TokenModel {
    TokenModel::Group { delimiter: Delimiter::Brace, stream, span }
}

/// The scan state at the end of the level `ts`, started in state `scan`.
pub open spec fn scan_after(ts: Seq<TokenModel>, scan: Scan, site: Span) -> Scan
    decreases ts.len(),
{
    if ts.len() == 0 {
        scan
    } else {
        let rest = ts.subrange(1, ts.len() as int);
        match ts[0] {
            TokenModel::Ident { name, span } => scan_after(rest, after_ident(scan, name), site),
            TokenModel::Group { delimiter, stream, span } => {
                if delimiter == Delimiter::Brace && scan.pending is Some {
                    scan_after(rest, scan_start(), site)
                } else {
                    scan_after(rest, scan, site)
                }
            },
            _ => scan_after(rest, scan, site),
        }
    }
}

/// A level can be rewritten in two parts: the second part starts in the
/// state in which the first one ends.
pub proof fn lemma_rewrite_concat(a: Seq<TokenModel>, b: Seq<TokenModel>, scan: Scan, site: Span)
    ensures
        rewrite_level(a + b, scan, site) == rewrite_level(a, scan, site) + rewrite_level(
            b,
            scan_after(a, scan, site),
            site,
        ),
    decreases a.len(),
{
    if a.len() == 0 {
        assert(a + b =~= b);
        assert(rewrite_level(a, scan, site) + rewrite_level(b, scan, site) =~= rewrite_level(
            b,
            scan,
            site,
        ));
    } else {
        let rest = a.subrange(1, a.len() as int);
        assert((a + b).subrange(1, (a + b).len() as int) =~= rest + b);
        assert((a + b)[0] == a[0]);
        let next = match a[0] {
            TokenModel::Ident { name, span } => after_ident(scan, name),
            TokenModel::Group { delimiter, stream, span } => {
                if delimiter == Delimiter::Brace && scan.pending is Some {
                    scan_start()
                } else {
                    scan
                }
            },
            _ => scan,
        };
        lemma_rewrite_concat(rest, b, next, site);
        let head = rewrite_level(a, scan, site).subrange(0, 1);
        assert(rewrite_level(a, scan, site) =~= head + rewrite_level(rest, next, site));
        assert(rewrite_level(a + b, scan, site) =~= head + rewrite_level(rest + b, next, site));
    }
}

/// A level in which no function header starts, and which either holds no
/// brace group or has no name pending, passes through unchanged and leaves
/// the scan state as it found it.
pub proof fn lemma_quiet_level(ts: Seq<TokenModel>, scan: Scan, site: Span)
    requires
        keyword_free(ts),
        !scan.expecting,
        scan.pending is None || no_brace_group(ts),
    ensures
        rewrite_level(ts, scan, site) == ts,
        scan_after(ts, scan, site) == scan,
    decreases ts,
{
    if ts.len() > 0 {
        let rest = ts.subrange(1, ts.len() as int);
        assert(no_brace_group(ts) ==> no_brace_group(rest)) by {
            if no_brace_group(ts) {
                assert forall|i: int| 0 <= i < rest.len() implies !(#[trigger] rest[i] matches TokenModel::Group { delimiter, .. }
                    && delimiter == Delimiter::Brace) by {
                    assert(rest[i] == ts[i + 1]);
                }
            }
        }
        lemma_quiet_level(rest, scan, site);
        match ts[0] {
            TokenModel::Group { delimiter, stream, span } => {
                assert(decreases_to!(ts => ts[0]));
                lemma_quiet_level(stream, scan_start(), site);
                assert(no_brace_group(ts) ==> !(ts[0] matches TokenModel::Group { delimiter, .. }
                    && delimiter == Delimiter::Brace));
            },
            _ => {},
        }
        assert(rewrite_level(ts, scan, site) =~= seq![ts[0]] + rest);
        assert(seq![ts[0]] + rest =~= ts);
    }
}

/// A tree in which the keyword `fn` does not occur is left as it is.
pub proof fn lemma_no_keyword_unchanged(ts: Seq<TokenModel>, site: Span)
    requires
        keyword_free(ts),
    ensures
        rewrite_tokens(ts, site) == ts,
{
    lemma_quiet_level(ts, scan_start(), site);
}

/// The header `fn <name>` followed by tokens that hold no keyword and no
/// brace group: the name is pending, and those tokens pass unchanged.
proof fn lemma_header(kw: TokenModel, nm: TokenModel, header: Seq<TokenModel>, site: Span)
    requires
        is_keyword_token(kw),
        is_name_token(nm),
        keyword_free(header),
        no_brace_group(header),
    ensures
        rewrite_tokens(seq![kw, nm] + header, site) == seq![kw, nm] + header,
        scan_after(seq![kw, nm] + header, scan_start(), site) == (Scan {
            expecting: false,
            pending: Some(nm->Ident_name),
        }),
{
    let named = Scan { expecting: false, pending: Some(nm->Ident_name) };
    let after_kw = Scan { expecting: true, pending: None };
    lemma_quiet_level(header, named, site);
    lemma_rewrite_concat(seq![kw, nm], header, scan_start(), site);
    let two = seq![kw, nm];
    assert(two.subrange(1, 2) =~= seq![nm]);
    assert(seq![nm].subrange(1, 1) =~= Seq::<TokenModel>::empty());
    assert(seq![nm][0] == nm);
    assert(after_ident(after_kw, nm->Ident_name) == named);
    assert(rewrite_level(Seq::<TokenModel>::empty(), named, site) == Seq::<TokenModel>::empty());
    assert(scan_after(Seq::<TokenModel>::empty(), named, site) == named);
    assert(rewrite_level(seq![nm], after_kw, site) =~= seq![nm]);
    assert(rewrite_level(two, scan_start(), site) =~= two);
    assert(scan_after(seq![nm], after_kw, site) == named);
    assert(scan_after(two, scan_start(), site) == named);
    lemma_scan_after_concat(two, header, scan_start(), site);
}

/// A function at the top level of a tree, between tokens that hold no
/// keyword: its body gets the declaration of its own name in front of the
/// rewritten body, and everything else stays as it was. Between the name and
/// the body stand no keyword and no other brace group.
pub proof fn lemma_single_function(
    prefix: Seq<TokenModel>,
    kw: TokenModel,
    nm: TokenModel,
    header: Seq<TokenModel>,
    body: Seq<TokenModel>,
    span: Span,
    suffix: Seq<TokenModel>,
    site: Span,
)
    requires
        keyword_free(prefix),
        is_keyword_token(kw),
        is_name_token(nm),
        keyword_free(header),
        no_brace_group(header),
        keyword_free(suffix),
    ensures
        rewrite_tokens(prefix + (seq![kw, nm] + header) + (seq![brace(body, span)] + suffix), site)
            == prefix + (seq![kw, nm] + header) + (seq![
            brace(
                injected_declaration(nm->Ident_name, site) + rewrite_tokens(body, site),
                span,
            ),
        ] + suffix),
{
    let start = scan_start();
    let head = seq![kw, nm] + header;
    let tail = seq![brace(body, span)] + suffix;
    let named = Scan { expecting: false, pending: Some(nm->Ident_name) };
    lemma_quiet_level(prefix, start, site);
    lemma_header(kw, nm, header, site);
    lemma_quiet_level(suffix, start, site);
    lemma_rewrite_concat(prefix + head, tail, start, site);
    lemma_rewrite_concat(prefix, head, start, site);
    assert(tail.subrange(1, tail.len() as int) =~= suffix);
    assert(scan_after(prefix + head, start, site) == named) by {
        lemma_scan_after_concat(prefix, head, start, site);
    }
}

/// One function whose body holds no further function: its body becomes the
/// declaration of its name followed by the original body tokens, unchanged
/// and in order; nothing else changes.
pub proof fn lemma_single_injection(
    prefix: Seq<TokenModel>,
    kw: TokenModel,
    nm: TokenModel,
    header: Seq<TokenModel>,
    body: Seq<TokenModel>,
    span: Span,
    suffix: Seq<TokenModel>,
    site: Span,
)
    requires
        keyword_free(prefix),
        is_keyword_token(kw),
        is_name_token(nm),
        keyword_free(header),
        no_brace_group(header),
        keyword_free(body),
        keyword_free(suffix),
    ensures
        rewrite_tokens(prefix + (seq![kw, nm] + header) + (seq![brace(body, span)] + suffix), site)
            == prefix + (seq![kw, nm] + header) + (seq![
            brace(injected_declaration(nm->Ident_name, site) + body, span),
        ] + suffix),
{
    lemma_single_function(prefix, kw, nm, header, body, span, suffix, site);
    lemma_no_keyword_unchanged(body, site);
}

/// A function `inner` defined in the body of a function `outer`: the body of
/// `inner` starts with the declaration of "inner", the body of `outer` with
/// the declaration of "outer", and no other declaration is added, so the
/// tokens of `outer`'s body after `inner` see the declaration of "outer".
pub proof fn lemma_nested_function_shadows(
    kw_outer: TokenModel,
    outer: TokenModel,
    header_outer: Seq<TokenModel>,
    before: Seq<TokenModel>,
    kw_inner: TokenModel,
    inner: TokenModel,
    header_inner: Seq<TokenModel>,
    body_inner: Seq<TokenModel>,
    span_inner: Span,
    after: Seq<TokenModel>,
    span_outer: Span,
    site: Span,
)
    requires
        is_keyword_token(kw_outer),
        is_name_token(outer),
        keyword_free(header_outer),
        no_brace_group(header_outer),
        keyword_free(before),
        is_keyword_token(kw_inner),
        is_name_token(inner),
        keyword_free(header_inner),
        no_brace_group(header_inner),
        keyword_free(body_inner),
        keyword_free(after),
    ensures
        ({
            let body_outer = before + (seq![kw_inner, inner] + header_inner) + (seq![
                brace(body_inner, span_inner),
            ] + after);
            let new_inner = brace(
                injected_declaration(inner->Ident_name, site) + body_inner,
                span_inner,
            );
            let new_body_outer = before + (seq![kw_inner, inner] + header_inner) + (seq![new_inner]
                + after);
            rewrite_tokens(
                seq![kw_outer, outer] + header_outer + seq![brace(body_outer, span_outer)],
                site,
            ) == seq![kw_outer, outer] + header_outer + seq![
                brace(injected_declaration(outer->Ident_name, site) + new_body_outer, span_outer),
            ]
        }),
{
    let empty = Seq::<TokenModel>::empty();
    let body_outer = before + (seq![kw_inner, inner] + header_inner) + (seq![
        brace(body_inner, span_inner),
    ] + after);
    lemma_single_injection(
        before,
        kw_inner,
        inner,
        header_inner,
        body_inner,
        span_inner,
        after,
        site,
    );
    lemma_single_function(
        empty,
        kw_outer,
        outer,
        header_outer,
        body_outer,
        span_outer,
        empty,
        site,
    );
    let head = seq![kw_outer, outer] + header_outer;
    assert(empty + head =~= head);
    assert(seq![brace(body_outer, span_outer)] + empty =~= seq![brace(body_outer, span_outer)]);
    let out = injected_declaration(outer->Ident_name, site) + rewrite_tokens(body_outer, site);
    assert(seq![brace(out, span_outer)] + empty =~= seq![brace(out, span_outer)]);
}

/// The state after two parts is the state after the second part, started
/// in the state after the first.
proof fn lemma_scan_after_concat(a: Seq<TokenModel>, b: Seq<TokenModel>, scan: Scan, site: Span)
    ensures
        scan_after(a + b, scan, site) == scan_after(b, scan_after(a, scan, site), site),
    decreases a.len(),
{
    if a.len() == 0 {
        assert(a + b =~= b);
    } else {
        let rest = a.subrange(1, a.len() as int);
        assert((a + b).subrange(1, (a + b).len() as int) =~= rest + b);
        assert((a + b)[0] == a[0]);
        let next = match a[0] {
            TokenModel::Ident { name, span } => after_ident(scan, name),
            TokenModel::Group { delimiter, stream, span } => {
                if delimiter == Delimiter::Brace && scan.pending is Some {
                    scan_start()
                } else {
                    scan
                }
            },
            _ => scan,
        };
        lemma_scan_after_concat(rest, b, next, site);
    }
}

/// A function header followed by no body (a declaration that ends in `;`)
/// gets no declaration anywhere: when no keyword and no brace group follow
/// its name, the tree is left as it is.
pub proof fn lemma_header_without_body(
    kw: TokenModel,
    nm: TokenModel,
    rest: Seq<TokenModel>,
    site: Span,
)
    requires
        is_keyword_token(kw),
        is_name_token(nm),
        keyword_free(rest),
        no_brace_group(rest),
    ensures
        rewrite_tokens(seq![kw, nm] + rest, site) == seq![kw, nm] + rest,
{
    lemma_header(kw, nm, rest, site);
}

/// Whether `out` is what the rewrite makes of the group `g`: the same
/// delimiter and span, and its contents rewritten, maybe with one
/// declaration in front.
pub open spec fn rewritten_group(g: TokenModel, out: TokenModel, site: Span) -> bool {
    &&& g matches TokenModel::Group { delimiter, stream, span }
    &&& out matches TokenModel::Group { delimiter: d, stream: s, span: sp }
    &&& d == delimiter
    &&& sp == span
    &&& (s == rewrite_tokens(stream, site) || exists|name: Seq<char>|
        s == #[trigger] injected_declaration(name, site) + rewrite_tokens(stream, site))
}

/// In any scan state, a level keeps its length and positions: each token that
/// is not a group comes out as it went in, and each group comes out at the
/// same index with its delimiter and its span, its contents rewritten.
pub proof fn lemma_level_positions(ts: Seq<TokenModel>, scan: Scan, site: Span)
    ensures
        rewrite_level(ts, scan, site).len() == ts.len(),
        forall|i: int|
            0 <= i < ts.len() ==> if ts[i] is Group {
                rewritten_group(ts[i], #[trigger] rewrite_level(ts, scan, site)[i], site)
            } else {
                rewrite_level(ts, scan, site)[i] == ts[i]
            },
    decreases ts.len(),
{
    if ts.len() > 0 {
        let rest = ts.subrange(1, ts.len() as int);
        let next = match ts[0] {
            TokenModel::Ident { name, span } => after_ident(scan, name),
            TokenModel::Group { delimiter, stream, span } => {
                if delimiter == Delimiter::Brace && scan.pending is Some {
                    scan_start()
                } else {
                    scan
                }
            },
            _ => scan,
        };
        lemma_level_positions(rest, next, site);
        let r = rewrite_level(ts, scan, site);
        assert(r == seq![r[0]] + rewrite_level(rest, next, site));
        assert forall|i: int| 0 <= i < ts.len() implies if ts[i] is Group {
            rewritten_group(ts[i], #[trigger] r[i], site)
        } else {
            r[i] == ts[i]
        } by {
            if i > 0 {
                assert(ts[i] == rest[i - 1]);
                assert(r[i] == rewrite_level(rest, next, site)[i - 1]);
            } else if scan.pending is Some {
                let name = scan.pending->0;
                assert(ts[0] is Group ==> rewritten_group(ts[0], r[0], site)) by {
                    if ts[0] is Group && ts[0]->Group_delimiter == Delimiter::Brace {
                        assert(r[0]->Group_stream == injected_declaration(name, site)
                            + rewrite_tokens(ts[0]->Group_stream, site));
                    }
                }
            }
        }
    }
}

/// The rewrite keeps every level's length and positions: each token that is
/// not a group comes out as it went in, and each group comes out at the same
/// index with its delimiter and its span, its contents rewritten in the same
/// way. So every group of the input keeps its span, at any depth, and no
/// level loses a token.
pub proof fn lemma_group_spans_kept(ts: Seq<TokenModel>, site: Span)
    ensures
        rewrite_tokens(ts, site).len() == ts.len(),
        forall|i: int|
            0 <= i < ts.len() ==> if ts[i] is Group {
                rewritten_group(ts[i], #[trigger] rewrite_tokens(ts, site)[i], site)
            } else {
                rewrite_tokens(ts, site)[i] == ts[i]
            },
{
    lemma_level_positions(ts, scan_start(), site);
}

} // verus!
