//! The parser: tokens into an expression.
//!
//! The grammar, in terms of the lexer's tokens:
//!
//! ```text
//! Expr := "(" Expr Expr* ")" | "true" | "false" | string | identifier
//! ```
//!
//! The whole input is one `Expr`. Parsing stops at the first error.
use vstd::prelude::*;
use vstd::utf8::{encode_utf8, is_char_boundary};
use crate::ast::{Expr, ExprM, ExprS, ExprSM, ExprIdentifier, IdentifierKind, expr_s_view, exprs_view, has_ascii_head, kind_of_sigil, lemma_exprs_view};
use crate::errors::{ErrorSM, ExprErrorS, ExprResult, SyntaxError, error_s_view, errors_view, from_parser_error_spec};
use crate::lexer::{
    LexItem, LexItemM, Token, TokenM, ident_head_ok, idents_have_heads, lex, lex_item_view, lex_items_view,
    lex_spec, lemma_lex_from_idents, lemma_lex_token_bounds, lexed_token_spans_its_text, lemma_lex_from_errors, token_text,
};
use crate::text::owned;
use crate::types::{Type, TypeM};

verus! {

broadcast use vstd::std_specs::vec::group_vec_axioms;

/// An error found while parsing a sequence of tokens.
#[derive(Debug, PartialEq)]
pub enum ParseError {
    /// An invalid token at a position.
    InvalidToken { location: usize },
    /// The tokens ended where one of `expected` was due.
    UnrecognizedEof { location: usize, expected: Vec<String> },
    /// A token came where one of `expected` was due.
    UnrecognizedToken { token: (usize, Token, usize), expected: Vec<String> },
    /// A token came after a complete expression.
    ExtraToken { token: (usize, Token, usize) },
    /// The lexer reported an error.
    User { error: ExprErrorS },
}

/// The model of a [`ParseError`].
pub enum ParseErrorM {
    InvalidToken(usize),
    UnrecognizedEof(usize, Seq<Seq<char>>),
    UnrecognizedToken(usize, TokenM, usize, Seq<Seq<char>>),
    ExtraToken(usize, TokenM, usize),
    User(ErrorSM),
}

impl View for ParseError {
    type V = ParseErrorM;

    open spec fn view(&self) -> ParseErrorM {
        match self {
            ParseError::InvalidToken { location } => ParseErrorM::InvalidToken(*location),
            ParseError::UnrecognizedEof { location, expected } => ParseErrorM::UnrecognizedEof(
                *location,
                expected@.map_values(|s: String| s@),
            ),
            ParseError::UnrecognizedToken { token, expected } => ParseErrorM::UnrecognizedToken(
                token.0,
                token.1@,
                token.2,
                expected@.map_values(|s: String| s@),
            ),
            ParseError::ExtraToken { token } => ParseErrorM::ExtraToken(token.0, token.1@, token.2),
            ParseError::User { error } => ParseErrorM::User(error_s_view(*error)),
        }
    }
}

/// The token spans an error holds lie on character boundaries of `source`.
pub open spec fn parse_error_spans_ok(e: ParseErrorM, source: Seq<char>) -> bool {
    match e {
        ParseErrorM::UnrecognizedToken(a, _, b, _) | ParseErrorM::ExtraToken(a, _, b) => {
            &&& a <= b <= encode_utf8(source).len()
            &&& is_char_boundary(encode_utf8(source), a as int)
            &&& is_char_boundary(encode_utf8(source), b as int)
        },
        _ => true,
    }
}

/// What may start an expression.
pub open spec fn expected_expr() -> Seq<Seq<char>> {
    seq!["\"(\""@, "\"true\""@, "\"false\""@, "string"@, "identifier"@]
}

/// What may come after the callee inside a call.
pub open spec fn expected_in_call() -> Seq<Seq<char>> {
    seq!["\"(\""@, "\")\""@, "\"true\""@, "\"false\""@, "string"@, "identifier"@]
}

/// A call being read: where its `(` starts, and the expressions read so far,
/// the callee first.
pub struct FrameM {
    pub start: usize,
    pub items: Seq<ExprSM>,
}

/// The type an identifier of kind `k` is known to have: a string for
/// variables, prompts and secrets, any value for client context, and none
/// for builtins.
pub open spec fn kind_type(k: IdentifierKind) -> Option<TypeM> {
    match k {
        IdentifierKind::Var | IdentifierKind::Prompt | IdentifierKind::Secret => Some(TypeM::String),
        IdentifierKind::Client => Some(TypeM::Value),
        IdentifierKind::Builtin => None,
    }
}

/// The expression a literal or identifier token stands for.
pub open spec fn atom_expr(t: TokenM) -> ExprM {
    match t {
        TokenM::Str(s) => ExprM::Str(s),
        TokenM::Ident(w) => ExprM::Ident(w, kind_of_sigil(w[0]), kind_type(kind_of_sigil(w[0]))),
        TokenM::True => ExprM::Bool(true),
        TokenM::False => ExprM::Bool(false),
        _ => ExprM::Error,
    }
}

/// Where a complete expression goes: into the innermost call being read, or,
/// outside any call, it is the whole expression.
pub open spec fn place(stack: Seq<FrameM>, e: ExprSM) -> (Seq<FrameM>, Option<ExprSM>) {
    if stack.len() == 0 {
        (stack, Some(e))
    } else {
        (stack.drop_last().push(FrameM { start: stack.last().start, items: stack.last().items.push(e) }), None)
    }
}

/// The end of the last token read before position `p`, or 0.
pub open spec fn last_end(toks: Seq<LexItemM>, p: nat) -> usize {
    if 0 < p <= toks.len() && toks[p - 1] is Ok {
        toks[p - 1]->Ok_0.2 as usize
    } else {
        0
    }
}

/// Parsing `toks` from position `p` with the calls being read on `stack`
/// and, outside any call, the expression read so far in `done`.
pub open spec fn parse_from(toks: Seq<LexItemM>, p: nat, stack: Seq<FrameM>, done: Option<ExprSM>) -> Result<ExprSM, ParseErrorM>
    decreases toks.len() - p,
{
    if p >= toks.len() {
        let at = last_end(toks, p);
        if stack.len() == 0 {
            match done {
                Some(e) => Ok(e),
                None => Err(ParseErrorM::UnrecognizedEof(at, expected_expr())),
            }
        } else if stack.last().items.len() == 0 {
            Err(ParseErrorM::UnrecognizedEof(at, expected_expr()))
        } else {
            Err(ParseErrorM::UnrecognizedEof(at, expected_in_call()))
        }
    } else {
        match toks[p as int] {
            Err(e) => Err(ParseErrorM::User(e)),
            Ok((a0, t, b0)) => {
                let a = a0 as usize;
                let b = b0 as usize;
                if stack.len() == 0 && done is Some {
                    Err(ParseErrorM::UnrecognizedToken(a, t, b, Seq::empty()))
                } else {
                    match t {
                        TokenM::LParan => parse_from(
                            toks,
                            p + 1,
                            stack.push(FrameM { start: a, items: Seq::empty() }),
                            None,
                        ),
                        TokenM::RParan => if stack.len() == 0 || stack.last().items.len() == 0 {
                            Err(ParseErrorM::UnrecognizedToken(a, t, b, expected_expr()))
                        } else {
                            let f = stack.last();
                            let call = (ExprM::Call(Box::new(f.items[0]), f.items.drop_first()), f.start, b);
                            let (st, d) = place(stack.drop_last(), call);
                            parse_from(toks, p + 1, st, d)
                        },
                        _ => {
                            let (st, d) = place(stack, (atom_expr(t), a, b));
                            parse_from(toks, p + 1, st, d)
                        },
                    }
                }
            },
        }
    }
}

/// Parsing a whole sequence of tokens.
pub open spec fn parse_tokens_spec(toks: Seq<LexItemM>) -> Result<ExprSM, ParseErrorM> {
    parse_from(toks, 0, Seq::empty(), None)
}

/// Parsing source text: the expression, or the one error found.
pub open spec fn parse_spec(source: Seq<char>) -> Result<ExprM, Seq<ErrorSM>> {
    match parse_tokens_spec(lex_spec(source)) {
        Ok(e) => Ok(e.0),
        Err(pe) => Err(seq![from_parser_error_spec(pe, source)]),
    }
}

/// A token error holds a token that was among the tokens.
proof fn lemma_error_token_from_toks(toks: Seq<LexItemM>, p: nat, stack: Seq<FrameM>, done: Option<ExprSM>)
    ensures
        match parse_from(toks, p, stack, done) {
            Err(ParseErrorM::UnrecognizedToken(a, t, b, _)) => exists|q: int|
                p <= q < toks.len() && #[trigger] toks[q] is Ok && toks[q]->Ok_0.0 as usize == a
                    && toks[q]->Ok_0.1 == t && toks[q]->Ok_0.2 as usize == b,
            Err(ParseErrorM::ExtraToken(_, _, _)) => false,
            Err(ParseErrorM::User(e)) => exists|q: int| p <= q < toks.len() && #[trigger] toks[q] == Err::<(int, TokenM, int), ErrorSM>(e),
            _ => true,
        },
    decreases toks.len() - p,
{
    if p < toks.len() {
        if toks[p as int] is Ok {
            let (a0, t, b0) = toks[p as int]->Ok_0;
            let b = b0 as usize;
            if !(stack.len() == 0 && done is Some) {
                match t {
                    TokenM::LParan => {
                        lemma_error_token_from_toks(toks, p + 1, stack.push(FrameM { start: a0 as usize, items: Seq::empty() }), None);
                    },
                    TokenM::RParan => {
                        if !(stack.len() == 0 || stack.last().items.len() == 0) {
                            let f = stack.last();
                            let call = (ExprM::Call(Box::new(f.items[0]), f.items.drop_first()), f.start, b);
                            let (st, d) = place(stack.drop_last(), call);
                            lemma_error_token_from_toks(toks, p + 1, st, d);
                        }
                    },
                    _ => {
                        let (st, d) = place(stack, (atom_expr(t), a0 as usize, b));
                        lemma_error_token_from_toks(toks, p + 1, st, d);
                    },
                }
            }
        }
    }
}

/// A parse that succeeds has read every item from `p` on, and each was a token.
proof fn lemma_ok_reads_all(toks: Seq<LexItemM>, p: nat, stack: Seq<FrameM>, done: Option<ExprSM>, q: int)
    requires
        parse_from(toks, p, stack, done) is Ok,
        p <= q < toks.len(),
    ensures
        toks[q] is Ok,
    decreases toks.len() - p,
{
    if toks[p as int] is Ok {
        let (a0, t, b0) = toks[p as int]->Ok_0;
        let b = b0 as usize;
        if q > p {
            match t {
                TokenM::LParan => {
                    lemma_ok_reads_all(toks, p + 1, stack.push(FrameM { start: a0 as usize, items: Seq::empty() }), None, q);
                },
                TokenM::RParan => {
                    let f = stack.last();
                    let call = (ExprM::Call(Box::new(f.items[0]), f.items.drop_first()), f.start, b);
                    let (st, d) = place(stack.drop_last(), call);
                    lemma_ok_reads_all(toks, p + 1, st, d, q);
                },
                _ => {
                    let (st, d) = place(stack, (atom_expr(t), a0 as usize, b));
                    lemma_ok_reads_all(toks, p + 1, st, d, q);
                },
            }
        }
    }
}

/// Source text the lexer finds an invalid token in does not parse.
pub proof fn lex_error_fails_parse(source: Seq<char>, n: int)
    requires
        0 <= n < lex_spec(source).len(),
        lex_spec(source)[n] is Err,
    ensures
        parse_spec(source) is Err,
{
    if parse_tokens_spec(lex_spec(source)) is Ok {
        lemma_ok_reads_all(lex_spec(source), 0, Seq::empty(), None, n);
    }
}

/// A syntax error about an unexpected token quotes that token as written:
/// the error's span is the span of a token the lexer yields, and its text is
/// the token's text.
pub proof fn unexpected_token_error_quotes_the_token(source: Seq<char>)
    requires
        parse_spec(source) matches Err(es) && es[0].0 is UnrecognizedToken,
        forall|n: int| 0 <= n < lex_spec(source).len() && #[trigger] lex_spec(source)[n] is Ok ==> {
            &&& 0 <= lex_spec(source)[n]->Ok_0.0 <= usize::MAX
            &&& 0 <= lex_spec(source)[n]->Ok_0.2 <= usize::MAX
        },
    ensures
        ({
            let e = parse_spec(source)->Err_0[0];
            exists|n: int|
                0 <= n < lex_spec(source).len() && #[trigger] lex_spec(source)[n] is Ok
                    && lex_spec(source)[n]->Ok_0.0 == e.1 && lex_spec(source)[n]->Ok_0.2 == e.2
                    && e.0->UnrecognizedToken_0 == token_text(lex_spec(source)[n]->Ok_0.1)
        }),
{
    let toks = lex_spec(source);
    lemma_error_token_from_toks(toks, 0, Seq::empty(), None);
    let pe = parse_tokens_spec(toks)->Err_0;
    if pe is User {
        let q = choose|q: int| 0 <= q < toks.len() && #[trigger] toks[q] == Err::<(int, TokenM, int), ErrorSM>(pe->User_0);
        lemma_lex_from_errors(source, 0, q);
    }
    let q = choose|q: int|
        0 <= q < toks.len() && #[trigger] toks[q] is Ok && toks[q]->Ok_0.0 as usize == pe->UnrecognizedToken_0
            && toks[q]->Ok_0.1 == pe->UnrecognizedToken_1 && toks[q]->Ok_0.2 as usize == pe->UnrecognizedToken_2;
    lexed_token_spans_its_text(source, q);
}

/// A call being read.
struct Frame {
    start: usize,
    items: Vec<ExprS>,
}

spec fn frame_view(f: Frame) -> FrameM {
    FrameM { start: f.start, items: exprs_view(f.items@) }
}

spec fn frames_view(fs: Seq<Frame>) -> Seq<FrameM> {
    fs.map_values(|f: Frame| frame_view(f))
}

spec fn opt_view(d: Option<ExprS>) -> Option<ExprSM> {
    match d {
        Some(e) => Some(expr_s_view(&e)),
        None => None,
    }
}

proof fn lemma_exprs_view_push(es: Seq<ExprS>, e: ExprS)
    ensures
        exprs_view(es.push(e)) =~= exprs_view(es).push(expr_s_view(&e)),
{
    lemma_exprs_view(es);
    lemma_exprs_view(es.push(e));
    assert forall|i: int| 0 <= i < es.len() implies exprs_view(es.push(e))[i] == exprs_view(es)[i] by {
        assert(es.push(e)[i] == es[i]);
    }
    assert(es.push(e)[es.len() as int] == e);
}

proof fn lemma_exprs_view_drop_first(es: Seq<ExprS>)
    requires
        es.len() > 0,
    ensures
        exprs_view(es.drop_first()) =~= exprs_view(es).drop_first(),
        exprs_view(es)[0] == expr_s_view(&es[0]),
{
    lemma_exprs_view(es);
}

/// The expression a literal or identifier token stands for, with its span.
fn atom(t: Token, a: usize, b: usize) -> (r: ExprS)
    requires
        !(t@ is LParan) && !(t@ is RParan),
        ident_head_ok(Ok((a as int, t@, b as int))),
    ensures
        expr_s_view(&r) == (atom_expr(t@), a, b),
{
    let e = match t {
        Token::String(s) => Expr::string(s.as_str()),
        Token::Identifier(w) => match ExprIdentifier::get_identifier_kind(w.as_str()) {
            IdentifierKind::Builtin => Expr::identifier(w.as_str()),
            IdentifierKind::Client => Expr::identifier_with_type(w.as_str(), Type::Value),
            _ => Expr::identifier_with_type(w.as_str(), Type::String),
        },
        Token::True => Expr::bool(true),
        Token::False => Expr::bool(false),
        _ => Expr::Error,
    };
    (e, a..b)
}

/// Puts a complete expression where it goes (see [`place`]).
fn place_exec(stack: &mut Vec<Frame>, e: ExprS) -> (d: Option<ExprS>)
    ensures
        (frames_view(final(stack)@), opt_view(d)) == place(frames_view(old(stack)@), expr_s_view(&e)),
{
    if stack.len() == 0 {
        Some(e)
    } else {
        let ghost ev = expr_s_view(&e);
        let mut f = stack.pop().unwrap();
        let ghost fv = frame_view(f);
        proof {
            lemma_exprs_view_push(f.items@, e);
        }
        f.items.push(e);
        stack.push(f);
        assert(frames_view(stack@) =~= frames_view(old(stack)@).drop_last().push(
            FrameM { start: fv.start, items: fv.items.push(ev) },
        ));
        None
    }
}

fn expected_expr_list() -> (r: Vec<String>)
    ensures
        r@.map_values(|s: String| s@) == expected_expr(),
{
    let r = vec![owned("\"(\""), owned("\"true\""), owned("\"false\""), owned("string"), owned("identifier")];
    assert(r@.map_values(|s: String| s@) =~= expected_expr());
    r
}

fn expected_in_call_list() -> (r: Vec<String>)
    ensures
        r@.map_values(|s: String| s@) == expected_in_call(),
{
    let r = vec![
        owned("\"(\""),
        owned("\")\""),
        owned("\"true\""),
        owned("\"false\""),
        owned("string"),
        owned("identifier"),
    ];
    assert(r@.map_values(|s: String| s@) =~= expected_in_call());
    r
}

/// Parses a sequence of tokens into one expression with its span, stopping
/// at the first error.
#[verifier::loop_isolation(false)]
pub fn parse_tokens(items: Vec<LexItem>) -> (r: Result<ExprS, ParseError>)
    requires
        idents_have_heads(lex_items_view(items@)),
    ensures
        match parse_tokens_spec(lex_items_view(items@)) {
            Ok(e) => r matches Ok(x) && expr_s_view(&x) == e,
            Err(pe) => r matches Err(x) && x@ == pe,
        },
{
    let ghost toks = lex_items_view(items@);
    let n = items.len();
    let mut items = items;
    let mut rev: Vec<LexItem> = Vec::new();
    while items.len() > 0
        invariant
            toks.len() == n,
            items.len() + rev.len() == n,
            forall|k: int| 0 <= k < items.len() ==> lex_item_view(#[trigger] items@[k]) == toks[k],
            forall|k: int| 0 <= k < rev.len() ==> lex_item_view(#[trigger] rev@[k]) == toks[n - 1 - k],
        decreases items.len(),
    {
        let it = items.pop().unwrap();
        rev.push(it);
    }
    let mut stack: Vec<Frame> = Vec::new();
    let mut done: Option<ExprS> = None;
    let mut last: usize = 0;
    let mut p: usize = 0;
    assert(frames_view(stack@) =~= Seq::<FrameM>::empty());
    loop
        invariant
            toks.len() == n,
            idents_have_heads(toks),
            p + rev.len() == n,
            forall|k: int| 0 <= k < rev.len() ==> lex_item_view(#[trigger] rev@[k]) == toks[n - 1 - k],
            last == last_end(toks, p as nat),
            parse_from(toks, p as nat, frames_view(stack@), opt_view(done)) == parse_tokens_spec(toks),
        decreases rev.len(),
    {
        let ghost sv = frames_view(stack@);
        let ghost dv = opt_view(done);
        match rev.pop() {
            None => {
                if stack.len() == 0 {
                    match done {
                        Some(e) => return Ok(e),
                        None => return Err(ParseError::UnrecognizedEof { location: last, expected: expected_expr_list() }),
                    }
                } else if stack[stack.len() - 1].items.len() == 0 {
                    return Err(ParseError::UnrecognizedEof { location: last, expected: expected_expr_list() });
                } else {
                    return Err(ParseError::UnrecognizedEof { location: last, expected: expected_in_call_list() });
                }
            },
            Some(item) => {
                assert(lex_item_view(item) == toks[p as int]);
                match item {
                    Err(e) => {
                        return Err(ParseError::User { error: e });
                    },
                    Ok((a, t, b)) => {
                        let ghost tv = t@;
                        if stack.len() == 0 && done.is_some() {
                            let none: Vec<String> = Vec::new();
                            assert(none@.map_values(|s: String| s@) =~= Seq::<Seq<char>>::empty());
                            return Err(ParseError::UnrecognizedToken { token: (a, t, b), expected: none });
                        }
                        match t {
                            Token::LParan => {
                                stack.push(Frame { start: a, items: Vec::new() });
                                assert(frames_view(stack@) =~= sv.push(FrameM { start: a, items: Seq::empty() }));
                                done = None;
                            },
                            Token::RParan => {
                                if stack.len() == 0 || stack[stack.len() - 1].items.len() == 0 {
                                    let tok = Token::RParan;
                                    return Err(ParseError::UnrecognizedToken { token: (a, tok, b), expected: expected_expr_list() });
                                }
                                let mut f = stack.pop().unwrap();
                                assert(frames_view(stack@) =~= sv.drop_last());
                                let ghost fv = frame_view(f);
                                proof {
                                    lemma_exprs_view_drop_first(f.items@);
                                }
                                let callee = f.items.remove(0);
                                let call = Expr::call(callee, f.items);
                                let d = place_exec(&mut stack, (call, f.start..b));
                                done = d;
                            },
                            _ => {
                                proof {
                                    assert(ident_head_ok(toks[p as int]));
                                }
                                let e = atom(t, a, b);
                                let d = place_exec(&mut stack, e);
                                done = d;
                            },
                        }
                        last = b;
                        p = p + 1;
                    },
                }
            },
        }
    }
}

/// Parses source text into an expression, or the error found.
pub fn parse(source: &str) -> (r: ExprResult<Expr>)
    ensures
        match parse_spec(source@) {
            Ok(e) => r matches Ok(x) && x@ == e,
            Err(es) => r matches Err(x) && errors_view(x@) == es,
        },
{
    let items = lex(source);
    let ghost toks = lex_items_view(items@);
    proof {
        lemma_lex_from_idents(source@, 0);
    }
    match parse_tokens(items) {
        Ok(e) => Ok(e.0),
        Err(pe) => {
            proof {
                lemma_error_token_from_toks(toks, 0, Seq::empty(), None);
                if pe@ is UnrecognizedToken {
                    let q = choose|q: int|
                        0 <= q < toks.len() && #[trigger] toks[q] is Ok && toks[q]->Ok_0.0 as usize
                            == pe@->UnrecognizedToken_0 && toks[q]->Ok_0.1 == pe@->UnrecognizedToken_1
                            && toks[q]->Ok_0.2 as usize == pe@->UnrecognizedToken_2;
                    lemma_lex_token_bounds(source@, q);
                }
            }
            let err = SyntaxError::from_parser_error(pe, source);
            let r = vec![err];
            assert(errors_view(r@) =~= seq![error_s_view(err)]);
            Err(r)
        },
    }
}

} // verus!
