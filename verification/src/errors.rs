//! Errors produced while lexing, parsing, compiling and interpreting.
use vstd::prelude::*;
use crate::span::{Span, Spanned};
use crate::types::{Type, TypeM};
pub use crate::diagnostics;
use crate::lexer::source_text;
use crate::parser::{ParseError, ParseErrorM, parse_error_spans_ok};
use crate::text::{decimal, decimal_string, join_sep, owned, push_str, source_slice};
use crate::types::ty_name;

verus! {

/// Any error the expression pipeline can produce.
#[derive(Debug, PartialEq)]
pub enum ExprError {
    LexError(LexicalError),
    SyntaxError(SyntaxError),
    CompileError(CompileError),
    RuntimeError(RuntimeError),
}

/// An error found while lexing.
#[derive(Debug, Clone, PartialEq)]
pub enum LexicalError {
    InvalidToken,
}

/// An error found while parsing.
#[derive(Debug, Clone, PartialEq)]
pub enum SyntaxError {
    ExtraToken { token: String },
    InvalidToken,
    UnexpectedInput { token: String },
    UnrecognizedEOF { expected: Vec<String> },
    UnrecognizedToken { token: String, expected: Vec<String> },
    UnterminatedString,
}

/// An error found while compiling.
#[derive(Debug, PartialEq)]
pub enum CompileError {
    Undefined(String),
    WrongNumberOfArgs { expected: usize, actual: usize },
    NoCallee,
    TypeMismatch { expected: Type, actual: Type },
    InvalidLookupType(u8),
}

/// An error found while interpreting.
#[derive(Debug, PartialEq)]
pub enum RuntimeError {
    EmptyStack,
    TypeMismatch { expected: Type, actual: Type },
}

/// An error together with the span of source text it concerns.
pub type ExprErrorS = Spanned<ExprError>;

/// The result of a stage of the pipeline: a value, or every error found.
pub type ExprResult<T> = Result<T, Vec<ExprErrorS>>;

/// The mathematical model of an [`ExprError`].
pub enum ErrorM {
    Lex,
    ExtraToken(Seq<char>),
    InvalidToken,
    UnexpectedInput(Seq<char>),
    UnrecognizedEof(Seq<Seq<char>>),
    UnrecognizedToken(Seq<char>, Seq<Seq<char>>),
    UnterminatedString,
    Undefined(Seq<char>),
    WrongNumberOfArgs(usize, usize),
    NoCallee,
    CompileTypeMismatch(TypeM, TypeM),
    InvalidLookupType(u8),
    EmptyStack,
    RuntimeTypeMismatch(TypeM, TypeM),
}

impl View for ExprError {
    type V = ErrorM;

    open spec fn view(&self) -> ErrorM {
        match self {
            ExprError::LexError(_) => ErrorM::Lex,
            ExprError::SyntaxError(e) => match e {
                SyntaxError::ExtraToken { token } => ErrorM::ExtraToken(token@),
                SyntaxError::InvalidToken => ErrorM::InvalidToken,
                SyntaxError::UnexpectedInput { token } => ErrorM::UnexpectedInput(token@),
                SyntaxError::UnrecognizedEOF { expected } => ErrorM::UnrecognizedEof(
                    expected@.map_values(|s: String| s@),
                ),
                SyntaxError::UnrecognizedToken { token, expected } => ErrorM::UnrecognizedToken(
                    token@,
                    expected@.map_values(|s: String| s@),
                ),
                SyntaxError::UnterminatedString => ErrorM::UnterminatedString,
            },
            ExprError::CompileError(e) => match e {
                CompileError::Undefined(s) => ErrorM::Undefined(s@),
                CompileError::WrongNumberOfArgs { expected, actual } => ErrorM::WrongNumberOfArgs(
                    *expected,
                    *actual,
                ),
                CompileError::NoCallee => ErrorM::NoCallee,
                CompileError::TypeMismatch { expected, actual } => ErrorM::CompileTypeMismatch(
                    expected@,
                    actual@,
                ),
                CompileError::InvalidLookupType(b) => ErrorM::InvalidLookupType(*b),
            },
            ExprError::RuntimeError(e) => match e {
                RuntimeError::EmptyStack => ErrorM::EmptyStack,
                RuntimeError::TypeMismatch { expected, actual } => ErrorM::RuntimeTypeMismatch(
                    expected@,
                    actual@,
                ),
            },
        }
    }
}

/// The model of an error with its span: the error and the span's bounds.
pub type ErrorSM = (ErrorM, usize, usize);

/// The model of an error with its span.
pub open spec fn error_s_view(e: ExprErrorS) -> ErrorSM {
    (e.0@, e.1.start, e.1.end)
}

/// The models of a sequence of spanned errors.
pub open spec fn errors_view(es: Seq<ExprErrorS>) -> Seq<ErrorSM> {
    es.map_values(|e: ExprErrorS| error_s_view(e))
}

/// A runtime type mismatch at the empty span, as values report it.
pub fn runtime_type_mismatch(expected: Type, actual: Type) -> (r: Vec<ExprErrorS>)
    ensures
        errors_view(r@) == seq![(ErrorM::RuntimeTypeMismatch(expected@, actual@), 0usize, 0usize)],
{
    let r = vec![(ExprError::RuntimeError(RuntimeError::TypeMismatch { expected, actual }), 0..0)];
    assert(errors_view(r@) =~= seq![(ErrorM::RuntimeTypeMismatch(expected@, actual@), 0usize, 0usize)]);
    r
}


/// The spanned error a parse error is reported as: token errors carry the
/// source text of the token, and the lexer's errors are passed on as they are.
pub open spec fn from_parser_error_spec(err: ParseErrorM, source: Seq<char>) -> ErrorSM {
    match err {
        ParseErrorM::InvalidToken(l) => (ErrorM::InvalidToken, l, l),
        ParseErrorM::UnrecognizedEof(l, expected) => (ErrorM::UnrecognizedEof(expected), l, l),
        ParseErrorM::UnrecognizedToken(a, _, b, expected) => (
            ErrorM::UnrecognizedToken(source_text(source, a as int, b as int), expected),
            a,
            b,
        ),
        ParseErrorM::ExtraToken(a, _, b) => (ErrorM::ExtraToken(source_text(source, a as int, b as int)), a, b),
        ParseErrorM::User(e) => e,
    }
}

impl SyntaxError {
    /// The spanned error a parse error is reported as.
    pub fn from_parser_error(err: ParseError, source: &str) -> (r: ExprErrorS)
        requires
            parse_error_spans_ok(err@, source@),
        ensures
            error_s_view(r) == from_parser_error_spec(err@, source@),
    {
        match err {
            ParseError::InvalidToken { location } => (
                ExprError::SyntaxError(SyntaxError::InvalidToken),
                location..location,
            ),
            ParseError::UnrecognizedEof { location, expected } => (
                ExprError::SyntaxError(SyntaxError::UnrecognizedEOF { expected }),
                location..location,
            ),
            ParseError::UnrecognizedToken { token: (start, _, end), expected } => (
                ExprError::SyntaxError(
                    SyntaxError::UnrecognizedToken { token: source_slice(source, start, end), expected },
                ),
                start..end,
            ),
            ParseError::ExtraToken { token: (start, _, end) } => (
                ExprError::SyntaxError(SyntaxError::ExtraToken { token: source_slice(source, start, end) }),
                start..end,
            ),
            ParseError::User { error } => error,
        }
    }
}


/// The debug text of a string (`format!("{:?}", s)`): quoted, with special
/// characters escaped.
pub uninterp spec fn debug_text(s: Seq<char>) -> Seq<char>;

/// `<str as Debug>::fmt`, through `format!("{:?}", s)`: the quoted, escaped
/// text of `s`, which depends on `s` alone; its exact content is left unstated.
#[verifier::external_body]
fn debug_string(s: &str) -> (r: String)
    ensures
        r@ == debug_text(s@),
{
    format!("{:?}", s)
}

/// The debug text of a list of strings: `[`, their debug texts separated by
/// `, `, then `]`.
pub open spec fn debug_list(items: Seq<Seq<char>>) -> Seq<char> {
    "["@ + join_sep(items.map_values(|x: Seq<char>| debug_text(x)), ", "@) + "]"@
}

fn debug_list_string(items: &Vec<String>) -> (r: String)
    ensures
        r@ == debug_list(items@.map_values(|s: String| s@)),
{
    let ghost texts = items@.map_values(|s: String| s@).map_values(|x: Seq<char>| debug_text(x));
    let mut body = String::new();
    let mut i: usize = 0;
    while i < items.len()
        invariant
            i <= items.len(),
            texts == items@.map_values(|s: String| s@).map_values(|x: Seq<char>| debug_text(x)),
            body@ == join_sep(texts.take(i as int), ", "@),
        decreases items.len() - i,
    {
        let d = debug_string(items[i].as_str());
        assert(texts[i as int] == d@);
        assert(texts.take(i + 1).drop_last() =~= texts.take(i as int));
        if i > 0 {
            push_str(&mut body, ", ");
        } else {
            assert(texts.take(1) =~= seq![texts[0]]);
        }
        push_str(&mut body, d.as_str());
        i = i + 1;
    }
    assert(texts.take(items.len() as int) =~= texts);
    let mut r = owned("[");
    push_str(&mut r, body.as_str());
    push_str(&mut r, "]");
    r
}

/// The message of an error, as its display text gives it.
pub open spec fn error_message(e: ErrorM) -> Seq<char> {
    match e {
        ErrorM::Lex => "Invalid token"@,
        ErrorM::ExtraToken(t) => "extraneous input: "@ + debug_text(t),
        ErrorM::InvalidToken => "invalid input"@,
        ErrorM::UnexpectedInput(t) => "unexpected input: "@ + debug_text(t),
        ErrorM::UnrecognizedEof(expected) => "unexpected end of file; expected: "@ + debug_list(expected),
        ErrorM::UnrecognizedToken(t, expected) => "unexpected "@ + debug_text(t) + "; expected: "@ + debug_list(expected),
        ErrorM::UnterminatedString => "unterminated string"@,
        ErrorM::Undefined(name) => "undefined: "@ + name,
        ErrorM::WrongNumberOfArgs(expected, actual) => "expects "@ + decimal(expected as nat) + " arguments but received "@
            + decimal(actual as nat),
        ErrorM::NoCallee => "call expression without a callee"@,
        ErrorM::CompileTypeMismatch(expected, actual) => "expected type "@ + ty_name(expected) + " but received "@ + ty_name(actual),
        ErrorM::InvalidLookupType(b) => "invalid lookup type: "@ + decimal(b as nat),
        ErrorM::EmptyStack => "attempting to pop from an empty stack"@,
        ErrorM::RuntimeTypeMismatch(expected, actual) => "expected type "@ + ty_name(expected) + " but received "@ + ty_name(actual),
    }
}

/// The display text of an [`ExprError`]: the stage it arose in, then its message.
pub open spec fn expr_error_text(e: ErrorM) -> Seq<char> {
    let stage = match e {
        ErrorM::Lex => "There was an error lexing expression: "@,
        ErrorM::ExtraToken(_) | ErrorM::InvalidToken | ErrorM::UnexpectedInput(_) | ErrorM::UnrecognizedEof(_)
        | ErrorM::UnrecognizedToken(_, _) | ErrorM::UnterminatedString => "There was an error in the expression syntax: "@,
        ErrorM::Undefined(_) | ErrorM::WrongNumberOfArgs(_, _) | ErrorM::NoCallee | ErrorM::CompileTypeMismatch(_, _)
        | ErrorM::InvalidLookupType(_) => "There was a compliation error with the expression: "@,
        ErrorM::EmptyStack | ErrorM::RuntimeTypeMismatch(_, _) => "There was a runtime error with the expression: "@,
    };
    stage + error_message(e)
}

/// `expected type {expected} but received {actual}`.
fn type_mismatch_message(expected: &Type, actual: &Type) -> (r: String)
    ensures
        r@ == "expected type "@ + ty_name(expected@) + " but received "@ + ty_name(actual@),
{
    let mut r = owned("expected type ");
    push_str(&mut r, expected.name().as_str());
    push_str(&mut r, " but received ");
    push_str(&mut r, actual.name().as_str());
    r
}

impl LexicalError {
    /// The message of this error.
    pub fn message(&self) -> (r: String)
        ensures
            r@ == error_message(ErrorM::Lex),
    {
        owned("Invalid token")
    }
}

impl SyntaxError {
    /// The message of this error.
    pub fn message(&self) -> (r: String)
        ensures
            r@ == error_message(ExprError::SyntaxError(*self)@),
    {
        match self {
            SyntaxError::ExtraToken { token } => {
                let mut r = owned("extraneous input: ");
                push_str(&mut r, debug_string(token.as_str()).as_str());
                r
            },
            SyntaxError::InvalidToken => owned("invalid input"),
            SyntaxError::UnexpectedInput { token } => {
                let mut r = owned("unexpected input: ");
                push_str(&mut r, debug_string(token.as_str()).as_str());
                r
            },
            SyntaxError::UnrecognizedEOF { expected } => {
                let mut r = owned("unexpected end of file; expected: ");
                push_str(&mut r, debug_list_string(expected).as_str());
                r
            },
            SyntaxError::UnrecognizedToken { token, expected } => {
                let mut r = owned("unexpected ");
                push_str(&mut r, debug_string(token.as_str()).as_str());
                push_str(&mut r, "; expected: ");
                push_str(&mut r, debug_list_string(expected).as_str());
                r
            },
            SyntaxError::UnterminatedString => owned("unterminated string"),
        }
    }
}

impl CompileError {
    /// The message of this error.
    pub fn message(&self) -> (r: String)
        ensures
            r@ == error_message(ExprError::CompileError(*self)@),
    {
        match self {
            CompileError::Undefined(name) => {
                let mut r = owned("undefined: ");
                push_str(&mut r, name.as_str());
                r
            },
            CompileError::WrongNumberOfArgs { expected, actual } => {
                let mut r = owned("expects ");
                push_str(&mut r, decimal_string(*expected).as_str());
                push_str(&mut r, " arguments but received ");
                push_str(&mut r, decimal_string(*actual).as_str());
                r
            },
            CompileError::NoCallee => owned("call expression without a callee"),
            CompileError::TypeMismatch { expected, actual } => type_mismatch_message(expected, actual),
            CompileError::InvalidLookupType(b) => {
                let mut r = owned("invalid lookup type: ");
                push_str(&mut r, decimal_string(*b as usize).as_str());
                r
            },
        }
    }
}

impl RuntimeError {
    /// The message of this error.
    pub fn message(&self) -> (r: String)
        ensures
            r@ == error_message(ExprError::RuntimeError(*self)@),
    {
        match self {
            RuntimeError::EmptyStack => owned("attempting to pop from an empty stack"),
            RuntimeError::TypeMismatch { expected, actual } => type_mismatch_message(expected, actual),
        }
    }
}

impl ExprError {
    /// The message of the error this one holds.
    pub fn message(&self) -> (r: String)
        ensures
            r@ == error_message(self@),
    {
        match self {
            ExprError::LexError(e) => e.message(),
            ExprError::SyntaxError(e) => e.message(),
            ExprError::CompileError(e) => e.message(),
            ExprError::RuntimeError(e) => e.message(),
        }
    }

    /// The display text of this error: the stage it arose in, then its message.
    pub fn to_display_string(&self) -> (r: String)
        ensures
            r@ == expr_error_text(self@),
    {
        let mut r = match self {
            ExprError::LexError(_) => owned("There was an error lexing expression: "),
            ExprError::SyntaxError(_) => owned("There was an error in the expression syntax: "),
            ExprError::CompileError(_) => owned("There was a compliation error with the expression: "),
            ExprError::RuntimeError(_) => owned("There was a runtime error with the expression: "),
        };
        push_str(&mut r, self.message().as_str());
        r
    }
}


impl From<LexicalError> for ExprError {
    fn from(e: LexicalError) -> (r: Self) {
        ExprError::LexError(e)
    }
}

impl vstd::std_specs::convert::FromSpecImpl<LexicalError> for ExprError {
    open spec fn obeys_from_spec() -> bool {
        true
    }

    open spec fn from_spec(e: LexicalError) -> Self {
        ExprError::LexError(e)
    }
}

impl From<SyntaxError> for ExprError {
    fn from(e: SyntaxError) -> (r: Self) {
        ExprError::SyntaxError(e)
    }
}

impl vstd::std_specs::convert::FromSpecImpl<SyntaxError> for ExprError {
    open spec fn obeys_from_spec() -> bool {
        true
    }

    open spec fn from_spec(e: SyntaxError) -> Self {
        ExprError::SyntaxError(e)
    }
}

impl From<CompileError> for ExprError {
    fn from(e: CompileError) -> (r: Self) {
        ExprError::CompileError(e)
    }
}

impl vstd::std_specs::convert::FromSpecImpl<CompileError> for ExprError {
    open spec fn obeys_from_spec() -> bool {
        true
    }

    open spec fn from_spec(e: CompileError) -> Self {
        ExprError::CompileError(e)
    }
}

impl From<RuntimeError> for ExprError {
    fn from(e: RuntimeError) -> (r: Self) {
        ExprError::RuntimeError(e)
    }
}

impl vstd::std_specs::convert::FromSpecImpl<RuntimeError> for ExprError {
    open spec fn obeys_from_spec() -> bool {
        true
    }

    open spec fn from_spec(e: RuntimeError) -> Self {
        ExprError::RuntimeError(e)
    }
}

} // verus!
