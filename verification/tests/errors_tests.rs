use reqlang_expr::diagnostics::{
    AsDiagnostic, DiagnosisSeverity, ExprDiagnostic, ExprDiagnosticPosition, ExprDiagnosticRange, get_position,
    get_range,
};
use reqlang_expr::errors::{CompileError, ExprError, LexicalError, RuntimeError, SyntaxError};
use reqlang_expr::lexer::Token;
use reqlang_expr::parser::ParseError;
use reqlang_expr::types::Type;

#[test]
fn error_messages() {
    assert_eq!("Invalid token", LexicalError::InvalidToken.message());
    assert_eq!("extraneous input: \"a\\\"b\"", SyntaxError::ExtraToken { token: "a\"b".to_string() }.message());
    assert_eq!("invalid input", SyntaxError::InvalidToken.message());
    assert_eq!("unexpected input: \"x\"", SyntaxError::UnexpectedInput { token: "x".to_string() }.message());
    assert_eq!(
        "unexpected end of file; expected: [\"\\\")\\\"\", \"string\"]",
        SyntaxError::UnrecognizedEOF { expected: vec!["\")\"".to_string(), "string".to_string()] }.message()
    );
    assert_eq!(
        "unexpected \")\"; expected: []",
        SyntaxError::UnrecognizedToken { token: ")".to_string(), expected: vec![] }.message()
    );
    assert_eq!("unterminated string", SyntaxError::UnterminatedString.message());
    assert_eq!("undefined: var", CompileError::Undefined("var".to_string()).message());
    assert_eq!(
        "expects 2 arguments but received 3",
        CompileError::WrongNumberOfArgs { expected: 2, actual: 3 }.message()
    );
    assert_eq!("call expression without a callee", CompileError::NoCallee.message());
    assert_eq!(
        "expected type Bool but received Fn(Value) -> String",
        CompileError::TypeMismatch {
            expected: Type::Bool,
            actual: Type::Fn { args: vec![Type::Value], variadic_arg: None, return_type: Box::new(Type::String) }
        }
        .message()
    );
    assert_eq!("invalid lookup type: 9", CompileError::InvalidLookupType(9).message());
    assert_eq!("attempting to pop from an empty stack", RuntimeError::EmptyStack.message());
    assert_eq!(
        "expected type String but received Bool",
        RuntimeError::TypeMismatch { expected: Type::String, actual: Type::Bool }.message()
    );
}

#[test]
fn expr_error_display_names_the_stage() {
    assert_eq!(
        "There was an error lexing expression: Invalid token",
        ExprError::LexError(LexicalError::InvalidToken).to_display_string()
    );
    assert_eq!(
        "There was an error in the expression syntax: invalid input",
        ExprError::SyntaxError(SyntaxError::InvalidToken).to_display_string()
    );
    assert_eq!(
        "There was a compliation error with the expression: undefined: x",
        ExprError::CompileError(CompileError::Undefined("x".to_string())).to_display_string()
    );
    assert_eq!(
        "There was a runtime error with the expression: attempting to pop from an empty stack",
        ExprError::RuntimeError(RuntimeError::EmptyStack).to_display_string()
    );
    assert_eq!("undefined: x", ExprError::CompileError(CompileError::Undefined("x".to_string())).message());
}

#[test]
fn diagnostic_of_an_error() {
    let source = "(id\n  foo)";
    let error = ExprError::CompileError(CompileError::Undefined("foo".to_string()));
    let diagnostic = error.as_diagnostic(source, &(6..9));
    assert_eq!(
        ExprDiagnostic {
            code: String::new(),
            range: ExprDiagnosticRange::new(ExprDiagnosticPosition::new(1, 2), ExprDiagnosticPosition::new(1, 5)),
            severity: Some(DiagnosisSeverity::ERROR()),
            message: "undefined: foo".to_string(),
        },
        diagnostic
    );
    assert_eq!(ExprDiagnosticPosition::new(0, 3), get_position(source, 3));
    assert_eq!(
        ExprDiagnosticRange::new(ExprDiagnosticPosition::new(0, 0), ExprDiagnosticPosition::new(1, 6)),
        get_range(source, &(0..10))
    );
    let lex = LexicalError::InvalidToken.as_diagnostic("fn test_function(x: i32) -> i32 { x + 1 }", &(0..5));
    assert_eq!("Invalid token", lex.message);
    assert_eq!("", lex.code);
    assert_eq!(Some(DiagnosisSeverity::ERROR()), lex.severity);
}

#[test]
fn severities_are_ordered() {
    assert!(DiagnosisSeverity::ERROR() < DiagnosisSeverity::WARNING());
    assert!(DiagnosisSeverity::WARNING() < DiagnosisSeverity::INFORMATION());
    assert!(DiagnosisSeverity::INFORMATION() < DiagnosisSeverity::HINT());
}

#[test]
fn parse_errors_are_reported_with_source_text() {
    let source = "(id é)";
    let (err, span) = SyntaxError::from_parser_error(
        ParseError::UnrecognizedToken { token: (4, Token::identifier("x"), 6), expected: vec![] },
        source,
    );
    assert_eq!(ExprError::SyntaxError(SyntaxError::UnrecognizedToken { token: "é".to_string(), expected: vec![] }), err);
    assert_eq!(4..6, span);
    let (err, span) = SyntaxError::from_parser_error(ParseError::ExtraToken { token: (1, Token::identifier("id"), 3) }, source);
    assert_eq!(ExprError::SyntaxError(SyntaxError::ExtraToken { token: "id".to_string() }), err);
    assert_eq!(1..3, span);
    let (err, span) = SyntaxError::from_parser_error(ParseError::InvalidToken { location: 2 }, source);
    assert_eq!(ExprError::SyntaxError(SyntaxError::InvalidToken), err);
    assert_eq!(2..2, span);
    let user = (ExprError::LexError(LexicalError::InvalidToken), 0..0);
    assert_eq!(
        (ExprError::LexError(LexicalError::InvalidToken), 0..0),
        SyntaxError::from_parser_error(ParseError::User { error: user }, source)
    );
}
