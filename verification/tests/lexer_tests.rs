use reqlang_expr::lexer::{lex, Lexer, Token};

fn token_text(t: &Token) -> String {
    match t {
        Token::LParan => "(".to_string(),
        Token::RParan => ")".to_string(),
        Token::String(s) => format!("`{s}`"),
        Token::Identifier(w) => w.clone(),
        Token::True => "true".to_string(),
        Token::False => "false".to_string(),
    }
}

#[test]
fn each_token_spans_its_own_text() {
    let source = "(concat `héllo wörld` :a ?b !c @d true false\n\t(noop))";
    let mut prev_end = 0;
    for item in lex(source) {
        let (a, t, b) = item.expect("every item is a token");
        assert!(prev_end <= a && a < b && b <= source.len());
        assert_eq!(token_text(&t), &source[a..b]);
        prev_end = b;
    }
}

#[test]
fn lexer_yields_items_one_at_a_time() {
    let mut lexer = Lexer::new(" (id\x0C`x`) ");
    assert_eq!(Some(Ok((1, Token::LParan, 2))), lexer.next());
    assert_eq!(Some(Ok((2, Token::identifier("id"), 4))), lexer.next());
    assert_eq!(Some(Ok((5, Token::String("x".to_string()), 8))), lexer.next());
    assert_eq!(Some(Ok((8, Token::RParan, 9))), lexer.next());
    assert_eq!(None, lexer.next());
    assert_eq!(None, lexer.next());
}

#[test]
fn carriage_return_is_not_skipped() {
    let items = lex("a\r");
    assert_eq!(2, items.len());
    assert!(items[1].is_err());
}
