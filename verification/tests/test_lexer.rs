use meowc::lexer::token::Token;
use meowc::lexer::Lexer;

/// Lexes `input` and checks the non-whitespace tokens against `expected`
/// (with the terminating `Eof` added implicitly). Whitespace tokens are part
/// of the stream so that it losslessly covers the input; consumers skip them,
/// and so does this comparison.
fn test_tokens(input: &str, mut expected: Vec<Token>) {
    let mut lexer = Lexer::new("main.mw", input);
    let pairs = lexer.tokens();
    let mut tokens: Vec<Token> = Vec::new();
    pairs.iter().for_each(|(token, _)| {
        if *token != Token::Whitespace {
            tokens.push(token.clone())
        }
    });

    // impicit Eof
    expected.push(Token::Eof);

    assert_eq!(tokens, expected)
}

#[test]
fn individual_tokens() {
    test_tokens(
        r#"ident "string" 0 0.0 true false and else for fun if import let match mut not or return while = == != > < >= <= + - * / ( ) [ ] { } ; , . & | ! \"#,
        vec![
            Token::Ident("ident".to_string()),
            Token::String("string".to_string()),
            Token::Int("0".to_string()),
            Token::Float("0.0".to_string()),
            Token::Bool("true".to_string()),
            Token::Bool("false".to_string()),
            Token::And,
            Token::Else,
            Token::For,
            Token::Fun,
            Token::If,
            Token::Import,
            Token::Let,
            Token::Match,
            Token::Mut,
            Token::Not,
            Token::Or,
            Token::Return,
            Token::While,
            Token::Eq,
            Token::EqEq,
            Token::Neq,
            Token::Gt,
            Token::Lt,
            Token::GtEq,
            Token::LtEq,
            Token::Plus,
            Token::Minus,
            Token::Star,
            Token::Slash,
            Token::OpenParen,
            Token::CloseParen,
            Token::OpenBracket,
            Token::CloseBracket,
            Token::OpenBrace,
            Token::CloseBrace,
            Token::Semi,
            Token::Comma,
            Token::Dot,
            Token::Amp,
            Token::Pipe,
            Token::Bang,
            Token::Backslash,
        ],
    )
}
