use meowc::errors::location::Locatable;
use meowc::errors::location::Location;
use meowc::errors::location::Position;
use meowc::lexer::token::LexerError;
use meowc::lexer::token::Token;
use meowc::lexer::Lexer;

fn lex(input: &str) -> Vec<(Token, Location<'_>)> {
    let mut lexer = Lexer::new("main.mw", input);
    lexer.tokens()
}

#[test]
fn totality_single_eof() {
    for input in ["", "a + b", "\"unterminated", "// only a comment", "`?`", "1_0 2.5 while"] {
        let mut lexer = Lexer::new("main.mw", input);
        let pairs = lexer.tokens();
        assert!(!pairs.is_empty());
        assert_eq!(pairs.last().unwrap().0, Token::Eof);
        let eofs = pairs.iter().filter(|(t, _)| *t == Token::Eof).count();
        assert_eq!(eofs, 1);
        // the stream is exhausted: further pulls yield nothing
        assert!(lexer.next().is_none());
        assert!(lexer.next().is_none());
    }
}

#[test]
fn coverage_spans_tile_the_input() {
    let input = "let x_1 = \"a\\tb\" + 1_000.5; `";
    let n = input.chars().count();
    let pairs = lex(input);
    // every token starts where its predecessor ended ...
    let mut expected_start: usize = 0;
    for (token, location) in pairs.iter() {
        assert_eq!(location.start.index, expected_start);
        assert!(location.start.index < location.end.index);
        expected_start = location.end.index;
    }
    // ... and the final Eof ends one past the input's last character
    assert_eq!(pairs.last().unwrap().1.end.index, n + 1);
    assert_eq!(pairs[pairs.len() - 2].1.end.index, n);
    assert_eq!(pairs.last().unwrap().0, Token::Eof);
}

#[test]
fn coverage_comment_gap() {
    // x// c
    // y
    let input = "x// c\ny";
    let pairs = lex(input);
    let tokens: Vec<Token> = pairs.iter().map(|(t, _)| t.clone()).collect();
    assert_eq!(
        tokens,
        vec![
            Token::Ident("x".to_string()),
            Token::Whitespace,
            Token::Ident("y".to_string()),
            Token::Eof,
        ]
    );
    // the comment body is consumed but yields no token: the whitespace token
    // is the newline that ends the comment's line
    assert_eq!(pairs[0].1.end.index, 1);
    assert_eq!(pairs[1].1.start.index, 5);
    assert_eq!(pairs[1].1.end.index, 6);
    assert_eq!(pairs[2].1.start.index, 6);
}

#[test]
fn comment_at_end_of_input() {
    let pairs = lex("// nothing else");
    let tokens: Vec<Token> = pairs.iter().map(|(t, _)| t.clone()).collect();
    assert_eq!(tokens, vec![Token::Eof]);
}

#[test]
fn two_char_operator_precedence() {
    let eqeq = lex("==");
    assert_eq!(eqeq[0].0, Token::EqEq);
    assert_eq!(eqeq[0].1.end.index, 2);
    assert_eq!(eqeq.len(), 2);

    let neq = lex("!=");
    assert_eq!(neq[0].0, Token::Neq);

    let eq = lex("=");
    assert_eq!(eq[0].0, Token::Eq);
    assert_eq!(eq[0].1.end.index, 1);

    let gteq = lex(">=");
    assert_eq!(gteq[0].0, Token::GtEq);

    let lteq = lex("<=");
    assert_eq!(lteq[0].0, Token::LtEq);
}

#[test]
fn underscore_stripping() {
    let pairs = lex("1_000");
    assert_eq!(pairs[0].0, Token::Int("1000".to_string()));
    assert_eq!(pairs[0].1.end.index, 5);
}

#[test]
fn float_boundary() {
    // no digit after the dot: an integer followed by Dot, not a float
    let pairs = lex("3.");
    let tokens: Vec<Token> = pairs.iter().map(|(t, _)| t.clone()).collect();
    assert_eq!(tokens, vec![Token::Int("3".to_string()), Token::Dot, Token::Eof]);
}

#[test]
fn float_with_fraction() {
    let pairs = lex("1_2.5_5");
    assert_eq!(pairs[0].0, Token::Float("12.55".to_string()));
    assert_eq!(pairs[0].1.end.index, 7);
}

#[test]
fn string_escapes() {
    let pairs = lex("\"a\\n b\"");
    assert_eq!(pairs[0].0, Token::String("a\n b".to_string()));

    let all = lex("\"\\\\ \\' \\r \\t \\0\"");
    assert_eq!(all[0].0, Token::String("\\ ' \r \t \0".to_string()));
}

#[test]
fn invalid_escape_resumes_lexing() {
    let pairs = lex("\"a\\x\"");
    assert_eq!(pairs[0].0, Token::Invalid(LexerError::InvalidEscapeSequence('x')));
    // the backslash and the bad character are consumed; lexing resumes right
    // after them, so the closing quote opens a new, unterminated string
    assert_eq!(pairs[0].1.end.index, 4);
    assert_eq!(pairs[1].0, Token::Invalid(LexerError::Expected('"')));
    assert_eq!(pairs.last().unwrap().0, Token::Eof);
}

#[test]
fn unterminated_string() {
    let pairs = lex("\"abc");
    let tokens: Vec<Token> = pairs.iter().map(|(t, _)| t.clone()).collect();
    assert_eq!(tokens, vec![Token::Invalid(LexerError::Expected('"')), Token::Eof]);
    assert_eq!(pairs[0].1.end.index, 4);
}

#[test]
fn unknown_character_advances_one() {
    let pairs = lex("`x");
    assert_eq!(pairs[0].0, Token::Invalid(LexerError::UnknownChar('`')));
    assert_eq!(pairs[0].1.end.index, 1);
    assert_eq!(pairs[1].0, Token::Ident("x".to_string()));
    assert_eq!(pairs[1].1.start.index, 1);
}

#[test]
fn position_correctness() {
    let pairs = lex("a\nb");
    assert_eq!(pairs[0].0, Token::Ident("a".to_string()));
    assert_eq!(pairs[0].1.start.line, 1);
    assert_eq!(pairs[0].1.start.column, 1);
    assert_eq!(pairs[1].0, Token::Whitespace);
    assert_eq!(pairs[1].1.start.line, 1);
    assert_eq!(pairs[1].1.start.column, 2);
    // the token for b starts on line 2, column 1
    assert_eq!(pairs[2].0, Token::Ident("b".to_string()));
    assert_eq!(pairs[2].1.start.line, 2);
    assert_eq!(pairs[2].1.start.column, 1);
    assert_eq!(pairs[2].1.start.index, 2);
}

#[test]
fn keywords_const_and_elif() {
    let pairs = lex("const elif");
    let tokens: Vec<Token> =
        pairs.iter().map(|(t, _)| t.clone()).filter(|t| *t != Token::Whitespace).collect();
    assert_eq!(tokens, vec![Token::Const, Token::Elif, Token::Eof]);
}

#[test]
fn identifier_not_a_keyword_prefix() {
    let pairs = lex("iffy let_ _x");
    let tokens: Vec<Token> =
        pairs.iter().map(|(t, _)| t.clone()).filter(|t| *t != Token::Whitespace).collect();
    assert_eq!(
        tokens,
        vec![
            Token::Ident("iffy".to_string()),
            Token::Ident("let_".to_string()),
            Token::Ident("_x".to_string()),
            Token::Eof,
        ]
    );
}

#[test]
fn whitespace_one_token_per_character() {
    let pairs = lex("a  b");
    let tokens: Vec<Token> = pairs.iter().map(|(t, _)| t.clone()).collect();
    assert_eq!(
        tokens,
        vec![
            Token::Ident("a".to_string()),
            Token::Whitespace,
            Token::Whitespace,
            Token::Ident("b".to_string()),
            Token::Eof,
        ]
    );
}

#[test]
fn empty_input_yields_only_eof() {
    let pairs = lex("");
    assert_eq!(pairs.len(), 1);
    assert_eq!(pairs[0].0, Token::Eof);
    assert_eq!(pairs[0].1.start.index, 0);
    assert_eq!(pairs[0].1.end.index, 1);
    assert_eq!(pairs[0].1.filename, "main.mw");
}

#[test]
fn embedded_nul_is_not_end_of_input() {
    // a NUL character inside the text is no lexical rule's character: it makes
    // an Invalid token, and the single Eof still comes only at the true end
    let pairs = lex("a\0b");
    let tokens: Vec<Token> = pairs.iter().map(|(t, _)| t.clone()).collect();
    assert_eq!(
        tokens,
        vec![
            Token::Ident("a".to_string()),
            Token::Invalid(LexerError::UnknownChar('\0')),
            Token::Ident("b".to_string()),
            Token::Eof,
        ]
    );
}

#[test]
fn get_keywords_table() {
    let keywords = Lexer::get_keywords();
    assert_eq!(keywords.len(), 17);
    assert_eq!(keywords[0].0, "true");
    assert_eq!(keywords[0].1, Token::Bool("true".to_string()));
    assert_eq!(keywords[1].0, "false");
    assert_eq!(keywords[1].1, Token::Bool("false".to_string()));
    assert_eq!(keywords[16].0, "while");
    assert_eq!(keywords[16].1, Token::While);
}

#[test]
fn locate_spans_the_current_token() {
    let mut lexer = Lexer::new("main.mw", "ab\ncd");
    // a fresh lexer locates the empty span at the beginning of the file
    let at_start = lexer.locate();
    assert_eq!(at_start.filename, "main.mw");
    assert_eq!(at_start.start.index, 0);
    assert_eq!((at_start.start.line, at_start.start.column), (1, 1));
    assert_eq!(at_start.end.index, 0);
    // after three pulls (ab, newline, cd) the location spans the cd token
    lexer.next();
    lexer.next();
    lexer.next();
    let at_cd = lexer.locate();
    assert_eq!(at_cd.start.index, 3);
    assert_eq!((at_cd.start.line, at_cd.start.column), (2, 1));
    assert_eq!(at_cd.end.index, 5);
}

#[test]
fn position_begin_and_advance() {
    let mut p = Position::begin();
    assert_eq!((p.index, p.line, p.column), (0, 1, 1));
    p.advance(false);
    assert_eq!((p.index, p.line, p.column), (1, 1, 2));
    p.advance(true);
    assert_eq!((p.index, p.line, p.column), (2, 2, 1));
    p.advance(false);
    assert_eq!((p.index, p.line, p.column), (3, 2, 2));
}

#[test]
fn token_duplicate_is_equal() {
    let tokens = vec![
        Token::Ident("abc".to_string()),
        Token::String("a\nb".to_string()),
        Token::Int("42".to_string()),
        Token::Float("4.2".to_string()),
        Token::Bool("true".to_string()),
        Token::EqEq,
        Token::Invalid(LexerError::UnknownChar('`')),
        Token::Eof,
    ];
    for t in tokens.iter() {
        assert_eq!(t.duplicate(), *t);
    }
}
