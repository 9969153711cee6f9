//! Lexing is the simplest compilation phase. Its goal is to convert a stream
//! of characters into a sequence of tokens that can then be fed into the
//! parser.

pub mod token;

use vstd::prelude::*;
use vstd::string::*;

use crate::errors::location::col_at;
use crate::errors::location::line_at;
use crate::errors::location::EndPosition;
use crate::errors::location::Locatable;
use crate::errors::location::Location;
use crate::errors::location::Position;
use crate::lexer::token::LexerError;
use crate::lexer::token::Token;
use crate::lexer::token::TokenModel;

verus! {

/// Characters that form a `Whitespace` token: ASCII blanks and the Unicode
/// space/line-separator code points the lexer recognizes.
pub open spec fn is_whitespace_char(c: char) -> bool {
    ||| c == '\n'
    ||| c == '\r'
    ||| c == '\t'
    ||| c == ' '
    ||| c == '\u{000B}'
    ||| c == '\u{000C}'
    ||| c == '\u{0085}'
    ||| c == '\u{200E}'
    ||| c == '\u{200F}'
    ||| c == '\u{2028}'
    ||| c == '\u{2029}'
}

/// ASCII decimal digits.
pub open spec fn is_digit_char(c: char) -> bool {
    '0' <= c && c <= '9'
}

/// Characters that may begin an identifier: ASCII letters and underscore.
pub open spec fn is_ident_start(c: char) -> bool {
    ||| 'a' <= c && c <= 'z'
    ||| 'A' <= c && c <= 'Z'
    ||| c == '_'
}

/// Characters that may continue an identifier: letters, digits, underscore.
pub open spec fn is_ident_continue(c: char) -> bool {
    is_ident_start(c) || is_digit_char(c)
}

/// `s` with every formatting underscore removed: `1_000` spells `1000`.
pub open spec fn strip_underscores(s: Seq<char>) -> Seq<char>
    decreases s.len(),
{
    if s.len() == 0 {
        Seq::empty()
    } else {
        let prefix = strip_underscores(s.drop_last());
        if s.last() == '_' {
            prefix
        } else {
            prefix.push(s.last())
        }
    }
}

/// The index of the first newline at or after `i`, or the length of `text` if
/// there is none: where a single-line comment starting at `i` ends.
pub open spec fn skip_line(text: Seq<char>, i: nat) -> nat
    decreases text.len() - i,
{
    if i >= text.len() {
        text.len()
    } else if text[i as int] == '\n' {
        i
    } else {
        skip_line(text, i + 1)
    }
}

/// The index just past the maximal run of digits and underscores at `i`.
pub open spec fn skip_digits(text: Seq<char>, i: nat) -> nat
    decreases text.len() - i,
{
    if i >= text.len() {
        text.len()
    } else if is_digit_char(text[i as int]) || text[i as int] == '_' {
        skip_digits(text, i + 1)
    } else {
        i
    }
}

/// The index just past the maximal run of identifier characters at `i`.
pub open spec fn skip_ident_chars(text: Seq<char>, i: nat) -> nat
    decreases text.len() - i,
{
    if i >= text.len() {
        text.len()
    } else if is_ident_continue(text[i as int]) {
        skip_ident_chars(text, i + 1)
    } else {
        i
    }
}

/// The reserved spellings and the keyword (or boolean literal) token each one
/// resolves to. An identifier whose spelling is not listed here stays an
/// `Ident`.
pub open spec fn keyword_table() -> Seq<(Seq<char>, TokenModel)> {
    seq![
        ("true"@, TokenModel::Bool("true"@)),
        ("false"@, TokenModel::Bool("false"@)),
        ("and"@, TokenModel::And),
        ("const"@, TokenModel::Const),
        ("elif"@, TokenModel::Elif),
        ("else"@, TokenModel::Else),
        ("for"@, TokenModel::For),
        ("fun"@, TokenModel::Fun),
        ("if"@, TokenModel::If),
        ("import"@, TokenModel::Import),
        ("let"@, TokenModel::Let),
        ("match"@, TokenModel::Match),
        ("mut"@, TokenModel::Mut),
        ("not"@, TokenModel::Not),
        ("or"@, TokenModel::Or),
        ("return"@, TokenModel::Return),
        ("while"@, TokenModel::While),
    ]
}

/// An executable keyword table has the same spellings and tokens as
/// `keyword_table`, in the same order.
pub open spec fn keywords_match(kws: Seq<(String, Token)>) -> bool {
    &&& kws.len() == keyword_table().len()
    &&& forall|k: int|
        0 <= k < kws.len() ==> (#[trigger] kws[k]).0@ == keyword_table()[k].0 && kws[k].1@
            == keyword_table()[k].1
}

/// The token an identifier spelling resolves to: its keyword token if the
/// spelling is reserved (in the order of `keyword_table`), otherwise an
/// `Ident` carrying the spelling.
pub open spec fn keyword_token(s: Seq<char>) -> TokenModel {
    if s == "true"@ {
        TokenModel::Bool("true"@)
    } else if s == "false"@ {
        TokenModel::Bool("false"@)
    } else if s == "and"@ {
        TokenModel::And
    } else if s == "const"@ {
        TokenModel::Const
    } else if s == "elif"@ {
        TokenModel::Elif
    } else if s == "else"@ {
        TokenModel::Else
    } else if s == "for"@ {
        TokenModel::For
    } else if s == "fun"@ {
        TokenModel::Fun
    } else if s == "if"@ {
        TokenModel::If
    } else if s == "import"@ {
        TokenModel::Import
    } else if s == "let"@ {
        TokenModel::Let
    } else if s == "match"@ {
        TokenModel::Match
    } else if s == "mut"@ {
        TokenModel::Mut
    } else if s == "not"@ {
        TokenModel::Not
    } else if s == "or"@ {
        TokenModel::Or
    } else if s == "return"@ {
        TokenModel::Return
    } else if s == "while"@ {
        TokenModel::While
    } else {
        TokenModel::Ident(s)
    }
}

/// What one pull of the lexer produces when dispatched at position `i`:
/// the index of the token's first character (`start`, past any elided
/// comment), the token itself, and the index just past its last character
/// (`end`; one past the input's length for the final `Eof` token).
pub struct ScanResult {
    pub start: nat,
    pub token: TokenModel,
    pub end: nat,
}

/// A string-literal scan in progress: position `i` is inside the quotes,
/// `acc` holds the contents decoded so far. Yields the token the scan ends
/// with and the index just past the characters it consumed.
pub open spec fn scan_string_body(text: Seq<char>, i: nat, acc: Seq<char>) -> (TokenModel, nat)
    decreases text.len() - i,
{
    if i >= text.len() {
        (TokenModel::Invalid(LexerError::Expected('"')), text.len())
    } else if text[i as int] == '"' {
        (TokenModel::String(acc), i + 1)
    } else if text[i as int] == '\\' {
        if i + 1 >= text.len() {
            (TokenModel::Invalid(LexerError::Expected('"')), text.len())
        } else {
            let c = text[i as int + 1];
            if c == '\\' || c == '\'' {
                scan_string_body(text, i + 2, acc.push(c))
            } else if c == 'n' {
                scan_string_body(text, i + 2, acc.push('\n'))
            } else if c == 'r' {
                scan_string_body(text, i + 2, acc.push('\r'))
            } else if c == 't' {
                scan_string_body(text, i + 2, acc.push('\t'))
            } else if c == '0' {
                scan_string_body(text, i + 2, acc.push('\0'))
            } else {
                (TokenModel::Invalid(LexerError::InvalidEscapeSequence(c)), i + 2)
            }
        }
    } else {
        scan_string_body(text, i + 1, acc.push(text[i as int]))
    }
}

/// A number-literal scan at position `i` (a digit): a float if a dot directly
/// followed by a digit follows the integer part, otherwise an integer. The
/// carried spelling has its underscores stripped.
pub open spec fn scan_number(text: Seq<char>, i: nat) -> (TokenModel, nat) {
    let j1 = skip_digits(text, i);
    if j1 < text.len() && text[j1 as int] == '.' && j1 + 1 < text.len() && is_digit_char(
        text[j1 as int + 1],
    ) {
        let j2 = skip_digits(text, j1 + 1);
        (
            TokenModel::Float(
                strip_underscores(text.subrange(i as int, j1 as int)) + "."@ + strip_underscores(
                    text.subrange(j1 as int + 1, j2 as int),
                ),
            ),
            j2,
        )
    } else {
        (TokenModel::Int(strip_underscores(text.subrange(i as int, j1 as int))), j1)
    }
}

/// The token a single character maps to directly, if any.
pub open spec fn single_char_token(c: char) -> Option<TokenModel> {
    if c == '=' {
        Some(TokenModel::Eq)
    } else if c == '>' {
        Some(TokenModel::Gt)
    } else if c == '<' {
        Some(TokenModel::Lt)
    } else if c == '+' {
        Some(TokenModel::Plus)
    } else if c == '-' {
        Some(TokenModel::Minus)
    } else if c == '*' {
        Some(TokenModel::Star)
    } else if c == '/' {
        Some(TokenModel::Slash)
    } else if c == '(' {
        Some(TokenModel::OpenParen)
    } else if c == ')' {
        Some(TokenModel::CloseParen)
    } else if c == '[' {
        Some(TokenModel::OpenBracket)
    } else if c == ']' {
        Some(TokenModel::CloseBracket)
    } else if c == '{' {
        Some(TokenModel::OpenBrace)
    } else if c == '}' {
        Some(TokenModel::CloseBrace)
    } else if c == ';' {
        Some(TokenModel::Semi)
    } else if c == ',' {
        Some(TokenModel::Comma)
    } else if c == '.' {
        Some(TokenModel::Dot)
    } else if c == '!' {
        Some(TokenModel::Bang)
    } else if c == '&' {
        Some(TokenModel::Amp)
    } else if c == '|' {
        Some(TokenModel::Pipe)
    } else if c == '\\' {
        Some(TokenModel::Backslash)
    } else {
        None
    }
}

/// One pull of the lexer, dispatched at position `i` of `text`, most specific
/// rule first: end of input, string literal, number literal, identifier or
/// keyword, comment (elided: the pull yields the token after it), two-char
/// operator, single-char operator, whitespace, unknown character.
pub open spec fn scan(text: Seq<char>, i: nat) -> ScanResult
    recommends
        i <= text.len(),
{
    if i >= text.len() {
        ScanResult { start: i, token: TokenModel::Eof, end: i + 1 }
    } else {
        let c = text[i as int];
        let two = i + 1 < text.len();
        if c == '"' {
            let r = scan_string_body(text, i + 1, Seq::empty());
            ScanResult { start: i, token: r.0, end: r.1 }
        } else if is_digit_char(c) {
            let r = scan_number(text, i);
            ScanResult { start: i, token: r.0, end: r.1 }
        } else if is_ident_start(c) {
            let j = skip_ident_chars(text, i);
            ScanResult {
                start: i,
                token: keyword_token(text.subrange(i as int, j as int)),
                end: j,
            }
        } else if c == '/' && two && text[i as int + 1] == '/' {
            let j = skip_line(text, i);
            if j >= text.len() {
                ScanResult { start: j, token: TokenModel::Eof, end: j + 1 }
            } else {
                ScanResult { start: j, token: TokenModel::Whitespace, end: j + 1 }
            }
        } else if c == '=' && two && text[i as int + 1] == '=' {
            ScanResult { start: i, token: TokenModel::EqEq, end: i + 2 }
        } else if c == '!' && two && text[i as int + 1] == '=' {
            ScanResult { start: i, token: TokenModel::Neq, end: i + 2 }
        } else if c == '>' && two && text[i as int + 1] == '=' {
            ScanResult { start: i, token: TokenModel::GtEq, end: i + 2 }
        } else if c == '<' && two && text[i as int + 1] == '=' {
            ScanResult { start: i, token: TokenModel::LtEq, end: i + 2 }
        } else if single_char_token(c) is Some {
            ScanResult { start: i, token: single_char_token(c)->Some_0, end: i + 1 }
        } else if is_whitespace_char(c) {
            ScanResult { start: i, token: TokenModel::Whitespace, end: i + 1 }
        } else {
            ScanResult { start: i, token: TokenModel::Invalid(LexerError::UnknownChar(c)), end: i + 1 }
        }
    }
}

/// The characters from `a` (exclusive end `b`) form an elided single-line
/// comment: they begin with `//`, contain no newline, and run up to (not
/// including) a newline or the end of the input.
pub open spec fn comment_gap(text: Seq<char>, a: nat, b: nat) -> bool {
    &&& a + 2 <= b
    &&& b <= text.len()
    &&& text[a as int] == '/'
    &&& text[a as int + 1] == '/'
    &&& forall|m: int| a <= m < b ==> text[m] != '\n'
    &&& b == text.len() || text[b as int] == '\n'
}

proof fn lemma_skip_line(text: Seq<char>, i: nat)
    requires
        i <= text.len(),
    ensures
        i <= skip_line(text, i) <= text.len(),
        forall|m: int| i <= m < skip_line(text, i) ==> text[m] != '\n',
        skip_line(text, i) < text.len() ==> text[skip_line(text, i) as int] == '\n',
    decreases text.len() - i,
{
    if i < text.len() && text[i as int] != '\n' {
        lemma_skip_line(text, i + 1);
    }
}

proof fn lemma_skip_digits(text: Seq<char>, i: nat)
    requires
        i <= text.len(),
    ensures
        i <= skip_digits(text, i) <= text.len(),
        forall|m: int|
            i <= m < skip_digits(text, i) ==> is_digit_char(#[trigger] text[m]) || text[m] == '_',
        skip_digits(text, i) < text.len() ==> !(is_digit_char(text[skip_digits(text, i) as int])
            || text[skip_digits(text, i) as int] == '_'),
    decreases text.len() - i,
{
    if i < text.len() && (is_digit_char(text[i as int]) || text[i as int] == '_') {
        lemma_skip_digits(text, i + 1);
    }
}

proof fn lemma_skip_ident_chars(text: Seq<char>, i: nat)
    requires
        i <= text.len(),
    ensures
        i <= skip_ident_chars(text, i) <= text.len(),
        forall|m: int| i <= m < skip_ident_chars(text, i) ==> is_ident_continue(#[trigger] text[m]),
        skip_ident_chars(text, i) < text.len() ==> !is_ident_continue(
            text[skip_ident_chars(text, i) as int],
        ),
    decreases text.len() - i,
{
    if i < text.len() && is_ident_continue(text[i as int]) {
        lemma_skip_ident_chars(text, i + 1);
    }
}

proof fn lemma_scan_string_body(text: Seq<char>, i: nat, acc: Seq<char>)
    requires
        i <= text.len(),
    ensures
        ({
            let r = scan_string_body(text, i, acc);
            &&& i <= r.1 <= text.len()
            &&& (r.0 is String || r.0 is Invalid)
        }),
    decreases text.len() - i,
{
    if i < text.len() && text[i as int] != '"' {
        if text[i as int] == '\\' {
            if i + 1 < text.len() {
                let c = text[i as int + 1];
                if c == '\\' || c == '\'' || c == 'n' || c == 'r' || c == 't' || c == '0' {
                    lemma_scan_string_body(text, i + 2, acc.push(if c == 'n' { '\n' } else if c == 'r' { '\r' } else if c == 't' { '\t' } else if c == '0' { '\0' } else { c }));
                }
            }
        } else {
            lemma_scan_string_body(text, i + 1, acc.push(text[i as int]));
        }
    }
}

proof fn lemma_scan_number(text: Seq<char>, i: nat)
    requires
        i < text.len(),
        is_digit_char(text[i as int]),
    ensures
        ({
            let r = scan_number(text, i);
            &&& i < r.1 <= text.len()
            &&& (r.0 is Int || r.0 is Float)
        }),
{
    lemma_skip_digits(text, i);
    let j1 = skip_digits(text, i);
    assert(j1 > i);
    if j1 < text.len() && text[j1 as int] == '.' && j1 + 1 < text.len() && is_digit_char(
        text[j1 as int + 1],
    ) {
        lemma_skip_digits(text, j1 + 1);
    }
}

/// Every pull makes progress: the scanned token begins at or after the
/// dispatch position (after it exactly when a comment was elided), spans at
/// least one character, and ends past the input's length exactly when it is
/// the final `Eof`.
pub proof fn lemma_scan_bounds(text: Seq<char>, i: nat)
    requires
        i <= text.len(),
    ensures
        ({
            let r = scan(text, i);
            &&& i <= r.start <= text.len()
            &&& r.start < r.end <= text.len() + 1
            &&& (r.token is Eof <==> r.end == text.len() + 1)
            &&& (r.start == i || comment_gap(text, i, r.start))
        }),
{
    if i < text.len() {
        let c = text[i as int];
        let two = i + 1 < text.len();
        if c == '"' {
            lemma_scan_string_body(text, i + 1, Seq::empty());
        } else if is_digit_char(c) {
            lemma_scan_number(text, i);
        } else if is_ident_start(c) {
            lemma_skip_ident_chars(text, i);
        } else if c == '/' && two && text[i as int + 1] == '/' {
            lemma_skip_line(text, i);
            let j = skip_line(text, i);
            assert(skip_line(text, i) == skip_line(text, i + 1));
            assert(skip_line(text, i + 1) == skip_line(text, i + 2));
            lemma_skip_line(text, i + 2);
            assert(j >= i + 2);
            assert(comment_gap(text, i, j));
        }
    }
}

/// The whole token stream of `text` from position `i`: one pull after
/// another until the pull that runs past the input's length.
pub open spec fn spec_lex(text: Seq<char>, i: nat) -> Seq<ScanResult>
    decreases text.len() + 1 - i,
        via spec_lex_decreases
{
    if i > text.len() {
        Seq::empty()
    } else {
        seq![scan(text, i)] + spec_lex(text, scan(text, i).end)
    }
}

#[via_fn]
proof fn spec_lex_decreases(text: Seq<char>, i: nat) {
    if i <= text.len() {
        lemma_scan_bounds(text, i);
    }
}

proof fn lemma_stream_props(text: Seq<char>, i: nat)
    requires
        i <= text.len(),
    ensures
        ({
            let s = spec_lex(text, i);
            &&& s.len() >= 1
            &&& s[s.len() - 1].token is Eof
            &&& s[s.len() - 1].end == text.len() + 1
            &&& forall|k: int| 0 <= k < s.len() - 1 ==> !((#[trigger] s[k]).token is Eof)
            &&& forall|k: int|
                0 <= k < s.len() ==> (#[trigger] s[k]).start < s[k].end <= text.len() + 1
            &&& s[0].start == i || comment_gap(text, i, s[0].start)
            &&& forall|k: int|
                1 <= k < s.len() ==> ((#[trigger] s[k]).start == s[k - 1].end || comment_gap(
                    text,
                    s[k - 1].end,
                    s[k].start,
                ))
        }),
    decreases text.len() + 1 - i,
{
    lemma_scan_bounds(text, i);
    let sc = scan(text, i);
    let s = spec_lex(text, i);
    if sc.end <= text.len() {
        lemma_stream_props(text, sc.end);
        let rest = spec_lex(text, sc.end);
        assert(s == seq![sc] + rest);
        assert(s[0] == sc);
        assert forall|k: int| 1 <= k < s.len() implies s[k] == rest[k - 1] by {}
    } else {
        assert(sc.end == text.len() + 1);
        assert(spec_lex(text, sc.end) =~= Seq::<ScanResult>::empty());
        assert(s == seq![sc] + Seq::<ScanResult>::empty());
        assert(s =~= seq![sc]);
    }
}

/// Appends one character to a string.
///
/// Relies on `String::push`: it appends exactly the given character.
#[verifier::external_body]
fn push_char(s: &mut String, c: char)
    ensures
        final(s)@ == old(s)@.push(c),
{
    s.push(c);
}

fn is_digit(c: char) -> (r: bool)
    ensures
        r == is_digit_char(c),
{
    '0' <= c && c <= '9'
}

fn is_ident_start_char(c: char) -> (r: bool)
    ensures
        r == is_ident_start(c),
{
    ('a' <= c && c <= 'z') || ('A' <= c && c <= 'Z') || c == '_'
}

fn is_ident_continue_char(c: char) -> (r: bool)
    ensures
        r == is_ident_continue(c),
{
    is_ident_start_char(c) || is_digit(c)
}

fn is_whitespace(c: char) -> (r: bool)
    ensures
        r == is_whitespace_char(c),
{
    c == '\n' || c == '\r' || c == '\t' || c == ' ' || c == '\u{000B}' || c == '\u{000C}' || c
        == '\u{0085}' || c == '\u{200E}' || c == '\u{200F}' || c == '\u{2028}' || c == '\u{2029}'
}

/// The lexer: a character cursor over borrowed source text. `current` and
/// `next` are the one-character lookahead window (`'\0'` standing in past the
/// end of the input), and the two positions track where the token being
/// scanned started and where the cursor stands.
pub struct Lexer<'a> {
    current: char,
    next: char,
    filename: &'a str,
    file_contents: &'a str,
    length: usize,
    token_start_position: Position,
    current_position: Position,
    keywords: Vec<(String, Token)>,
}

impl<'a> Lexer<'a> {
    /// The source text, as the sequence of its characters.
    pub closed spec fn src(&self) -> Seq<char> {
        self.file_contents@
    }

    /// The name of the source, as shown in locations.
    pub closed spec fn source_name(&self) -> Seq<char> {
        self.filename@
    }

    /// The character index the cursor stands at.
    pub closed spec fn pos(&self) -> nat {
        self.current_position.index as nat
    }

    /// The position recorded where the current token began.
    pub closed spec fn token_start(&self) -> Position {
        self.token_start_position
    }

    /// The character under the cursor, `'\0'` past the end of the input.
    pub closed spec fn cur_char(&self) -> char {
        if self.pos() < self.src().len() {
            self.src()[self.pos() as int]
        } else {
            '\0'
        }
    }

    /// Well-formed: the cursor stands at most one step past the end of the
    /// text and at or after the recorded token start, its line and column
    /// agree with the newline rule, the one-character lookahead window
    /// mirrors the text, and the keyword table is the standard one. The text
    /// is short enough that no position counter can overflow.
    pub closed spec fn wf(&self) -> bool {
        &&& self.length == self.file_contents@.len()
        &&& self.file_contents@.len() + 2 <= u32::MAX
        &&& self.current_position.index <= self.file_contents@.len() + 1
        &&& self.token_start_position.index <= self.current_position.index
        &&& (self.current_position.index <= self.file_contents@.len() ==> {
            &&& self.current_position.line == line_at(self.src(), self.pos())
            &&& self.current_position.column == col_at(self.src(), self.pos())
        })
        &&& self.current == self.cur_char()
        &&& self.next == (if self.pos() + 1 < self.src().len() {
            self.src()[self.pos() as int + 1]
        } else {
            '\0'
        })
        &&& keywords_match(self.keywords@)
    }

    /// The standard keyword table: each reserved spelling paired with its
    /// token, in the order of `keyword_table`.
    pub fn get_keywords() -> (r: Vec<(String, Token)>)
        ensures
            keywords_match(r@),
    {
        let mut keywords: Vec<(String, Token)> = Vec::new();

        keywords.push((String::from_str("true"), Token::Bool(String::from_str("true"))));
        keywords.push((String::from_str("false"), Token::Bool(String::from_str("false"))));
        keywords.push((String::from_str("and"), Token::And));
        keywords.push((String::from_str("const"), Token::Const));
        keywords.push((String::from_str("elif"), Token::Elif));
        keywords.push((String::from_str("else"), Token::Else));
        keywords.push((String::from_str("for"), Token::For));
        keywords.push((String::from_str("fun"), Token::Fun));
        keywords.push((String::from_str("if"), Token::If));
        keywords.push((String::from_str("import"), Token::Import));
        keywords.push((String::from_str("let"), Token::Let));
        keywords.push((String::from_str("match"), Token::Match));
        keywords.push((String::from_str("mut"), Token::Mut));
        keywords.push((String::from_str("not"), Token::Not));
        keywords.push((String::from_str("or"), Token::Or));
        keywords.push((String::from_str("return"), Token::Return));
        keywords.push((String::from_str("while"), Token::While));

        assert forall|k: int| 0 <= k < keywords@.len() implies (#[trigger] keywords@[k]).0@
            == keyword_table()[k].0 && keywords@[k].1@ == keyword_table()[k].1 by {}
        keywords
    }

    /// A fresh lexer over `file_contents`, its cursor at the first character.
    /// The bound on the text's length keeps the position counters from
    /// overflowing.
    pub fn new(filename: &'a str, file_contents: &'a str) -> (l: Lexer<'a>)
        requires
            file_contents@.len() + 2 <= u32::MAX,
        ensures
            l.wf(),
            l.src() == file_contents@,
            l.source_name() == filename@,
            l.pos() == 0,
    {
        let length = file_contents.unicode_len();
        let current = if length > 0 {
            file_contents.get_char(0)
        } else {
            '\0'
        };
        let next = if length > 1 {
            file_contents.get_char(1)
        } else {
            '\0'
        };
        Lexer {
            current,
            next,
            filename,
            file_contents,
            length,
            current_position: Position::begin(),
            token_start_position: Position::begin(),
            keywords: Lexer::get_keywords(),
        }
    }

    fn at_end_of_input(&self) -> (r: bool)
        requires
            self.wf(),
        ensures
            r == (self.pos() >= self.src().len()),
    {
        self.current_position.index >= self.length
    }

    /// Moves the cursor one character forward and returns the character it
    /// moved past, updating line/column by the newline rule.
    fn advance(&mut self) -> (c: char)
        requires
            old(self).wf(),
            old(self).pos() <= old(self).src().len(),
        ensures
            final(self).wf(),
            final(self).file_contents == old(self).file_contents,
            final(self).filename == old(self).filename,
            final(self).keywords == old(self).keywords,
            final(self).token_start_position == old(self).token_start_position,
            final(self).pos() == old(self).pos() + 1,
            c == old(self).cur_char(),
    {
        proof {
            crate::errors::location::lemma_line_col_bounds(self.src(), self.pos());
        }
        let ret = self.current;
        self.current = self.next;
        self.next = if self.current_position.index + 2 < self.length {
            self.file_contents.get_char(self.current_position.index + 2)
        } else {
            '\0'
        };
        self.current_position.advance(ret == '\n');
        ret
    }

    fn locate_current(&self) -> (l: Location<'a>)
        ensures
            l.filename == self.filename,
            l.start == self.token_start_position,
            l.end.index == self.current_position.index,
    {
        Location::new(
            self.filename,
            self.token_start_position,
            EndPosition::new(self.current_position.index),
        )
    }

    /// Advances one character and yields `token` spanning up to the new
    /// cursor position.
    fn advance_with(&mut self, token: Token) -> (r: Option<(Token, Location<'a>)>)
        requires
            old(self).wf(),
            old(self).pos() <= old(self).src().len(),
        ensures
            final(self).wf(),
            final(self).file_contents == old(self).file_contents,
            final(self).filename == old(self).filename,
            final(self).token_start_position == old(self).token_start_position,
            final(self).pos() == old(self).pos() + 1,
            (r matches Some((t, l)) && {
                &&& t@ == token@
                &&& l.filename@ == old(self).source_name()
                &&& l.start == old(self).token_start_position
                &&& l.end.index == old(self).pos() + 1
            }),
    {
        self.advance();
        Some((token, self.locate_current()))
    }

    /// Advances two characters and yields `token` spanning up to the new
    /// cursor position.
    fn advance2_with(&mut self, token: Token) -> (r: Option<(Token, Location<'a>)>)
        requires
            old(self).wf(),
            old(self).pos() + 1 <= old(self).src().len(),
        ensures
            final(self).wf(),
            final(self).file_contents == old(self).file_contents,
            final(self).filename == old(self).filename,
            final(self).token_start_position == old(self).token_start_position,
            final(self).pos() == old(self).pos() + 2,
            (r matches Some((t, l)) && {
                &&& t@ == token@
                &&& l.filename@ == old(self).source_name()
                &&& l.start == old(self).token_start_position
                &&& l.end.index == old(self).pos() + 2
            }),
    {
        self.advance();
        self.advance_with(token)
    }

    /// Yields `token` if the current character is the expected delimiter,
    /// otherwise an `Invalid` token reporting the missing delimiter; advances
    /// past the character either way.
    fn expect(&mut self, expected: char, token: Token) -> (r: Option<(Token, Location<'a>)>)
        requires
            old(self).wf(),
            old(self).pos() <= old(self).src().len(),
        ensures
            final(self).wf(),
            final(self).file_contents == old(self).file_contents,
            final(self).filename == old(self).filename,
            final(self).token_start_position == old(self).token_start_position,
            final(self).pos() == old(self).pos() + 1,
            (r matches Some((t, l)) && {
                &&& t@ == (if old(self).cur_char() == expected {
                    token@
                } else {
                    TokenModel::Invalid(LexerError::Expected(expected))
                })
                &&& l.filename@ == old(self).source_name()
                &&& l.start == old(self).token_start_position
                &&& l.end.index == old(self).pos() + 1
            }),
    {
        if self.current == expected {
            self.advance_with(token)
        } else {
            self.advance_with(Token::Invalid(LexerError::Expected(expected)))
        }
    }

    /// The slice of the source from the start of the current token to the
    /// cursor.
    fn get_slice_containing_current_token(&self) -> (s: &'a str)
        requires
            self.wf(),
            self.token_start_position.index <= self.current_position.index,
            self.current_position.index <= self.src().len(),
        ensures
            s@ == self.src().subrange(
                self.token_start_position.index as int,
                self.current_position.index as int,
            ),
    {
        self.file_contents.substring_char(
            self.token_start_position.index,
            self.current_position.index,
        )
    }
}

impl<'a> Lexer<'a> {
    /// Consumes the maximal run of digits and underscores at the cursor and
    /// returns its spelling with the underscores stripped.
    fn lex_integer(&mut self) -> (s: String)
        requires
            old(self).wf(),
            old(self).pos() <= old(self).src().len(),
        ensures
            final(self).wf(),
            final(self).file_contents == old(self).file_contents,
            final(self).filename == old(self).filename,
            final(self).token_start_position == old(self).token_start_position,
            final(self).pos() == skip_digits(old(self).src(), old(self).pos()),
            s@ == strip_underscores(
                old(self).src().subrange(old(self).pos() as int, final(self).pos() as int),
            ),
    {
        let ghost orig = *self;
        let ghost text = self.src();
        let ghost start = self.pos();
        let mut s = String::new();
        while !self.at_end_of_input() && (is_digit(self.current) || self.current == '_')
            invariant
                self.wf(),
                self.file_contents == orig.file_contents,
                self.filename == orig.filename,
                self.token_start_position == orig.token_start_position,
                text == self.src(),
                start <= self.pos() <= text.len(),
                skip_digits(text, start) == skip_digits(text, self.pos()),
                s@ == strip_underscores(text.subrange(start as int, self.pos() as int)),
            decreases text.len() - self.pos(),
        {
            proof {
                let p = self.pos() as int;
                assert(text.subrange(start as int, p + 1).drop_last() =~= text.subrange(
                    start as int,
                    p,
                ));
                assert(text.subrange(start as int, p + 1).last() == text[p]);
            }
            if self.current != '_' {
                push_char(&mut s, self.current);
            }
            self.advance();
        }
        s
    }

    /// Scans a number literal at the cursor: the integer part, and — when a
    /// dot directly followed by a digit follows it — the dot and the
    /// fractional part, making a float. The spelling keeps no underscores.
    fn lex_number(&mut self) -> (r: Option<(Token, Location<'a>)>)
        requires
            old(self).wf(),
            old(self).pos() < old(self).src().len(),
            is_digit_char(old(self).src()[old(self).pos() as int]),
            old(self).token_start_position == old(self).current_position,
        ensures
            final(self).wf(),
            final(self).file_contents == old(self).file_contents,
            final(self).filename == old(self).filename,
            ({
                let sc = scan(old(self).src(), old(self).pos());
                &&& final(self).pos() == sc.end
                &&& (r matches Some((t, l)) && {
                    &&& t@ == sc.token
                    &&& l.filename@ == old(self).source_name()
                    &&& l.start == old(self).current_position
                    &&& l.end.index == sc.end
                })
            }),
    {
        let integer_string = self.lex_integer();
        if self.current == '.' && is_digit(self.next) {
            self.advance();
            let frac = self.lex_integer();
            let mut spelling = integer_string;
            spelling.append(".");
            spelling.append(frac.as_str());
            Some((Token::Float(spelling), self.locate_current()))
        } else {
            Some((Token::Int(integer_string), self.locate_current()))
        }
    }

    /// Resolves an identifier spelling against the keyword table: the keyword
    /// token where the spelling is reserved, `None` where it is an ordinary
    /// identifier.
    fn lookup_keyword(&self, spelling: &String) -> (r: Option<Token>)
        requires
            self.wf(),
        ensures
            (match r {
                Some(t) => t@ == keyword_token(spelling@),
                None => keyword_token(spelling@) == TokenModel::Ident(spelling@),
            }),
    {
        if self.keywords[0].0 == *spelling {
            Some(self.keywords[0].1.duplicate())
        } else if self.keywords[1].0 == *spelling {
            Some(self.keywords[1].1.duplicate())
        } else if self.keywords[2].0 == *spelling {
            Some(self.keywords[2].1.duplicate())
        } else if self.keywords[3].0 == *spelling {
            Some(self.keywords[3].1.duplicate())
        } else if self.keywords[4].0 == *spelling {
            Some(self.keywords[4].1.duplicate())
        } else if self.keywords[5].0 == *spelling {
            Some(self.keywords[5].1.duplicate())
        } else if self.keywords[6].0 == *spelling {
            Some(self.keywords[6].1.duplicate())
        } else if self.keywords[7].0 == *spelling {
            Some(self.keywords[7].1.duplicate())
        } else if self.keywords[8].0 == *spelling {
            Some(self.keywords[8].1.duplicate())
        } else if self.keywords[9].0 == *spelling {
            Some(self.keywords[9].1.duplicate())
        } else if self.keywords[10].0 == *spelling {
            Some(self.keywords[10].1.duplicate())
        } else if self.keywords[11].0 == *spelling {
            Some(self.keywords[11].1.duplicate())
        } else if self.keywords[12].0 == *spelling {
            Some(self.keywords[12].1.duplicate())
        } else if self.keywords[13].0 == *spelling {
            Some(self.keywords[13].1.duplicate())
        } else if self.keywords[14].0 == *spelling {
            Some(self.keywords[14].1.duplicate())
        } else if self.keywords[15].0 == *spelling {
            Some(self.keywords[15].1.duplicate())
        } else if self.keywords[16].0 == *spelling {
            Some(self.keywords[16].1.duplicate())
        } else {
            None
        }
    }

    /// Scans a maximal identifier at the cursor and resolves it against the
    /// keyword table.
    fn lex_identifier(&mut self) -> (r: Option<(Token, Location<'a>)>)
        requires
            old(self).wf(),
            old(self).pos() < old(self).src().len(),
            is_ident_start(old(self).src()[old(self).pos() as int]),
            old(self).token_start_position == old(self).current_position,
        ensures
            final(self).wf(),
            final(self).file_contents == old(self).file_contents,
            final(self).filename == old(self).filename,
            ({
                let sc = scan(old(self).src(), old(self).pos());
                &&& final(self).pos() == sc.end
                &&& (r matches Some((t, l)) && {
                    &&& t@ == sc.token
                    &&& l.filename@ == old(self).source_name()
                    &&& l.start == old(self).current_position
                    &&& l.end.index == sc.end
                })
            }),
    {
        let ghost orig = *self;
        let ghost text = self.src();
        let ghost start = self.pos();
        while !self.at_end_of_input() && is_ident_continue_char(self.current)
            invariant
                self.wf(),
                self.file_contents == orig.file_contents,
                self.filename == orig.filename,
                self.token_start_position == orig.token_start_position,
                text == self.src(),
                start <= self.pos() <= text.len(),
                skip_ident_chars(text, start) == skip_ident_chars(text, self.pos()),
            decreases text.len() - self.pos(),
        {
            self.advance();
        }
        let slice = self.get_slice_containing_current_token();
        let spelling = String::from_str(slice);
        let tok = match self.lookup_keyword(&spelling) {
            Some(t) => t,
            None => Token::Ident(spelling),
        };
        Some((tok, self.locate_current()))
    }
}

/// The executable token a single character maps to, mirroring
/// `single_char_token`.
fn single_token(c: char) -> (r: Option<Token>)
    ensures
        (match r {
            Some(t) => single_char_token(c) == Some(t@),
            None => single_char_token(c) is None,
        }),
{
    match c {
        '=' => Some(Token::Eq),
        '>' => Some(Token::Gt),
        '<' => Some(Token::Lt),
        '+' => Some(Token::Plus),
        '-' => Some(Token::Minus),
        '*' => Some(Token::Star),
        '/' => Some(Token::Slash),
        '(' => Some(Token::OpenParen),
        ')' => Some(Token::CloseParen),
        '[' => Some(Token::OpenBracket),
        ']' => Some(Token::CloseBracket),
        '{' => Some(Token::OpenBrace),
        '}' => Some(Token::CloseBrace),
        ';' => Some(Token::Semi),
        ',' => Some(Token::Comma),
        '.' => Some(Token::Dot),
        '!' => Some(Token::Bang),
        '&' => Some(Token::Amp),
        '|' => Some(Token::Pipe),
        '\\' => Some(Token::Backslash),
        _ => None,
    }
}

impl<'a> Lexer<'a> {
    /// Scans a string literal at the cursor (an opening quote): decodes the
    /// contents between the quotes, resolving escapes; a bad escape or a
    /// missing closing quote yields the corresponding `Invalid` token.
    fn lex_string(&mut self) -> (r: Option<(Token, Location<'a>)>)
        requires
            old(self).wf(),
            old(self).pos() < old(self).src().len(),
            old(self).src()[old(self).pos() as int] == '"',
            old(self).token_start_position == old(self).current_position,
        ensures
            final(self).wf(),
            final(self).file_contents == old(self).file_contents,
            final(self).filename == old(self).filename,
            ({
                let sc = scan(old(self).src(), old(self).pos());
                &&& final(self).pos() == sc.end
                &&& (r matches Some((t, l)) && {
                    &&& t@ == sc.token
                    &&& l.filename@ == old(self).source_name()
                    &&& l.start == old(self).current_position
                    &&& l.end.index == sc.end
                })
            }),
    {
        let ghost text = self.src();
        let ghost start = self.pos();
        self.advance();
        let mut contents = String::new();
        loop
            invariant
                self.wf(),
                self.file_contents == old(self).file_contents,
                self.filename == old(self).filename,
                self.token_start_position == old(self).token_start_position,
                old(self).token_start_position == old(self).current_position,
                text == old(self).src(),
                start == old(self).pos(),
                text == self.src(),
                start < text.len(),
                text[start as int] == '"',
                start + 1 <= self.pos() <= text.len(),
                scan_string_body(text, start + 1, Seq::empty()) == scan_string_body(
                    text,
                    self.pos(),
                    contents@,
                ),
            decreases text.len() - self.pos(),
        {
            if self.at_end_of_input() {
                return Some((Token::Invalid(LexerError::Expected('"')), self.locate_current()));
            }
            if self.current == '"' {
                return self.expect('"', Token::String(contents));
            }
            if self.current == '\\' {
                self.advance();
                if self.at_end_of_input() {
                    return Some(
                        (Token::Invalid(LexerError::Expected('"')), self.locate_current()),
                    );
                }
                let c = self.current;
                if c == '\\' || c == '\'' {
                    push_char(&mut contents, c);
                } else if c == 'n' {
                    push_char(&mut contents, '\n');
                } else if c == 'r' {
                    push_char(&mut contents, '\r');
                } else if c == 't' {
                    push_char(&mut contents, '\t');
                } else if c == '0' {
                    push_char(&mut contents, '\0');
                } else {
                    return self.advance_with(
                        Token::Invalid(LexerError::InvalidEscapeSequence(c)),
                    );
                }
                self.advance();
            } else {
                push_char(&mut contents, self.current);
                self.advance();
            }
        }
    }

    /// Skips a single-line comment (the characters through the end of the
    /// line, exclusive of the newline) and yields the token after it: the
    /// newline's `Whitespace` token, or `Eof` when the comment runs to the
    /// end of the input. Comments are elided from the stream entirely.
    fn lex_singleline_comment(&mut self) -> (r: Option<(Token, Location<'a>)>)
        requires
            old(self).wf(),
            old(self).pos() + 1 < old(self).src().len(),
            old(self).src()[old(self).pos() as int] == '/',
            old(self).src()[old(self).pos() as int + 1] == '/',
        ensures
            final(self).wf(),
            final(self).file_contents == old(self).file_contents,
            final(self).filename == old(self).filename,
            ({
                let sc = scan(old(self).src(), old(self).pos());
                &&& final(self).pos() == sc.end
                &&& (r matches Some((t, l)) && {
                    &&& t@ == sc.token
                    &&& l.filename@ == old(self).source_name()
                    &&& l.start.index == sc.start
                    &&& l.start.line == line_at(old(self).src(), sc.start)
                    &&& l.start.column == col_at(old(self).src(), sc.start)
                    &&& l.end.index == sc.end
                })
            }),
    {
        let ghost orig = *self;
        let ghost text = self.src();
        let ghost start = self.pos();
        while !self.at_end_of_input() && self.current != '\n'
            invariant
                self.wf(),
                self.file_contents == orig.file_contents,
                self.filename == orig.filename,
                text == self.src(),
                start <= self.pos() <= text.len(),
                skip_line(text, start) == skip_line(text, self.pos()),
            decreases text.len() - self.pos(),
        {
            self.advance();
        }
        self.token_start_position = self.current_position;
        if self.at_end_of_input() {
            self.advance_with(Token::Eof)
        } else {
            self.advance_with(Token::Whitespace)
        }
    }

    /// One pull: produces the next token of the stream with its location, or
    /// `None` once the stream is exhausted. The pull performs exactly the
    /// work needed for that one token, matching `scan` at the cursor: after
    /// the stream's single `Eof` token every further pull returns `None`.
    pub fn next(&mut self) -> (r: Option<(Token, Location<'a>)>)
        requires
            old(self).wf(),
        ensures
            final(self).wf(),
            final(self).src() == old(self).src(),
            final(self).source_name() == old(self).source_name(),
            old(self).pos() > old(self).src().len() ==> r is None && final(self).pos() == old(
                self,
            ).pos(),
            old(self).pos() <= old(self).src().len() ==> ({
                let sc = scan(old(self).src(), old(self).pos());
                &&& final(self).pos() == sc.end
                &&& (r matches Some((t, l)) && {
                    &&& t@ == sc.token
                    &&& l.filename@ == old(self).source_name()
                    &&& l.start.index == sc.start
                    &&& l.start.line == line_at(old(self).src(), sc.start)
                    &&& l.start.column == col_at(old(self).src(), sc.start)
                    &&& l.end.index == sc.end
                })
            }),
    {
        if self.current_position.index > self.length {
            return None;
        }
        self.token_start_position = self.current_position;
        if self.at_end_of_input() {
            return self.advance_with(Token::Eof);
        }
        let c = self.current;
        let n = self.next;
        if c == '"' {
            return self.lex_string();
        }
        if is_digit(c) {
            return self.lex_number();
        }
        if is_ident_start_char(c) {
            return self.lex_identifier();
        }
        if c == '/' && n == '/' {
            return self.lex_singleline_comment();
        }
        if c == '=' && n == '=' {
            return self.advance2_with(Token::EqEq);
        }
        if c == '!' && n == '=' {
            return self.advance2_with(Token::Neq);
        }
        if c == '>' && n == '=' {
            return self.advance2_with(Token::GtEq);
        }
        if c == '<' && n == '=' {
            return self.advance2_with(Token::LtEq);
        }
        match single_token(c) {
            Some(tok) => {
                return self.advance_with(tok);
            },
            None => {},
        }
        if is_whitespace(c) {
            return self.advance_with(Token::Whitespace);
        }
        self.advance_with(Token::Invalid(LexerError::UnknownChar(c)))
    }
}

/// An emitted token/location pair agrees with one pull of the mathematical
/// scanner: same token, the source's name, and a span whose start carries the
/// line and column the newline rule assigns to it.
pub open spec fn token_matches<'a>(
    src: Seq<char>,
    name: Seq<char>,
    p: (Token, Location<'a>),
    sc: ScanResult,
) -> bool {
    &&& p.0@ == sc.token
    &&& p.1.filename@ == name
    &&& p.1.start.index == sc.start
    &&& p.1.start.line == line_at(src, sc.start)
    &&& p.1.start.column == col_at(src, sc.start)
    &&& p.1.end.index == sc.end
}

impl<'a> Lexer<'a> {
    /// The whole remaining token stream, collected eagerly: exactly the
    /// pulls of `spec_lex`, ending with the single `Eof` token. Afterwards
    /// the lexer is exhausted: the cursor stands one past the input, where
    /// every further pull yields nothing.
    pub fn tokens(&mut self) -> (r: Vec<(Token, Location<'a>)>)
        requires
            old(self).wf(),
        ensures
            final(self).wf(),
            final(self).src() == old(self).src(),
            final(self).source_name() == old(self).source_name(),
            final(self).pos() == old(self).src().len() + 1,
            r@.len() == spec_lex(old(self).src(), old(self).pos()).len(),
            forall|k: int|
                0 <= k < r@.len() ==> token_matches(
                    old(self).src(),
                    old(self).source_name(),
                    #[trigger] r@[k],
                    spec_lex(old(self).src(), old(self).pos())[k],
                ),
    {
        let ghost text = self.src();
        let ghost name = self.source_name();
        let ghost pos0 = self.pos();
        let mut out: Vec<(Token, Location<'a>)> = Vec::new();
        loop
            invariant
                self.wf(),
                text == old(self).src(),
                name == old(self).source_name(),
                pos0 == old(self).pos(),
                self.src() == text,
                self.source_name() == name,
                self.pos() <= text.len() + 1,
                out@.len() <= spec_lex(text, pos0).len(),
                spec_lex(text, pos0).skip(out@.len() as int) == spec_lex(text, self.pos()),
                forall|k: int|
                    0 <= k < out@.len() ==> token_matches(
                        text,
                        name,
                        #[trigger] out@[k],
                        spec_lex(text, pos0)[k],
                    ),
            decreases text.len() + 2 - self.pos(),
        {
            let ghost prev = self.pos();
            let r = self.next();
            match r {
                None => {
                    return out;
                },
                Some(pair) => {
                    proof {
                        lemma_scan_bounds(text, prev);
                        let sc = scan(text, prev);
                        let n = out@.len() as int;
                        let s0 = spec_lex(text, pos0);
                        assert(spec_lex(text, prev) == seq![sc] + spec_lex(text, sc.end));
                        vstd::seq_lib::lemma_seq_skip_len(s0, n);
                        vstd::seq_lib::lemma_seq_skip_index(s0, n, 0);
                        assert(s0[n] == sc);
                        assert(s0.skip(n + 1) =~= spec_lex(text, sc.end)) by {
                            vstd::seq_lib::lemma_seq_skip_len(s0, n + 1);
                            assert forall|j: int|
                                0 <= j < s0.skip(n + 1).len() implies s0.skip(n + 1)[j] == spec_lex(
                                text,
                                sc.end,
                            )[j] by {
                                vstd::seq_lib::lemma_seq_skip_index(s0, n + 1, j);
                                vstd::seq_lib::lemma_seq_skip_index(s0, n, j + 1);
                            }
                        }
                    }
                    out.push(pair);
                },
            }
        }
    }
}

impl<'a> Locatable<'a> for Lexer<'a> {
    /// The location spanning from the recorded start of the current token to
    /// the cursor (exclusive end), in the lexer's source.
    fn locate(&self) -> (loc: Location<'a>)
        ensures
            loc.filename@ == self.source_name(),
            loc.start == self.token_start(),
            loc.end.index == self.pos(),
            self.wf() ==> loc.start.index <= loc.end.index,
    {
        Location::new(
            self.filename,
            self.token_start_position,
            EndPosition::new(self.current_position.index),
        )
    }
}

/// An unknown character never stalls the lexer: dispatching at a character
/// that no lexical rule covers yields an `Invalid` token carrying exactly
/// that character and advances exactly one character.
pub proof fn lemma_unknown_char_advances_one(text: Seq<char>, i: nat)
    requires
        i < text.len(),
        !(text[i as int] == '"'),
        !is_digit_char(text[i as int]),
        !is_ident_start(text[i as int]),
        !is_whitespace_char(text[i as int]),
        single_char_token(text[i as int]) is None,
    ensures
        scan(text, i).start == i,
        scan(text, i).token == TokenModel::Invalid(LexerError::UnknownChar(text[i as int])),
        scan(text, i).end == i + 1,
{
}

/// Totality: for any finite input, the token stream is finite and terminates
/// with exactly one `Eof` token, which stands at its end.
pub proof fn lemma_token_stream_total(text: Seq<char>)
    ensures
        ({
            let s = spec_lex(text, 0);
            &&& s.len() >= 1
            &&& s[s.len() - 1].token is Eof
            &&& forall|k: int| 0 <= k < s.len() - 1 ==> !((#[trigger] s[k]).token is Eof)
        }),
{
    lemma_stream_props(text, 0);
}

/// Coverage: the source spans of the emitted tokens reconstruct the input
/// exactly once, with no gaps or overlaps: each token starts where its
/// predecessor ended — except that an elided comment's characters may stand
/// between the two —, the first token starts at position 0 (or after a
/// leading comment), every token spans at least one character, and the final
/// `Eof` token's span ends just past the input's last character.
pub proof fn lemma_token_stream_coverage(text: Seq<char>)
    ensures
        ({
            let s = spec_lex(text, 0);
            &&& s.len() >= 1
            &&& s[0].start == 0 || comment_gap(text, 0, s[0].start)
            &&& forall|k: int|
                0 <= k < s.len() ==> (#[trigger] s[k]).start < s[k].end <= text.len() + 1
            &&& forall|k: int|
                1 <= k < s.len() ==> ((#[trigger] s[k]).start == s[k - 1].end || comment_gap(
                    text,
                    s[k - 1].end,
                    s[k].start,
                ))
            &&& s[s.len() - 1].end == text.len() + 1
        }),
{
    lemma_stream_props(text, 0);
}

} // verus!
