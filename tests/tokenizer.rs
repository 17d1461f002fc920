use lexer::extractors::{
    extract_boolean, extract_comment, extract_identifier, extract_keyword, extract_number,
    extract_operator, extract_punctuation, extract_string, extract_type,
};
use lexer::lexer::{next_token, Lexer};
use lexer::token::{Literal, Token};
use lexer::types::Type;

fn lex(input: &str) -> Vec<Token> {
    Lexer::new().run(input)
}

fn chars(input: &str) -> Vec<char> {
    input.chars().collect()
}

fn number(t: &str) -> Token {
    Token::Literal(Literal::Number(t.to_string()))
}

fn op(t: &str) -> Token {
    Token::Operator(t.to_string())
}

fn ident(t: &str) -> Token {
    Token::Identifier(t.to_string())
}

#[test]
fn empty_input_gives_only_end_marker() {
    assert_eq!(lex(""), vec![Token::EOF]);
    assert_eq!(lex("   \n\t "), vec![Token::EOF]);
}

#[test]
fn output_ends_with_exactly_one_end_marker() {
    for input in ["let x = 5;", "\"open", "/* never closed", "@@@", "a-b-c", "é ü"] {
        let tokens = lex(input);
        assert_eq!(tokens.last(), Some(&Token::EOF));
        assert_eq!(tokens.iter().filter(|t| **t == Token::EOF).count(), 1);
    }
}

#[test]
fn whitespace_between_tokens_changes_nothing() {
    let dense = lex("let x=(a+5)*b;");
    let spaced = lex("  let   x =\t( a + 5 )\n* b ;  ");
    assert_eq!(dense, spaced);
    assert_eq!(
        dense,
        vec![
            Token::Keyword("let".to_string()),
            ident("x"),
            op("="),
            Token::Punctuation('('),
            ident("a"),
            op("+"),
            number("5"),
            Token::Punctuation(')'),
            op("*"),
            ident("b"),
            Token::Punctuation(';'),
            Token::EOF,
        ]
    );
}

#[test]
fn double_equal_is_one_operator() {
    assert_eq!(lex("=="), vec![op("=="), Token::EOF]);
    assert_eq!(lex(">=<=||&&"), vec![op(">="), op("<="), op("||"), op("&&"), Token::EOF]);
    assert_eq!(lex("= ="), vec![op("="), op("="), Token::EOF]);
}

#[test]
fn minus_after_identifier_is_subtraction() {
    assert_eq!(lex("x - 5"), vec![ident("x"), op("-"), number("5"), Token::EOF]);
    assert_eq!(lex("x -5"), vec![ident("x"), op("-"), number("5"), Token::EOF]);
    assert_eq!(lex("3-5"), vec![number("3"), op("-"), number("5"), Token::EOF]);
}

#[test]
fn minus_after_punctuation_is_a_sign() {
    assert_eq!(
        lex("(-5)"),
        vec![Token::Punctuation('('), number("-5"), Token::Punctuation(')'), Token::EOF]
    );
    assert_eq!(lex("= -42"), vec![op("="), number("-42"), Token::EOF]);
    assert_eq!(
        lex("(- 5)"),
        vec![Token::Punctuation('('), op("-"), number("5"), Token::Punctuation(')'), Token::EOF]
    );
}

#[test]
fn minus_at_start_is_an_operator() {
    assert_eq!(lex("-5"), vec![op("-"), number("5"), Token::EOF]);
}

#[test]
fn string_literal_round_trip() {
    assert_eq!(lex("\"abc\""), vec![Token::Literal(Literal::String("abc".to_string())), Token::EOF]);
    let s = chars("\"abc\"");
    assert_eq!(extract_string(&s, 0), 3);
    let (token, next) = next_token("\"abc\"", &s, 0, false);
    assert_eq!(token, Some(Token::Literal(Literal::String("abc".to_string()))));
    assert_eq!(next, 5);
}

#[test]
fn unterminated_string_runs_to_the_end() {
    assert_eq!(
        lex("\"ab cd"),
        vec![Token::Literal(Literal::String("ab cd".to_string())), Token::EOF]
    );
}

#[test]
fn keyword_followed_by_word_characters_is_an_identifier() {
    assert_eq!(lex("returnValue"), vec![ident("returnValue"), Token::EOF]);
    assert_eq!(lex("return value"), vec![Token::Keyword("return".to_string()), ident("value"), Token::EOF]);
    assert_eq!(lex("let_x if2"), vec![ident("let_x"), ident("if2"), Token::EOF]);
}

#[test]
fn keywords_are_recognised() {
    let tokens = lex("fn let const return if else while");
    let words: Vec<Token> = ["fn", "let", "const", "return", "if", "else", "while"]
        .iter()
        .map(|w| Token::Keyword(w.to_string()))
        .chain([Token::EOF])
        .collect();
    assert_eq!(tokens, words);
}

#[test]
fn types_and_booleans() {
    assert_eq!(
        lex("i32 u8 string bool true false truth"),
        vec![
            Token::Type(Type::Int32),
            Token::Type(Type::UInt8),
            Token::Type(Type::String),
            Token::Type(Type::Bool),
            Token::Literal(Literal::Boolean(true)),
            Token::Literal(Literal::Boolean(false)),
            ident("truth"),
            Token::EOF,
        ]
    );
    assert_eq!(lex("i32x"), vec![ident("i32x"), Token::EOF]);
}

#[test]
fn comments_keep_their_delimiters() {
    assert_eq!(
        lex("a // note\nb"),
        vec![ident("a"), Token::Comment("// note\n".to_string()), ident("b"), Token::EOF]
    );
    assert_eq!(
        lex("/* x */y"),
        vec![Token::Comment("/* x */".to_string()), ident("y"), Token::EOF]
    );
    assert_eq!(lex("/* open"), vec![Token::Comment("/* open".to_string()), Token::EOF]);
    assert_eq!(lex("// open"), vec![Token::Comment("// open".to_string()), Token::EOF]);
    assert_eq!(lex("a / b"), vec![ident("a"), op("/"), ident("b"), Token::EOF]);
}

#[test]
fn unrecognised_and_non_ascii_characters_are_skipped() {
    assert_eq!(lex("a @ b"), vec![ident("a"), ident("b"), Token::EOF]);
    assert_eq!(lex("é1"), vec![number("1"), Token::EOF]);
    assert_eq!(lex("x|y"), vec![ident("x"), ident("y"), Token::EOF]);
}

#[test]
fn extractors_report_lengths() {
    let s = chars("123abc");
    assert_eq!(extract_number(&s, 0), 3);
    assert_eq!(extract_number(&s, 3), 0);
    assert_eq!(extract_identifier(&s, 3), 3);
    let s = chars("while(x)");
    assert_eq!(extract_keyword(&s, 0), 5);
    assert_eq!(extract_keyword(&s, 6), 0);
    assert_eq!(extract_punctuation(&s, 5), Some('('));
    assert_eq!(extract_punctuation(&s, 0), None);
    let s = chars("== = //c\n");
    assert_eq!(extract_operator(&s, 0), 2);
    assert_eq!(extract_operator(&s, 3), 1);
    assert_eq!(extract_comment(&s, 5), 4);
    assert_eq!(extract_comment(&s, 0), 0);
    let s = chars("u64 false");
    assert_eq!(extract_type(&s, 0), Some(Type::UInt64));
    assert_eq!(extract_type(&s, 4), None);
    assert_eq!(extract_boolean(&s, 4), Some(false));
    assert_eq!(extract_boolean(&s, 0), None);
}

#[test]
fn longer_whitespace_runs_change_nothing() {
    assert_eq!(lex("a + b // c\nd"), lex("a   +\t\t b // c\n\n   d"));
    assert_eq!(lex("   (-5)"), lex("(-5)"));
}

#[test]
fn whitespace_after_a_line_comment_changes_nothing() {
    let expected = vec![Token::Comment("//c\n".to_string()), ident("x"), Token::EOF];
    assert_eq!(lex("//c\nx"), expected);
    assert_eq!(lex("//c\n x"), expected);
    assert_eq!(lex("//c\n\n\t x"), expected);
}

#[test]
fn whitespace_inserted_between_adjacent_tokens_changes_nothing() {
    assert_eq!(lex("a+b"), lex("a + b"));
    assert_eq!(lex("x==-1"), lex("x == -1"));
    assert_eq!(lex("f(a,b);"), lex("f ( a , b ) ;"));
    assert_eq!(lex("\"s\"x"), lex("\"s\" x"));
    assert_eq!(lex("/*c*/y"), lex("/*c*/ y"));
}
