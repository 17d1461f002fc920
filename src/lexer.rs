//! The tokenizer: one pass over the input that classifies each token by the
//! first recognizer that accepts it.
use vstd::prelude::*;
use vstd::std_specs::iter::IteratorSpec;
use crate::extractors::{
    boolean_named, comment_len, digits_len, extract_boolean, extract_comment, extract_identifier,
    extract_keyword, extract_number, extract_operator, extract_punctuation, extract_string,
    extract_type, find_from, is_ascii_char, is_digit, is_digit_char, is_punctuation, is_space,
    keyword_len, operator_len, type_named, word_at, word_len, block_comment_end,
};
use crate::token::{views, Literal, LiteralView, Token, TokenView};

verus! {

/// Whether a `-` that follows `prev` is the sign of a number rather than a
/// subtraction: it is where a token precedes it and that token is neither a
/// number nor an identifier.
pub open spec fn minus_is_sign(prev: Option<TokenView>) -> bool {
    match prev {
        None => false,
        Some(TokenView::Literal(LiteralView::Number(_))) => false,
        Some(TokenView::Identifier(_)) => false,
        Some(_) => true,
    }
}

/// One step of the tokenizer at position `i`: the token found there, if any,
/// and the position where the next step starts. `sign` says whether a `-`
/// here may be the sign of a number. White space, characters outside the
/// ASCII range and characters that no recognizer accepts give no token.
pub open spec fn scan(s: Seq<char>, i: int, sign: bool) -> (Option<TokenView>, int)
    recommends
        0 <= i < s.len(),
{
    let c = s[i];
    let w = word_at(s, i);
    if is_space(c) || !is_ascii_char(c) {
        (None, i + 1)
    } else if is_digit(c) {
        let e = i + digits_len(s, i);
        (Some(TokenView::Literal(LiteralView::Number(s.subrange(i, e)))), e)
    } else if c == '"' {
        let e = find_from(s, i + 1, '"');
        (
            Some(TokenView::Literal(LiteralView::String(s.subrange(i + 1, e)))),
            if e < s.len() {
                e + 1
            } else {
                e
            },
        )
    } else if keyword_len(s, i) > 0 {
        (Some(TokenView::Keyword(w)), i + word_len(s, i))
    } else if comment_len(s, i) > 0 {
        let e = i + comment_len(s, i);
        (Some(TokenView::Comment(s.subrange(i, e))), e)
    } else if operator_len(s, i) > 0 {
        if c == '-' && sign && digits_len(s, i + 1) > 0 {
            let e = i + 1 + digits_len(s, i + 1);
            (Some(TokenView::Literal(LiteralView::Number(s.subrange(i, e)))), e)
        } else {
            let e = i + operator_len(s, i);
            (Some(TokenView::Operator(s.subrange(i, e))), e)
        }
    } else if is_punctuation(c) {
        (Some(TokenView::Punctuation(c)), i + 1)
    } else if type_named(w) is Some {
        (Some(TokenView::Type(type_named(w)->0)), i + word_len(s, i))
    } else if boolean_named(w) is Some {
        (Some(TokenView::Literal(LiteralView::Boolean(boolean_named(w)->0))), i + word_len(s, i))
    } else if word_len(s, i) > 0 {
        (Some(TokenView::Identifier(w)), i + word_len(s, i))
    } else {
        (None, i + 1)
    }
}

pub proof fn lemma_scan_advances(s: Seq<char>, i: int, sign: bool)
    requires
        0 <= i < s.len(),
    ensures
        i < scan(s, i, sign).1 <= s.len(),
{
    lemma_runs_bounded(s, i);
    lemma_runs_bounded(s, i + 1);
    lemma_find_bounded(s, i + 1, '"');
    lemma_find_bounded(s, i + 2, '\n');
    lemma_block_end_bounded(s, i + 2);
    let c = s[i];
    if is_digit(c) {
        assert(digits_len(s, i) > 0);
    }
    if keyword_len(s, i) > 0 {
        assert(word_len(s, i) > 0);
    }
    if comment_len(s, i) > 0 {
        assert(i + comment_len(s, i) <= s.len());
    }
    if operator_len(s, i) > 0 {
        assert(i + operator_len(s, i) <= s.len());
    }
    let w = word_at(s, i);
    if type_named(w) is Some || boolean_named(w) is Some {
        assert(w.len() > 0);
    }
}

pub(crate) proof fn lemma_runs_bounded(s: Seq<char>, i: int)
    requires
        0 <= i <= s.len(),
    ensures
        i + digits_len(s, i) <= s.len(),
        i + word_len(s, i) <= s.len(),
    decreases s.len() - i,
{
    if i < s.len() {
        lemma_runs_bounded(s, i + 1);
    }
}

pub(crate) proof fn lemma_find_bounded(s: Seq<char>, j: int, c: char)
    requires
        0 <= j,
    ensures
        j <= s.len() ==> j <= find_from(s, j, c) <= s.len(),
        j <= find_from(s, j, c),
    decreases s.len() - j,
{
    if j < s.len() {
        lemma_find_bounded(s, j + 1, c);
    }
}

pub(crate) proof fn lemma_block_end_bounded(s: Seq<char>, j: int)
    requires
        0 <= j,
    ensures
        j <= s.len() ==> j <= block_comment_end(s, j) <= s.len(),
        block_comment_end(s, j) < s.len() ==> j + 2 <= block_comment_end(s, j),
    decreases s.len() - j,
{
    if j + 1 < s.len() {
        lemma_block_end_bounded(s, j + 1);
    }
}

/// The tokens of `s` from position `i` on, where `prev` is the token found
/// last before `i`.
pub open spec fn lex_from(s: Seq<char>, i: int, prev: Option<TokenView>) -> Seq<TokenView>
    decreases s.len() - i,
    via lex_from_decreases
{
    if i < 0 || i >= s.len() {
        Seq::empty()
    } else {
        let (t, j) = scan(s, i, minus_is_sign(prev));
        match t {
            Some(tok) => seq![tok] + lex_from(s, j, Some(tok)),
            None => lex_from(s, j, prev),
        }
    }
}

#[via_fn]
proof fn lex_from_decreases(s: Seq<char>, i: int, prev: Option<TokenView>) {
    if 0 <= i < s.len() {
        lemma_scan_advances(s, i, minus_is_sign(prev));
    }
}

proof fn lemma_lex_from_has_no_end_marker(s: Seq<char>, i: int, prev: Option<TokenView>)
    ensures
        forall|k: int| 0 <= k < lex_from(s, i, prev).len() ==> lex_from(s, i, prev)[k] != TokenView::EOF,
    decreases s.len() - i,
{
    if 0 <= i < s.len() {
        lemma_scan_advances(s, i, minus_is_sign(prev));
        let (t, j) = scan(s, i, minus_is_sign(prev));
        match t {
            Some(tok) => {
                lemma_lex_from_has_no_end_marker(s, j, Some(tok));
                let rest = lex_from(s, j, Some(tok));
                assert forall|k: int| 0 <= k < lex_from(s, i, prev).len() implies lex_from(s, i, prev)[k]
                    != TokenView::EOF by {
                    if k > 0 {
                        assert(lex_from(s, i, prev)[k] == rest[k - 1]);
                    }
                }
            },
            None => {
                lemma_lex_from_has_no_end_marker(s, j, prev);
            },
        }
    }
}

/// Tokenizing any input ends with the end marker, and the end marker occurs
/// nowhere else.
pub proof fn lemma_tokenize_one_end_marker(s: Seq<char>)
    ensures
        tokenize(s).len() >= 1,
        tokenize(s).last() == TokenView::EOF,
        forall|k: int| 0 <= k < tokenize(s).len() - 1 ==> tokenize(s)[k] != TokenView::EOF,
{
    lemma_lex_from_has_no_end_marker(s, 0, None);
}

/// The tokens of the whole of `s`, followed by the end marker.
pub open spec fn tokenize(s: Seq<char>) -> Seq<TokenView> {
    lex_from(s, 0, None).push(TokenView::EOF)
}

pub open spec fn option_view(t: Option<Token>) -> Option<TokenView> {
    match t {
        Some(tok) => Some(tok@),
        None => None,
    }
}

/// The characters of `input`, one by one.
fn chars_of(input: &str) -> (v: Vec<char>)
    ensures
        v@ == input@,
{
    broadcast use vstd::string::group_string_axioms;

    let mut it = input.chars();
    let mut v: Vec<char> = Vec::new();
    loop
        invariant
            it.remaining() == input@.subrange(v@.len() as int, input@.len() as int),
            v@.len() <= input@.len(),
            v@ == input@.subrange(0, v@.len() as int),
        ensures
            v@ == input@,
        decreases input@.len() - v@.len(),
    {
        match it.next() {
            Some(c) => {
                v.push(c);
                assert(v@ =~= input@.subrange(0, v@.len() as int));
            },
            None => {
                assert(v@ =~= input@);
                break;
            },
        }
    }
    v
}

/// The text of `input` from character `from` up to character `to`.
fn text_of(input: &str, from: usize, to: usize) -> (r: String)
    requires
        from <= to <= input@.len(),
    ensures
        r@ == input@.subrange(from as int, to as int),
{
    input.substring_char(from, to).to_owned()
}

/// One step of the tokenizer at `pos`, where `s` holds the characters of
/// `input`: the token found there, if any, and where the next step starts.
pub fn next_token(input: &str, s: &Vec<char>, pos: usize, sign: bool) -> (r: (
    Option<Token>,
    usize,
))
    requires
        s@ == input@,
        pos < s.len(),
    ensures
        option_view(r.0) == scan(s@, pos as int, sign).0,
        r.1 == scan(s@, pos as int, sign).1,
{
    proof {
        lemma_scan_advances(s@, pos as int, sign);
    }
    let c = s[pos];
    if c == ' ' || c == '\t' || c == '\n' || c == '\r' || c == '\u{b}' || c == '\u{c}' || c
        > '\u{7f}' {
        return (None, pos + 1);
    }
    if is_digit_char(c) {
        let e = pos + extract_number(s, pos);
        return (Some(Token::Literal(Literal::Number(text_of(input, pos, e)))), e);
    }
    if c == '"' {
        let e = pos + 1 + extract_string(s, pos);
        let next = if e < s.len() {
            e + 1
        } else {
            e
        };
        return (Some(Token::Literal(Literal::String(text_of(input, pos + 1, e)))), next);
    }
    let keyword = extract_keyword(s, pos);
    if keyword > 0 {
        return (Some(Token::Keyword(text_of(input, pos, pos + keyword))), pos + keyword);
    }
    let comment = extract_comment(s, pos);
    if comment > 0 {
        return (Some(Token::Comment(text_of(input, pos, pos + comment))), pos + comment);
    }
    let operator = extract_operator(s, pos);
    if operator > 0 {
        if c == '-' && sign {
            let digits = extract_number(s, pos + 1);
            if digits > 0 {
                let e = pos + 1 + digits;
                return (Some(Token::Literal(Literal::Number(text_of(input, pos, e)))), e);
            }
        }
        return (Some(Token::Operator(text_of(input, pos, pos + operator))), pos + operator);
    }
    if let Some(p) = extract_punctuation(s, pos) {
        return (Some(Token::Punctuation(p)), pos + 1);
    }
    let word = extract_identifier(s, pos);
    if let Some(t) = extract_type(s, pos) {
        return (Some(Token::Type(t)), pos + word);
    }
    if let Some(b) = extract_boolean(s, pos) {
        return (Some(Token::Literal(Literal::Boolean(b))), pos + word);
    }
    if word > 0 {
        return (Some(Token::Identifier(text_of(input, pos, pos + word))), pos + word);
    }
    (None, pos + 1)
}

/// Whether a `-` right after `t` may be the sign of a number.
fn sign_may_follow(t: &Token) -> (r: bool)
    ensures
        r == minus_is_sign(Some(t@)),
{
    match t {
        Token::Literal(Literal::Number(_)) => false,
        Token::Identifier(_) => false,
        _ => true,
    }
}

/// The tokenizer. It keeps no state of its own: each run depends on its input alone.
pub struct Lexer {}

impl Lexer {
    pub fn new() -> Self {
        Lexer {  }
    }

    /// The tokens of `input`, in the order in which they stand, followed by
    /// exactly one end marker.
    pub fn run(&self, input: &str) -> (r: Vec<Token>)
        ensures
            views(r@) == tokenize(input@),
    {
        let s = chars_of(input);
        let mut tokens: Vec<Token> = Vec::new();
        let mut pos: usize = 0;
        let mut sign: bool = false;
        let ghost mut prev: Option<TokenView> = None;
        assert(views(tokens@) + lex_from(s@, 0, None) =~= lex_from(s@, 0, None));
        while pos < s.len()
            invariant
                s@ == input@,
                pos <= s.len(),
                sign == minus_is_sign(prev),
                views(tokens@) + lex_from(s@, pos as int, prev) == lex_from(s@, 0, None),
            decreases s.len() - pos,
        {
            let (t, next) = next_token(input, &s, pos, sign);
            proof {
                lemma_scan_advances(s@, pos as int, sign);
            }
            match t {
                Some(tok) => {
                    let ghost v = tok@;
                    sign = sign_may_follow(&tok);
                    proof {
                        assert(views(tokens@.push(tok)) =~= views(tokens@).push(v));
                        assert(views(tokens@).push(v) + lex_from(s@, next as int, Some(v))
                            =~= views(tokens@) + (seq![v] + lex_from(s@, next as int, Some(v))));
                        prev = Some(v);
                    }
                    tokens.push(tok);
                },
                None => {},
            }
            pos = next;
        }
        proof {
            assert(views(tokens@) =~= views(tokens@) + lex_from(s@, pos as int, prev));
            assert(views(tokens@.push(Token::EOF)) =~= views(tokens@).push(TokenView::EOF));
        }
        tokens.push(Token::EOF);
        tokens
    }
}

} // verus!
