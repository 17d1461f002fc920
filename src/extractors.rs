//! Recognisers for each category of token. Each one looks at the characters
//! of the input from a position on, and none of them depends on what was
//! recognised before. A length of zero means that nothing was recognised.
use vstd::prelude::*;
use crate::types::Type;

verus! {

pub open spec fn is_digit(c: char) -> bool {
    '0' <= c && c <= '9'
}

/// Letters, digits and the underscore: the characters of a word.
pub open spec fn is_word_char(c: char) -> bool {
    ||| 'a' <= c && c <= 'z'
    ||| 'A' <= c && c <= 'Z'
    ||| is_digit(c)
    ||| c == '_'
}

/// The white-space characters of the ASCII range.
pub open spec fn is_space(c: char) -> bool {
    c == ' ' || c == '\t' || c == '\n' || c == '\r' || c == '\u{b}' || c == '\u{c}'
}

pub open spec fn is_ascii_char(c: char) -> bool {
    c <= '\u{7f}'
}

/// The number of digits in the run that starts at `i`.
pub open spec fn digits_len(s: Seq<char>, i: int) -> nat
    decreases s.len() - i,
{
    if 0 <= i < s.len() && is_digit(s[i]) {
        1 + digits_len(s, i + 1)
    } else {
        0
    }
}

/// The number of word characters in the run that starts at `i`.
pub open spec fn word_len(s: Seq<char>, i: int) -> nat
    decreases s.len() - i,
{
    if 0 <= i < s.len() && is_word_char(s[i]) {
        1 + word_len(s, i + 1)
    } else {
        0
    }
}

/// The whole word that starts at `i`; empty where none does.
pub open spec fn word_at(s: Seq<char>, i: int) -> Seq<char> {
    s.subrange(i, i + word_len(s, i))
}

/// A word runs as far as the word characters go.
pub proof fn lemma_word_is_maximal(s: Seq<char>, i: int)
    requires
        0 <= i <= s.len(),
    ensures
        i + word_len(s, i) <= s.len(),
        i + word_len(s, i) == s.len() || !is_word_char(s[i + word_len(s, i)]),
        forall|k: int| i <= k < i + word_len(s, i) ==> is_word_char(#[trigger] s[k]),
    decreases s.len() - i,
{
    if i < s.len() && is_word_char(s[i]) {
        lemma_word_is_maximal(s, i + 1);
    }
}

/// A reserved word is only recognised as a whole word: where one is found,
/// the character after it is not a word character, so a reserved word that
/// runs on into more letters, digits or underscores is never split off.
pub proof fn lemma_keyword_is_whole_word(s: Seq<char>, i: int)
    requires
        0 <= i <= s.len(),
        keyword_len(s, i) > 0,
    ensures
        i + keyword_len(s, i) <= s.len(),
        i + keyword_len(s, i) == s.len() || !is_word_char(s[i + keyword_len(s, i)]),
        is_keyword(s.subrange(i, i + keyword_len(s, i))),
{
    lemma_word_is_maximal(s, i);
}

/// The reserved words.
pub open spec fn is_keyword(w: Seq<char>) -> bool {
    ||| w == seq!['f', 'n']
    ||| w == seq!['l', 'e', 't']
    ||| w == seq!['c', 'o', 'n', 's', 't']
    ||| w == seq!['r', 'e', 't', 'u', 'r', 'n']
    ||| w == seq!['i', 'f']
    ||| w == seq!['e', 'l', 's', 'e']
    ||| w == seq!['w', 'h', 'i', 'l', 'e']
}

/// The length of the reserved word at `i`, or zero. A reserved word that
/// runs on into more word characters is part of a longer word and does not count.
pub open spec fn keyword_len(s: Seq<char>, i: int) -> nat {
    if is_keyword(word_at(s, i)) {
        word_len(s, i)
    } else {
        0
    }
}

/// The built-in type named by a whole word.
pub open spec fn type_named(w: Seq<char>) -> Option<Type> {
    if w == seq!['i', '8'] {
        Some(Type::Int8)
    } else if w == seq!['u', '8'] {
        Some(Type::UInt8)
    } else if w == seq!['i', '1', '6'] {
        Some(Type::Int16)
    } else if w == seq!['u', '1', '6'] {
        Some(Type::UInt16)
    } else if w == seq!['i', '3', '2'] {
        Some(Type::Int32)
    } else if w == seq!['u', '3', '2'] {
        Some(Type::UInt32)
    } else if w == seq!['i', '6', '4'] {
        Some(Type::Int64)
    } else if w == seq!['u', '6', '4'] {
        Some(Type::UInt64)
    } else if w == seq!['f', '3', '2'] {
        Some(Type::Float32)
    } else if w == seq!['f', '6', '4'] {
        Some(Type::Float64)
    } else if w == seq!['b', 'o', 'o', 'l'] {
        Some(Type::Bool)
    } else if w == seq!['c', 'h', 'a', 'r'] {
        Some(Type::Char)
    } else if w == seq!['s', 't', 'r', 'i', 'n', 'g'] {
        Some(Type::String)
    } else {
        None
    }
}

/// The truth value written as a whole word.
pub open spec fn boolean_named(w: Seq<char>) -> Option<bool> {
    if w == seq!['t', 'r', 'u', 'e'] {
        Some(true)
    } else if w == seq!['f', 'a', 'l', 's', 'e'] {
        Some(false)
    } else {
        None
    }
}

/// The first position from `j` on that holds `c`, or the length of `s`.
pub open spec fn find_from(s: Seq<char>, j: int, c: char) -> int
    decreases s.len() - j,
{
    if 0 <= j < s.len() && s[j] != c {
        find_from(s, j + 1, c)
    } else {
        j
    }
}

/// The position just past the first `*/` from `j` on, or the length of `s`.
pub open spec fn block_comment_end(s: Seq<char>, j: int) -> int
    decreases s.len() - j,
{
    if 0 <= j && j + 1 < s.len() {
        if s[j] == '*' && s[j + 1] == '/' {
            j + 2
        } else {
            block_comment_end(s, j + 1)
        }
    } else {
        s.len() as int
    }
}

/// The length of the comment at `i`, delimiters included, or zero. A line
/// comment ends just past the newline that closes it; a comment that is
/// never closed runs to the end of the input.
pub open spec fn comment_len(s: Seq<char>, i: int) -> nat {
    if 0 <= i && i + 1 < s.len() && s[i] == '/' && s[i + 1] == '/' {
        let f = find_from(s, i + 2, '\n');
        (if f < s.len() {
            f + 1 - i
        } else {
            f - i
        }) as nat
    } else if 0 <= i && i + 1 < s.len() && s[i] == '/' && s[i + 1] == '*' {
        (block_comment_end(s, i + 2) - i) as nat
    } else {
        0
    }
}

pub open spec fn is_two_char_operator(a: char, b: char) -> bool {
    ||| a == '=' && b == '='
    ||| a == '>' && b == '='
    ||| a == '<' && b == '='
    ||| a == '|' && b == '|'
    ||| a == '&' && b == '&'
}

pub open spec fn is_one_char_operator(c: char) -> bool {
    c == '+' || c == '-' || c == '*' || c == '/' || c == '>' || c == '<' || c == '='
}

/// The length of the operator at `i`, or zero; a two-character operator is
/// preferred to its first character alone.
pub open spec fn operator_len(s: Seq<char>, i: int) -> nat {
    if 0 <= i && i + 1 < s.len() && is_two_char_operator(s[i], s[i + 1]) {
        2
    } else if 0 <= i < s.len() && is_one_char_operator(s[i]) {
        1
    } else {
        0
    }
}

pub open spec fn is_punctuation(c: char) -> bool {
    ||| c == '(' || c == ')' || c == '{' || c == '}' || c == '[' || c == ']'
    ||| c == ',' || c == ';' || c == ':' || c == '.'
}

/// Whether the characters of `s` from `i` on, `n` of them, are `w`.
fn same_word(s: &Vec<char>, i: usize, n: usize, w: &[char]) -> (r: bool)
    requires
        i + n <= s.len(),
    ensures
        r == (s@.subrange(i as int, i + n) == w@),
{
    if n != w.len() {
        return false;
    }
    let mut k: usize = 0;
    while k < n
        invariant
            n == w@.len(),
            i + n <= s.len(),
            k <= n,
            s@.subrange(i as int, i + k) == w@.subrange(0, k as int),
        decreases n - k,
    {
        if s[i + k] != w[k] {
            assert(s@.subrange(i as int, i + n)[k as int] != w@[k as int]);
            return false;
        }
        assert(s@.subrange(i as int, i + k + 1) =~= w@.subrange(0, k + 1));
        k = k + 1;
    }
    assert(w@.subrange(0, n as int) =~= w@);
    true
}

pub fn is_digit_char(c: char) -> (r: bool)
    ensures
        r == is_digit(c),
{
    '0' <= c && c <= '9'
}

pub fn is_word_character(c: char) -> (r: bool)
    ensures
        r == is_word_char(c),
{
    ('a' <= c && c <= 'z') || ('A' <= c && c <= 'Z') || ('0' <= c && c <= '9') || c == '_'
}

/// The length of the run of digits at `pos`.
pub fn extract_number(s: &Vec<char>, pos: usize) -> (n: usize)
    requires
        pos <= s.len(),
    ensures
        n == digits_len(s@, pos as int),
        pos + n <= s.len(),
{
    let mut j: usize = pos;
    while j < s.len() && is_digit_char(s[j])
        invariant
            pos <= j <= s.len(),
            digits_len(s@, pos as int) == (j - pos) + digits_len(s@, j as int),
        decreases s.len() - j,
    {
        j = j + 1;
    }
    j - pos
}

/// The length of the word at `pos`: the identifier there, where it does
/// not start with a digit.
pub fn extract_identifier(s: &Vec<char>, pos: usize) -> (n: usize)
    requires
        pos <= s.len(),
    ensures
        n == word_len(s@, pos as int),
        pos + n <= s.len(),
{
    let mut j: usize = pos;
    while j < s.len() && is_word_character(s[j])
        invariant
            pos <= j <= s.len(),
            word_len(s@, pos as int) == (j - pos) + word_len(s@, j as int),
        decreases s.len() - j,
    {
        j = j + 1;
    }
    j - pos
}

/// The length of the reserved word at `pos`, or zero.
pub fn extract_keyword(s: &Vec<char>, pos: usize) -> (n: usize)
    requires
        pos <= s.len(),
    ensures
        n == keyword_len(s@, pos as int),
        pos + n <= s.len(),
{
    let w = extract_identifier(s, pos);
    if same_word(s, pos, w, &['f', 'n']) || same_word(s, pos, w, &['l', 'e', 't'])
        || same_word(s, pos, w, &['c', 'o', 'n', 's', 't'])
        || same_word(s, pos, w, &['r', 'e', 't', 'u', 'r', 'n'])
        || same_word(s, pos, w, &['i', 'f'])
        || same_word(s, pos, w, &['e', 'l', 's', 'e'])
        || same_word(s, pos, w, &['w', 'h', 'i', 'l', 'e'])
    {
        w
    } else {
        0
    }
}

/// The built-in type named by the word at `pos`.
pub fn extract_type(s: &Vec<char>, pos: usize) -> (r: Option<Type>)
    requires
        pos <= s.len(),
    ensures
        r == type_named(word_at(s@, pos as int)),
{
    let w = extract_identifier(s, pos);
    if same_word(s, pos, w, &['i', '8']) {
        Some(Type::Int8)
    } else if same_word(s, pos, w, &['u', '8']) {
        Some(Type::UInt8)
    } else if same_word(s, pos, w, &['i', '1', '6']) {
        Some(Type::Int16)
    } else if same_word(s, pos, w, &['u', '1', '6']) {
        Some(Type::UInt16)
    } else if same_word(s, pos, w, &['i', '3', '2']) {
        Some(Type::Int32)
    } else if same_word(s, pos, w, &['u', '3', '2']) {
        Some(Type::UInt32)
    } else if same_word(s, pos, w, &['i', '6', '4']) {
        Some(Type::Int64)
    } else if same_word(s, pos, w, &['u', '6', '4']) {
        Some(Type::UInt64)
    } else if same_word(s, pos, w, &['f', '3', '2']) {
        Some(Type::Float32)
    } else if same_word(s, pos, w, &['f', '6', '4']) {
        Some(Type::Float64)
    } else if same_word(s, pos, w, &['b', 'o', 'o', 'l']) {
        Some(Type::Bool)
    } else if same_word(s, pos, w, &['c', 'h', 'a', 'r']) {
        Some(Type::Char)
    } else if same_word(s, pos, w, &['s', 't', 'r', 'i', 'n', 'g']) {
        Some(Type::String)
    } else {
        None
    }
}

/// The truth value written as the word at `pos`.
pub fn extract_boolean(s: &Vec<char>, pos: usize) -> (r: Option<bool>)
    requires
        pos <= s.len(),
    ensures
        r == boolean_named(word_at(s@, pos as int)),
{
    let w = extract_identifier(s, pos);
    if same_word(s, pos, w, &['t', 'r', 'u', 'e']) {
        Some(true)
    } else if same_word(s, pos, w, &['f', 'a', 'l', 's', 'e']) {
        Some(false)
    } else {
        None
    }
}

/// The first position from `j` on that holds `c`, or the length of `s`.
pub fn find_char(s: &Vec<char>, j: usize, c: char) -> (r: usize)
    requires
        j <= s.len(),
    ensures
        r == find_from(s@, j as int, c),
        j <= r <= s.len(),
{
    let mut k: usize = j;
    while k < s.len() && s[k] != c
        invariant
            j <= k <= s.len(),
            find_from(s@, j as int, c) == find_from(s@, k as int, c),
        decreases s.len() - k,
    {
        k = k + 1;
    }
    k
}

fn find_block_comment_end(s: &Vec<char>, j: usize) -> (r: usize)
    requires
        j <= s.len(),
    ensures
        r == block_comment_end(s@, j as int),
        j <= r <= s.len(),
{
    let mut k: usize = j;
    while s.len() - k >= 2
        invariant
            j <= k <= s.len(),
            block_comment_end(s@, j as int) == block_comment_end(s@, k as int),
        decreases s.len() - k,
    {
        if s[k] == '*' && s[k + 1] == '/' {
            return k + 2;
        }
        k = k + 1;
    }
    s.len()
}

/// The length of the comment at `pos`, delimiters included, or zero.
pub fn extract_comment(s: &Vec<char>, pos: usize) -> (n: usize)
    requires
        pos <= s.len(),
    ensures
        n == comment_len(s@, pos as int),
        pos + n <= s.len(),
{
    if s.len() - pos >= 2 && s[pos] == '/' && s[pos + 1] == '/' {
        let f = find_char(s, pos + 2, '\n');
        if f < s.len() {
            f + 1 - pos
        } else {
            f - pos
        }
    } else if s.len() - pos >= 2 && s[pos] == '/' && s[pos + 1] == '*' {
        find_block_comment_end(s, pos + 2) - pos
    } else {
        0
    }
}

/// The length of the operator at `pos`, or zero.
pub fn extract_operator(s: &Vec<char>, pos: usize) -> (n: usize)
    requires
        pos <= s.len(),
    ensures
        n == operator_len(s@, pos as int),
{
    if s.len() - pos >= 2 {
        let a = s[pos];
        let b = s[pos + 1];
        if (a == '=' && b == '=') || (a == '>' && b == '=') || (a == '<' && b == '=') || (a
            == '|' && b == '|') || (a == '&' && b == '&') {
            return 2;
        }
    }
    if pos < s.len() {
        let c = s[pos];
        if c == '+' || c == '-' || c == '*' || c == '/' || c == '>' || c == '<' || c == '=' {
            return 1;
        }
    }
    0
}

/// The punctuation character at `pos`, if there is one.
pub fn extract_punctuation(s: &Vec<char>, pos: usize) -> (r: Option<char>)
    requires
        pos <= s.len(),
    ensures
        r == (if pos < s@.len() && is_punctuation(s@[pos as int]) {
            Some(s@[pos as int])
        } else {
            None
        }),
{
    if pos < s.len() {
        let c = s[pos];
        if c == '(' || c == ')' || c == '{' || c == '}' || c == '[' || c == ']' || c == ','
            || c == ';' || c == ':' || c == '.' {
            return Some(c);
        }
    }
    None
}

/// The length of the text of the string literal whose opening quote is at
/// `pos`: what stands before the closing quote, or before the end of the
/// input where the literal is never closed.
pub fn extract_string(s: &Vec<char>, pos: usize) -> (n: usize)
    requires
        pos < s.len(),
    ensures
        n == find_from(s@, pos + 1, '"') - (pos + 1),
        pos + 1 + n <= s.len(),
{
    find_char(s, pos + 1, '"') - (pos + 1)
}

} // verus!
