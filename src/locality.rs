//! The tokens from a position on depend only on the characters from that
//! position on; so white space at the point where a token starts changes
//! none of the tokens that follow it.
use vstd::prelude::*;
use crate::extractors::{
    is_word_char, is_digit, block_comment_end, boolean_named, comment_len, digits_len, find_from, is_space, keyword_len,
    operator_len, type_named, word_at, word_len,
};
use crate::lexer::{lemma_block_end_bounded, lemma_find_bounded, tokenize, lemma_runs_bounded, lemma_scan_advances, lex_from, minus_is_sign, scan};
use crate::token::TokenView;

verus! {

/// `s1` from `i1` on holds the same characters as `s2` from `i2` on.
pub open spec fn same_suffix(s1: Seq<char>, i1: int, s2: Seq<char>, i2: int) -> bool {
    &&& 0 <= i1 <= s1.len()
    &&& 0 <= i2 <= s2.len()
    &&& s1.subrange(i1, s1.len() as int) == s2.subrange(i2, s2.len() as int)
}

proof fn lemma_same_suffix_at(s1: Seq<char>, i1: int, s2: Seq<char>, i2: int, k: int)
    requires
        same_suffix(s1, i1, s2, i2),
        0 <= k,
    ensures
        s1.len() - i1 == s2.len() - i2,
        i1 + k < s1.len() <==> i2 + k < s2.len(),
        i1 + k < s1.len() ==> s1[i1 + k] == s2[i2 + k],
        i1 + k <= s1.len() ==> same_suffix(s1, i1 + k, s2, i2 + k),
{
    let a = s1.subrange(i1, s1.len() as int);
    let b = s2.subrange(i2, s2.len() as int);
    assert(a.len() == b.len());
    if i1 + k < s1.len() {
        assert(a[k] == b[k]);
    }
    if i1 + k <= s1.len() {
        assert(s1.subrange(i1 + k, s1.len() as int) =~= a.subrange(k, a.len() as int));
        assert(s2.subrange(i2 + k, s2.len() as int) =~= b.subrange(k, b.len() as int));
    }
}

proof fn lemma_same_subrange(s1: Seq<char>, i1: int, s2: Seq<char>, i2: int, a: int, b: int)
    requires
        same_suffix(s1, i1, s2, i2),
        0 <= a <= b <= s1.len() - i1,
    ensures
        s1.subrange(i1 + a, i1 + b) == s2.subrange(i2 + a, i2 + b),
{
    let x = s1.subrange(i1, s1.len() as int);
    let y = s2.subrange(i2, s2.len() as int);
    assert(x.len() == y.len());
    assert(s1.subrange(i1 + a, i1 + b) =~= x.subrange(a, b));
    assert(s2.subrange(i2 + a, i2 + b) =~= y.subrange(a, b));
}

proof fn lemma_runs_local(s1: Seq<char>, i1: int, s2: Seq<char>, i2: int)
    requires
        same_suffix(s1, i1, s2, i2),
    ensures
        digits_len(s1, i1) == digits_len(s2, i2),
        word_len(s1, i1) == word_len(s2, i2),
        find_from(s1, i1, '"') - i1 == find_from(s2, i2, '"') - i2,
        find_from(s1, i1, '\n') - i1 == find_from(s2, i2, '\n') - i2,
        block_comment_end(s1, i1) - i1 == block_comment_end(s2, i2) - i2,
    decreases s1.len() - i1,
{
    lemma_same_suffix_at(s1, i1, s2, i2, 0);
    lemma_same_suffix_at(s1, i1, s2, i2, 1);
    if i1 < s1.len() {
        lemma_runs_local(s1, i1 + 1, s2, i2 + 1);
    }
}

proof fn lemma_scan_local(s1: Seq<char>, i1: int, s2: Seq<char>, i2: int, sign: bool)
    requires
        same_suffix(s1, i1, s2, i2),
        i1 < s1.len(),
    ensures
        scan(s1, i1, sign).0 == scan(s2, i2, sign).0,
        scan(s1, i1, sign).1 - i1 == scan(s2, i2, sign).1 - i2,
{
    lemma_same_suffix_at(s1, i1, s2, i2, 0);
    lemma_same_suffix_at(s1, i1, s2, i2, 1);
    lemma_same_suffix_at(s1, i1, s2, i2, 2);
    lemma_runs_local(s1, i1, s2, i2);
    lemma_runs_local(s1, i1 + 1, s2, i2 + 1);
    if i1 + 2 <= s1.len() {
        lemma_runs_local(s1, i1 + 2, s2, i2 + 2);
    }
    lemma_scan_advances(s1, i1, sign);
    lemma_scan_advances(s2, i2, sign);
    lemma_runs_bounded(s1, i1);
    lemma_runs_bounded(s1, i1 + 1);
    let w = word_len(s1, i1) as int;
    lemma_same_subrange(s1, i1, s2, i2, 0, w);
    assert(word_at(s1, i1) == word_at(s2, i2));
    assert(keyword_len(s1, i1) == keyword_len(s2, i2));
    assert(comment_len(s1, i1) == comment_len(s2, i2));
    assert(operator_len(s1, i1) == operator_len(s2, i2));
    assert(type_named(word_at(s1, i1)) == type_named(word_at(s2, i2)));
    assert(boolean_named(word_at(s1, i1)) == boolean_named(word_at(s2, i2)));
    let e = scan(s1, i1, sign).1 - i1;
    let c = s1[i1];
    if c == '"' {
        lemma_find_bounded(s1, i1 + 1, '"');
        lemma_same_subrange(s1, i1, s2, i2, 1, find_from(s1, i1 + 1, '"') - i1);
    } else if comment_len(s1, i1) > 0 {
        lemma_same_subrange(s1, i1, s2, i2, 0, comment_len(s1, i1) as int);
    } else {
        lemma_same_subrange(s1, i1, s2, i2, 0, e);
        lemma_same_subrange(s1, i1, s2, i2, 0, operator_len(s1, i1) as int);
        lemma_same_subrange(s1, i1, s2, i2, 0, (1 + digits_len(s1, i1 + 1)) as int);
    }
}

/// The tokens from a position on depend only on the characters from that
/// position on and on the token found last before it.
pub proof fn lemma_lex_from_local(
    s1: Seq<char>,
    i1: int,
    s2: Seq<char>,
    i2: int,
    prev: Option<TokenView>,
)
    requires
        same_suffix(s1, i1, s2, i2),
    ensures
        lex_from(s1, i1, prev) == lex_from(s2, i2, prev),
    decreases s1.len() - i1,
{
    lemma_same_suffix_at(s1, i1, s2, i2, 0);
    if i1 < s1.len() {
        let sign = minus_is_sign(prev);
        lemma_scan_local(s1, i1, s2, i2, sign);
        lemma_scan_advances(s1, i1, sign);
        let (t, j1) = scan(s1, i1, sign);
        let j2 = scan(s2, i2, sign).1;
        lemma_same_suffix_at(s1, i1, s2, i2, j1 - i1);
        match t {
            Some(tok) => lemma_lex_from_local(s1, j1, s2, j2, Some(tok)),
            None => lemma_lex_from_local(s1, j1, s2, j2, prev),
        }
    }
}

/// A run of white space gives no tokens and leaves the tokenizer as it was.
proof fn lemma_skip_space(s: Seq<char>, i: int, j: int, prev: Option<TokenView>)
    requires
        0 <= i <= j <= s.len(),
        forall|k: int| i <= k < j ==> is_space(#[trigger] s[k]),
    ensures
        lex_from(s, i, prev) == lex_from(s, j, prev),
    decreases j - i,
{
    if i < j {
        lemma_skip_space(s, i + 1, j, prev);
    }
}

/// Inserting white space `w` at a point `p` of the input where the tokenizer
/// starts a step, after the token `prev`, changes none of the tokens found
/// from that point on.
pub proof fn lemma_whitespace_insertion(
    p: Seq<char>,
    w: Seq<char>,
    t: Seq<char>,
    prev: Option<TokenView>,
)
    requires
        forall|k: int| 0 <= k < w.len() ==> is_space(#[trigger] w[k]),
    ensures
        lex_from(p + w + t, p.len() as int, prev) == lex_from(p + t, p.len() as int, prev),
{
    let long = p + w + t;
    let short = p + t;
    assert forall|k: int| p.len() <= k < p.len() + w.len() implies is_space(#[trigger] long[k]) by {
        assert(long[k] == w[k - p.len()]);
    }
    lemma_skip_space(long, p.len() as int, (p.len() + w.len()) as int, prev);
    assert(long.subrange((p.len() + w.len()) as int, long.len() as int) =~= t);
    assert(short.subrange(p.len() as int, short.len() as int) =~= t);
    lemma_lex_from_local(long, (p.len() + w.len()) as int, short, p.len() as int, prev);
}

/// White space before the first token changes no token.
pub proof fn lemma_leading_whitespace(w: Seq<char>, t: Seq<char>)
    requires
        forall|k: int| 0 <= k < w.len() ==> is_space(#[trigger] w[k]),
    ensures
        tokenize(w + t) == tokenize(t),
{
    let e = Seq::<char>::empty();
    lemma_whitespace_insertion(e, w, t, None);
    assert(e + w + t =~= w + t);
    assert(e + t =~= t);
}

/// `s1` and `s2` agree on their first `m` characters.
pub open spec fn same_prefix(s1: Seq<char>, s2: Seq<char>, m: int) -> bool {
    &&& 0 <= m <= s1.len()
    &&& m <= s2.len()
    &&& s1.subrange(0, m) == s2.subrange(0, m)
}

proof fn lemma_same_prefix_at(s1: Seq<char>, s2: Seq<char>, m: int, k: int)
    requires
        same_prefix(s1, s2, m),
        0 <= k < m,
    ensures
        s1[k] == s2[k],
{
    assert(s1.subrange(0, m)[k] == s2.subrange(0, m)[k]);
}

proof fn lemma_prefix_subrange(s1: Seq<char>, s2: Seq<char>, m: int, a: int, b: int)
    requires
        same_prefix(s1, s2, m),
        0 <= a <= b <= m,
    ensures
        s1.subrange(a, b) == s2.subrange(a, b),
{
    assert(s1.subrange(a, b) =~= s1.subrange(0, m).subrange(a, b));
    assert(s2.subrange(a, b) =~= s2.subrange(0, m).subrange(a, b));
}

proof fn lemma_runs_prefix(s1: Seq<char>, s2: Seq<char>, m: int, k: int)
    requires
        same_prefix(s1, s2, m),
        0 <= k,
    ensures
        k + digits_len(s1, k) < m ==> digits_len(s1, k) == digits_len(s2, k),
        k + word_len(s1, k) < m ==> word_len(s1, k) == word_len(s2, k),
        find_from(s1, k, '"') < m ==> find_from(s1, k, '"') == find_from(s2, k, '"'),
        find_from(s1, k, '\n') < m ==> find_from(s1, k, '\n') == find_from(s2, k, '\n'),
        block_comment_end(s1, k) <= m && block_comment_end(s1, k) < s1.len()
            ==> block_comment_end(s1, k) == block_comment_end(s2, k),
    decreases s1.len() - k,
{
    if k < m {
        lemma_same_prefix_at(s1, s2, m, k);
    }
    if k + 1 < m {
        lemma_same_prefix_at(s1, s2, m, k + 1);
    }
    if k < s1.len() {
        lemma_runs_prefix(s1, s2, m, k + 1);
        lemma_find_bounded(s1, k + 1, '"');
        lemma_find_bounded(s1, k + 1, '\n');
        lemma_block_end_bounded(s1, k + 1);
    }
}

/// A step that ends before position `m` reads nothing from `m` on.
proof fn lemma_scan_prefix(s1: Seq<char>, s2: Seq<char>, m: int, i: int, sign: bool)
    requires
        same_prefix(s1, s2, m),
        0 <= i < s1.len(),
        scan(s1, i, sign).1 < m,
    ensures
        scan(s1, i, sign) == scan(s2, i, sign),
{
    lemma_scan_advances(s1, i, sign);
    lemma_same_prefix_at(s1, s2, m, i);
    lemma_same_prefix_at(s1, s2, m, i + 1);
    lemma_runs_prefix(s1, s2, m, i);
    lemma_runs_prefix(s1, s2, m, i + 1);
    lemma_runs_prefix(s1, s2, m, i + 2);
    lemma_runs_bounded(s1, i);
    lemma_find_bounded(s1, i + 1, '"');
    let c = s1[i];
    if is_word_char(c) && !is_digit(c) {
        assert(word_len(s1, i) > 0);
        assert(i + word_len(s1, i) < m);
    }
    let e = scan(s1, i, sign).1;
    if !is_digit(c) {
        assert(word_len(s1, i) == word_len(s2, i));
        if is_word_char(c) {
            lemma_prefix_subrange(s1, s2, m, i, i + word_len(s1, i));
        }
        assert(word_at(s1, i) =~= word_at(s2, i));
    }
    if c == '-' && sign {
        assert(digits_len(s1, i + 1) == digits_len(s2, i + 1));
    }
    if comment_len(s1, i) > 0 {
        assert(comment_len(s1, i) == comment_len(s2, i));
    }
    if c == '"' {
        lemma_prefix_subrange(s1, s2, m, i + 1, find_from(s1, i + 1, '"'));
    } else {
        lemma_prefix_subrange(s1, s2, m, i, e);
    }
}

/// A run of digits or word characters that ends at `m` ends there too where
/// white space stands at `m`.
proof fn lemma_runs_boundary(s1: Seq<char>, s2: Seq<char>, m: int, k: int)
    requires
        same_prefix(s1, s2, m),
        m < s2.len(),
        is_space(s2[m]),
        0 <= k <= m,
    ensures
        k + digits_len(s1, k) <= m ==> digits_len(s1, k) == digits_len(s2, k),
        k + word_len(s1, k) <= m ==> word_len(s1, k) == word_len(s2, k),
    decreases m - k,
{
    if k < m {
        lemma_same_prefix_at(s1, s2, m, k);
        lemma_runs_boundary(s1, s2, m, k + 1);
    }
}

/// A step that ends at `m`, before the end of the input, decides nothing by
/// the character at `m` that white space there would decide otherwise.
proof fn lemma_scan_boundary(s1: Seq<char>, s2: Seq<char>, m: int, i: int, sign: bool)
    requires
        same_prefix(s1, s2, m),
        0 <= i < s1.len(),
        scan(s1, i, sign).1 == m,
        m < s1.len(),
        m < s2.len(),
        is_space(s2[m]),
    ensures
        scan(s1, i, sign) == scan(s2, i, sign),
{
    lemma_scan_advances(s1, i, sign);
    lemma_same_prefix_at(s1, s2, m, i);
    if i + 1 < m {
        lemma_same_prefix_at(s1, s2, m, i + 1);
    }
    lemma_runs_prefix(s1, s2, m, i + 1);
    lemma_runs_prefix(s1, s2, m, i + 2);
    lemma_runs_boundary(s1, s2, m, i);
    lemma_runs_boundary(s1, s2, m, i + 1);
    lemma_runs_bounded(s1, i);
    lemma_runs_bounded(s1, i + 1);
    lemma_find_bounded(s1, i + 1, '"');
    lemma_find_bounded(s1, i + 2, '\n');
    lemma_block_end_bounded(s1, i + 2);
    let c = s1[i];
    if !is_digit(c) {
        if is_word_char(c) {
            assert(word_len(s1, i) > 0);
            assert(i + word_len(s1, i) <= m);
            lemma_prefix_subrange(s1, s2, m, i, i + word_len(s1, i));
        }
        assert(word_len(s1, i) == word_len(s2, i));
        assert(word_at(s1, i) =~= word_at(s2, i));
    }
    if c == '-' && sign {
        assert(digits_len(s1, i + 1) == digits_len(s2, i + 1));
    }
    if comment_len(s1, i) > 0 {
        assert(comment_len(s1, i) == comment_len(s2, i));
    }
    if c == '"' {
        lemma_prefix_subrange(s1, s2, m, i + 1, find_from(s1, i + 1, '"'));
    } else {
        lemma_prefix_subrange(s1, s2, m, i, m);
    }
}

/// Whether the tokenizer, started at `i` after the token `prev`, starts a
/// step at position `b`.
pub open spec fn steps_to(s: Seq<char>, i: int, prev: Option<TokenView>, b: int) -> bool
    decreases s.len() - i,
    via steps_to_decreases
{
    if i == b {
        true
    } else if 0 <= i < b && b <= s.len() {
        let (t, j) = scan(s, i, minus_is_sign(prev));
        match t {
            Some(tok) => steps_to(s, j, Some(tok), b),
            None => steps_to(s, j, prev, b),
        }
    } else {
        false
    }
}

#[via_fn]
proof fn steps_to_decreases(s: Seq<char>, i: int, prev: Option<TokenView>, b: int) {
    if 0 <= i < b && b <= s.len() {
        lemma_scan_advances(s, i, minus_is_sign(prev));
    }
}

proof fn lemma_steps_to_bounded(s: Seq<char>, i: int, prev: Option<TokenView>, b: int)
    requires
        steps_to(s, i, prev, b),
    ensures
        i <= b,
    decreases s.len() - i,
{
    if i != b {
        lemma_scan_advances(s, i, minus_is_sign(prev));
        let (t, j) = scan(s, i, minus_is_sign(prev));
        match t {
            Some(tok) => lemma_steps_to_bounded(s, j, Some(tok), b),
            None => lemma_steps_to_bounded(s, j, prev, b),
        }
    }
}

proof fn lemma_lex_prefix(
    s1: Seq<char>,
    s2: Seq<char>,
    m: int,
    i: int,
    prev: Option<TokenView>,
    b: int,
)
    requires
        same_prefix(s1, s2, m),
        steps_to(s1, i, prev, b),
        0 <= i <= b <= m,
        b == m ==> m < s1.len() && m < s2.len() && is_space(s2[m]),
        forall|pv: Option<TokenView>| lex_from(s1, b, pv) == lex_from(s2, b, pv),
    ensures
        lex_from(s1, i, prev) == lex_from(s2, i, prev),
    decreases b - i,
{
    if i < b {
        let sign = minus_is_sign(prev);
        lemma_scan_advances(s1, i, sign);
        let (t, j) = scan(s1, i, sign);
        match t {
            Some(tok) => lemma_steps_to_bounded(s1, j, Some(tok), b),
            None => lemma_steps_to_bounded(s1, j, prev, b),
        }
        if j < m {
            lemma_scan_prefix(s1, s2, m, i, sign);
        } else {
            lemma_scan_boundary(s1, s2, m, i, sign);
        }
        match t {
            Some(tok) => lemma_lex_prefix(s1, s2, m, j, Some(tok), b),
            None => lemma_lex_prefix(s1, s2, m, j, prev, b),
        }
    } else {
        assert(lex_from(s1, b, prev) == lex_from(s2, b, prev));
    }
}

/// White space inserted where the tokenizer starts a step, with more input
/// after it, changes no token; read the other way round, removing such white
/// space changes none either. `p` is the input before the insertion point,
/// `t` the input after it, and the tokenizer run on `p + t` starts a step at
/// the end of `p`.
pub proof fn lemma_whitespace_between_tokens(p: Seq<char>, w: Seq<char>, t: Seq<char>)
    requires
        forall|k: int| 0 <= k < w.len() ==> is_space(#[trigger] w[k]),
        t.len() > 0,
        steps_to(p + t, 0, None, p.len() as int),
    ensures
        tokenize(p + w + t) == tokenize(p + t),
{
    let s1 = p + t;
    let s2 = p + w + t;
    if w.len() == 0 {
        assert(s2 =~= s1);
    } else {
        let m = p.len() as int;
        assert forall|pv: Option<TokenView>| lex_from(s1, m, pv) == lex_from(s2, m, pv) by {
            lemma_whitespace_insertion(p, w, t, pv);
        }
        assert(s1.subrange(0, m) =~= s2.subrange(0, m));
        assert(s2[m] == w[0]);
        lemma_lex_prefix(s1, s2, m, 0, None, m);
    }
}

} // verus!
