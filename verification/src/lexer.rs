//! The tokens of the filter language.
use vstd::prelude::*;
use crate::text::{
    char_lower_is, is_whitespace, is_ws, lower_is, lower_is_lit, skip_ws, str_chars, string_from_chars, sub_chars,
    trailing_end, trim,
};

verus! {

/// A token of a filter expression.
#[derive(Debug, PartialEq)]
pub enum Token {
    LParen,
    RParen,
    And,
    Or,
    Not,
    Word(String),
}

/// A token, with a word taken by its characters.
pub enum TokenV {
    LParen,
    RParen,
    And,
    Or,
    Not,
    Word(Seq<char>),
}

impl View for Token {
    type V = TokenV;

    open spec fn view(&self) -> TokenV {
        match self {
            Token::LParen => TokenV::LParen,
            Token::RParen => TokenV::RParen,
            Token::And => TokenV::And,
            Token::Or => TokenV::Or,
            Token::Not => TokenV::Not,
            Token::Word(w) => TokenV::Word(w@),
        }
    }
}

impl Clone for Token {
    fn clone(&self) -> (r: Self)
        ensures
            r@ == self@,
    {
        match self {
            Token::LParen => Token::LParen,
            Token::RParen => Token::RParen,
            Token::And => Token::And,
            Token::Or => Token::Or,
            Token::Not => Token::Not,
            Token::Word(w) => Token::Word(w.clone()),
        }
    }
}

/// The views of a sequence of tokens.
pub open spec fn tokens_view(v: Seq<Token>) -> Seq<TokenV> {
    v.map_values(|t: Token| t@)
}

/// A character that ends a word: whitespace, a parenthesis or `!`.
pub open spec fn is_word_stop(c: char) -> bool {
    is_ws(c) || c == '(' || c == ')' || c == '!'
}

/// The end of the word that starts at `i`: the first stop character at or
/// after `i`, or the end of `s`.
pub open spec fn word_end(s: Seq<char>, i: int) -> int
    decreases s.len() - i,
{
    if 0 <= i < s.len() && !is_word_stop(s[i]) {
        word_end(s, i + 1)
    } else {
        i
    }
}

/// A word ends at or after where it starts, and within the text.
pub proof fn lemma_word_end_bounds(s: Seq<char>, i: int)
    requires
        0 <= i <= s.len(),
    ensures
        i <= word_end(s, i) <= s.len(),
    decreases s.len() - i,
{
    if i < s.len() && !is_word_stop(s[i]) {
        lemma_word_end_bounds(s, i + 1);
    }
}

/// A word is the keyword `and`, `or` or `not` in any case, or a plain word.
pub open spec fn classify_word(w: Seq<char>) -> TokenV {
    if lower_is(w, "and"@) {
        TokenV::And
    } else if lower_is(w, "or"@) {
        TokenV::Or
    } else if lower_is(w, "not"@) {
        TokenV::Not
    } else {
        TokenV::Word(w)
    }
}

/// The tokens of `s` from position `i` on. Whitespace separates tokens;
/// `(`, `)` and `!` are tokens of their own; `&` or `&&` is `and`, `|` or `||`
/// is `or` where a token starts; any other run of characters up to
/// whitespace, a parenthesis or `!` is a word.
pub open spec fn tokens_from(s: Seq<char>, i: int) -> Seq<TokenV>
    decreases s.len() - i,
{
    if i < 0 || i >= s.len() {
        Seq::empty()
    } else {
        let c = s[i];
        if is_ws(c) {
            tokens_from(s, i + 1)
        } else if c == '(' {
            seq![TokenV::LParen] + tokens_from(s, i + 1)
        } else if c == ')' {
            seq![TokenV::RParen] + tokens_from(s, i + 1)
        } else if c == '!' {
            seq![TokenV::Not] + tokens_from(s, i + 1)
        } else if c == '&' {
            let j = if i + 1 < s.len() && s[i + 1] == '&' {
                i + 2
            } else {
                i + 1
            };
            seq![TokenV::And] + tokens_from(s, j)
        } else if c == '|' {
            let j = if i + 1 < s.len() && s[i + 1] == '|' {
                i + 2
            } else {
                i + 1
            };
            seq![TokenV::Or] + tokens_from(s, j)
        } else {
            let e = word_end(s, i + 1);
            proof {
                lemma_word_end_bounds(s, i + 1);
            }
            seq![classify_word(s.subrange(i, e))] + tokens_from(s, e)
        }
    }
}

/// The tokens of a whole filter text.
pub open spec fn tokenize_spec(s: Seq<char>) -> Seq<TokenV> {
    tokens_from(s, 0)
}

fn classify_exec(w: Vec<char>) -> (t: Token)
    ensures
        t@ == classify_word(w@),
{
    if lower_is_lit(w.as_slice(), "and") {
        Token::And
    } else if lower_is_lit(w.as_slice(), "or") {
        Token::Or
    } else if lower_is_lit(w.as_slice(), "not") {
        Token::Not
    } else {
        Token::Word(string_from_chars(w.as_slice()))
    }
}

/// Splits a filter text into tokens.
pub fn tokenize(input: &str) -> (tokens: Vec<Token>)
    ensures
        tokens_view(tokens@) == tokenize_spec(input@),
{
    let s = str_chars(input);
    tokenize_chars(s.as_slice())
}

/// Splits a filter text, given by its characters, into tokens.
pub fn tokenize_chars(s: &[char]) -> (tokens: Vec<Token>)
    ensures
        tokens_view(tokens@) == tokenize_spec(s@),
{
    let mut tokens: Vec<Token> = Vec::new();
    let mut i: usize = 0;
    while i < s.len()
        invariant
            i <= s.len(),
            tokens_view(tokens@) + tokens_from(s@, i as int) == tokens_from(s@, 0),
        decreases s.len() - i,
    {
        let ghost t0 = tokens_view(tokens@);
        let c = s[i];
        if is_whitespace(c) {
            i += 1;
            continue;
        }
        let ghost i0 = i as int;
        if c == '(' {
            tokens.push(Token::LParen);
            i += 1;
        } else if c == ')' {
            tokens.push(Token::RParen);
            i += 1;
        } else if c == '!' {
            tokens.push(Token::Not);
            i += 1;
        } else if c == '&' {
            i += 1;
            if i < s.len() && s[i] == '&' {
                i += 1;
            }
            tokens.push(Token::And);
        } else if c == '|' {
            i += 1;
            if i < s.len() && s[i] == '|' {
                i += 1;
            }
            tokens.push(Token::Or);
        } else {
            let mut j = i + 1;
            while j < s.len() && !(is_whitespace(s[j]) || s[j] == '(' || s[j] == ')' || s[j] == '!')
                invariant
                    i < j <= s.len(),
                    word_end(s@, j as int) == word_end(s@, i + 1),
                decreases s.len() - j,
            {
                j += 1;
            }
            let w = sub_chars(s, i, j);
            tokens.push(classify_exec(w));
            i = j;
        }
        assert(tokens_view(tokens@) =~= t0 + tokens_view(tokens@).subrange(t0.len() as int, tokens@.len() as int));
        assert(tokens_view(tokens@) + tokens_from(s@, i as int) =~= t0 + tokens_from(s@, i0));
    }
    tokens
}

// ---------------------------------------------------------------------------
// How the tokens of joined text relate to the tokens of its parts.

/// The tokens that a stop character stands for when it separates two pieces
/// of text: none for whitespace, one for a parenthesis or `!`.
pub open spec fn stop_tokens(c: char) -> Seq<TokenV> {
    if c == '(' {
        seq![TokenV::LParen]
    } else if c == ')' {
        seq![TokenV::RParen]
    } else if c == '!' {
        seq![TokenV::Not]
    } else {
        Seq::empty()
    }
}

proof fn lemma_word_end_prefix(a: Seq<char>, s: Seq<char>, k: int)
    requires
        0 <= k <= a.len() < s.len(),
        s.subrange(0, a.len() as int) == a,
        is_word_stop(s[a.len() as int]),
    ensures
        word_end(s, k) == word_end(a, k),
    decreases a.len() - k,
{
    if k < a.len() {
        assert(s.subrange(0, a.len() as int)[k] == s[k]);
        if !is_word_stop(a[k]) {
            lemma_word_end_prefix(a, s, k + 1);
        }
    }
}

/// Within a prefix `a` of `s` that `s` follows with a stop character, `s`
/// has the tokens of `a`, then those from the stop character on.
proof fn lemma_tokens_prefix(a: Seq<char>, s: Seq<char>, i: int)
    requires
        0 <= i <= a.len() < s.len(),
        s.subrange(0, a.len() as int) == a,
        is_word_stop(s[a.len() as int]),
    ensures
        tokens_from(s, i) == tokens_from(a, i) + tokens_from(s, a.len() as int),
    decreases a.len() - i,
{
    if i == a.len() {
        assert(tokens_from(a, i) =~= Seq::empty());
        assert(tokens_from(s, i) =~= tokens_from(a, i) + tokens_from(s, a.len() as int));
    } else {
        let c = s[i];
        assert(s.subrange(0, a.len() as int)[i] == s[i]);
        assert(c == a[i]);
        if i + 1 < a.len() {
            assert(s.subrange(0, a.len() as int)[i + 1] == s[i + 1]);
        }
        if is_ws(c) || c == '(' || c == ')' || c == '!' {
            lemma_tokens_prefix(a, s, i + 1);
        } else if c == '&' || c == '|' {
            let j = if i + 1 < s.len() && s[i + 1] == c {
                i + 2
            } else {
                i + 1
            };
            lemma_tokens_prefix(a, s, j);
        } else {
            lemma_word_end_prefix(a, s, i + 1);
            lemma_word_end_bounds(a, i + 1);
            let e = word_end(a, i + 1);
            assert(s.subrange(i, e) =~= a.subrange(i, e));
            lemma_tokens_prefix(a, s, e);
        }
        assert(tokens_from(s, i) =~= tokens_from(a, i) + tokens_from(s, a.len() as int));
    }
}

proof fn lemma_word_end_shift(p: Seq<char>, b: Seq<char>, k: int)
    requires
        0 <= k <= b.len(),
    ensures
        word_end(p + b, p.len() + k) == p.len() + word_end(b, k),
    decreases b.len() - k,
{
    if k < b.len() {
        assert((p + b)[p.len() + k] == b[k]);
        if !is_word_stop(b[k]) {
            lemma_word_end_shift(p, b, k + 1);
        }
    }
}

/// The tokens of `p + b` from inside `b` on are those of `b`.
proof fn lemma_tokens_shift(p: Seq<char>, b: Seq<char>, k: int)
    requires
        0 <= k <= b.len(),
    ensures
        tokens_from(p + b, p.len() + k) == tokens_from(b, k),
    decreases b.len() - k,
{
    let s = p + b;
    let i = p.len() + k;
    if k < b.len() {
        let c = b[k];
        assert(s[i] == c);
        if k + 1 < b.len() {
            assert(s[i + 1] == b[k + 1]);
        }
        if is_ws(c) || c == '(' || c == ')' || c == '!' {
            lemma_tokens_shift(p, b, k + 1);
        } else if c == '&' || c == '|' {
            let j = if k + 1 < b.len() && b[k + 1] == c {
                k + 2
            } else {
                k + 1
            };
            lemma_tokens_shift(p, b, j);
        } else {
            lemma_word_end_shift(p, b, k + 1);
            lemma_word_end_bounds(b, k + 1);
            let e = word_end(b, k + 1);
            assert(s.subrange(i, p.len() + e) =~= b.subrange(k, e));
            lemma_tokens_shift(p, b, e);
        }
    }
}

/// Text split by a stop character (whitespace, a parenthesis or `!`)
/// tokenizes to the tokens of the text before it, the token the character
/// stands for, and the tokens of the text after it.
pub proof fn lemma_tokenize_split_at_stop(a: Seq<char>, c: char, b: Seq<char>)
    requires
        is_word_stop(c),
    ensures
        tokenize_spec(a + seq![c] + b) == tokenize_spec(a) + stop_tokens(c) + tokenize_spec(b),
{
    let s = a + seq![c] + b;
    let p = a + seq![c];
    assert(s.subrange(0, a.len() as int) =~= a);
    assert(s[a.len() as int] == c);
    lemma_tokens_prefix(a, s, 0);
    assert(s =~= p + b);
    lemma_tokens_shift(p, b, 0);
    assert(tokens_from(s, a.len() as int) =~= stop_tokens(c) + tokens_from(s, (a.len() + 1) as int));
    assert(tokenize_spec(s) =~= tokenize_spec(a) + stop_tokens(c) + tokenize_spec(b));
}

/// Text joined by a whitespace character tokenizes to the tokens of its two
/// sides, one after the other.
pub proof fn lemma_tokenize_split(a: Seq<char>, c: char, b: Seq<char>)
    requires
        is_ws(c),
    ensures
        tokenize_spec(a + seq![c] + b) == tokenize_spec(a) + tokenize_spec(b),
{
    lemma_tokenize_split_at_stop(a, c, b);
    assert(tokenize_spec(a) + stop_tokens(c) =~= tokenize_spec(a));
}

proof fn lemma_tokens_leading(s: Seq<char>, i: int)
    requires
        0 <= i <= s.len(),
    ensures
        tokenize_spec(s.subrange(skip_ws(s, i), s.len() as int)) == tokenize_spec(
            s.subrange(i, s.len() as int),
        ),
    decreases s.len() - i,
{
    if i < s.len() && is_ws(s[i]) {
        lemma_tokens_leading(s, i + 1);
        let rest = s.subrange(i + 1, s.len() as int);
        lemma_tokenize_split(Seq::empty(), s[i], rest);
        assert(Seq::<char>::empty() + seq![s[i]] + rest =~= s.subrange(i, s.len() as int));
        assert(tokenize_spec(Seq::<char>::empty()) =~= Seq::empty());
        assert(tokenize_spec(Seq::<char>::empty()) + tokenize_spec(rest) =~= tokenize_spec(rest));
    }
}

proof fn lemma_tokens_trailing(t: Seq<char>, j: int)
    requires
        0 <= j <= t.len(),
    ensures
        tokenize_spec(t.subrange(0, trailing_end(t, j))) == tokenize_spec(t.subrange(0, j)),
    decreases j,
{
    if 0 < j && is_ws(t[j - 1]) {
        lemma_tokens_trailing(t, j - 1);
        let front = t.subrange(0, j - 1);
        lemma_tokenize_split(front, t[j - 1], Seq::empty());
        assert(front + seq![t[j - 1]] + Seq::<char>::empty() =~= t.subrange(0, j));
        assert(tokenize_spec(Seq::<char>::empty()) =~= Seq::empty());
        assert(tokenize_spec(front) + tokenize_spec(Seq::<char>::empty()) =~= tokenize_spec(front));
    }
}

/// Leading and trailing whitespace does not change the tokens: the text
/// tokenizes as its trimmed form does.
pub proof fn lemma_tokenize_trim(s: Seq<char>)
    ensures
        tokenize_spec(trim(s)) == tokenize_spec(s),
{
    lemma_tokens_leading(s, 0);
    assert(s.subrange(0, s.len() as int) =~= s);
    let t = s.subrange(skip_ws(s, 0), s.len() as int);
    lemma_tokens_trailing(t, t.len() as int);
    assert(t.subrange(0, t.len() as int) =~= t);
}

proof fn lemma_skip_ws_stops(s: Seq<char>, i: int)
    requires
        0 <= i <= s.len(),
    ensures
        i <= skip_ws(s, i) <= s.len(),
        skip_ws(s, i) < s.len() ==> !is_ws(s[skip_ws(s, i)]),
    decreases s.len() - i,
{
    if i < s.len() && is_ws(s[i]) {
        lemma_skip_ws_stops(s, i + 1);
    }
}

proof fn lemma_trailing_end_bounds(t: Seq<char>, j: int)
    requires
        0 <= j <= t.len(),
    ensures
        0 <= trailing_end(t, j) <= j,
    decreases j,
{
    if 0 < j && is_ws(t[j - 1]) {
        lemma_trailing_end_bounds(t, j - 1);
    }
}

/// Text that is not blank has at least one token.
pub proof fn lemma_nonblank_has_tokens(s: Seq<char>)
    requires
        trim(s).len() > 0,
    ensures
        tokenize_spec(s).len() > 0,
{
    lemma_tokenize_trim(s);
    lemma_skip_ws_stops(s, 0);
    let t = s.subrange(skip_ws(s, 0), s.len() as int);
    lemma_trailing_end_bounds(t, t.len() as int);
    let x = trim(s);
    assert(x[0] == t[0]);
    assert(!is_ws(x[0]));
    assert(tokens_from(x, 0).len() > 0);
}

/// Text with a token is not blank, and `trim` keeps its tokens.
pub proof fn lemma_tokens_not_blank(s: Seq<char>)
    requires
        tokenize_spec(s).len() > 0,
    ensures
        trim(s).len() > 0,
        tokenize_spec(trim(s)) == tokenize_spec(s),
{
    lemma_tokenize_trim(s);
    if trim(s).len() == 0 {
        assert(tokenize_spec(trim(s)) =~= Seq::empty());
    }
}

/// The keyword `and`, alone, is the token `and`.
pub proof fn lemma_tokenize_and()
    ensures
        tokenize_spec("and"@) == seq![TokenV::And],
{
    reveal_strlit("and");
    let w = "and"@;
    assert(word_end(w, 3) == 3);
    assert(word_end(w, 2) == 3);
    assert(word_end(w, 1) == 3);
    assert(w.subrange(0, 3) =~= w);
    assert(lower_is(w, "and"@));
    assert(tokens_from(w, 3) =~= Seq::empty());
    assert(tokens_from(w, 0) =~= seq![TokenV::And]);
}

/// The keyword `not`, alone, is the token `not`.
pub proof fn lemma_tokenize_not()
    ensures
        tokenize_spec("not"@) == seq![TokenV::Not],
{
    reveal_strlit("not");
    reveal_strlit("and");
    reveal_strlit("or");
    let w = "not"@;
    assert(word_end(w, 3) == 3);
    assert(word_end(w, 2) == 3);
    assert(word_end(w, 1) == 3);
    assert(w.subrange(0, 3) =~= w);
    assert(!char_lower_is(w[0], "and"@[0]));
    assert(!lower_is(w, "and"@));
    assert(!lower_is(w, "or"@));
    assert(lower_is(w, "not"@));
    assert(tokens_from(w, 3) =~= Seq::empty());
    assert(tokens_from(w, 0) =~= seq![TokenV::Not]);
}

} // verus!
