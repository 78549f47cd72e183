//! Letter case in filter text: keywords match whatever the case of their
//! ASCII letters, and no other word of a filter that parses has a letter in
//! it, so a filter parses the same with its letters in any case.
use vstd::prelude::*;
use crate::lexer::{
    classify_word, is_word_stop, lemma_tokenize_trim, lemma_word_end_bounds, tokenize_spec, tokens_from, word_end, TokenV,
};
use crate::addr::{lemma_split_dots_nonempty, octet, parse_ipv4, split_dots};
use crate::filter::FilterExpr;
use crate::parser::{
    and_spec, and_tail_spec, lemma_parse_filter_tokens, not_spec, or_spec, or_tail_spec, parse_filter_spec,
    primary_spec, size_op_spec, starts_term, starts_with, word_spec,
};
use crate::text::{all_digits, char_lower_is, is_digit, is_ws, lower_is, parse_unsigned};

verus! {

/// An ASCII letter.
pub open spec fn is_ascii_letter(c: char) -> bool {
    (0x41 <= (c as u32) <= 0x5a) || (0x61 <= (c as u32) <= 0x7a)
}

/// `c` and `d` are the same character, or the same ASCII letter in either case.
pub open spec fn ascii_case_eq(c: char, d: char) -> bool {
    c == d || (0x41 <= (c as u32) <= 0x5a && (d as u32) == (c as u32) + 32) || (0x41 <= (d as u32)
        <= 0x5a && (c as u32) == (d as u32) + 32)
}

/// `x` and `y` differ at most in the case of ASCII letters.
pub open spec fn same_ignoring_case(x: Seq<char>, y: Seq<char>) -> bool {
    x.len() == y.len() && forall|i: int| 0 <= i < x.len() ==> ascii_case_eq(#[trigger] x[i], y[i])
}

/// No uppercase ASCII letter in `kw`.
pub open spec fn no_upper(kw: Seq<char>) -> bool {
    forall|j: int| 0 <= j < kw.len() ==> !(0x41 <= (#[trigger] kw[j] as u32) <= 0x5a)
}

proof fn lemma_char_lower_case(c: char, d: char, k: char)
    requires
        ascii_case_eq(c, d),
        !(0x41 <= (k as u32) <= 0x5a),
        char_lower_is(c, k),
    ensures
        char_lower_is(d, k),
{
    let (cu, du, ku) = (c as u32, d as u32, k as u32);
    if c == k {
        if c != d {
            assert(0x41 <= du <= 0x5a && cu == du + 32);
            assert(du + 32 == ku);
        }
    } else {
        assert(0x41 <= cu <= 0x5a && cu + 32 == ku);
        if c != d {
            assert(du == cu + 32);
            assert(du == ku);
            assert(d == k);
        }
    }
}

/// Against a keyword with no uppercase letter, the case of a word's letters
/// does not matter.
proof fn lemma_lower_is_case(w1: Seq<char>, w2: Seq<char>, kw: Seq<char>)
    requires
        same_ignoring_case(w1, w2),
        no_upper(kw),
    ensures
        lower_is(w1, kw) == lower_is(w2, kw),
{
    if lower_is(w1, kw) {
        assert forall|i: int| 0 <= i < w2.len() implies char_lower_is(#[trigger] w2[i], kw[i]) by {
            assert(ascii_case_eq(w1[i], w2[i]));
            lemma_char_lower_case(w1[i], w2[i], kw[i]);
        }
    }
    if lower_is(w2, kw) {
        assert forall|i: int| 0 <= i < w1.len() implies char_lower_is(#[trigger] w1[i], kw[i]) by {
            assert(ascii_case_eq(w1[i], w2[i]));
            lemma_char_lower_case(w2[i], w1[i], kw[i]);
        }
    }
}

/// Two tokens that are the same, or words that differ at most in case.
pub open spec fn token_case_eq(a: TokenV, b: TokenV) -> bool {
    match a {
        TokenV::Word(w1) => b matches TokenV::Word(w2) && same_ignoring_case(w1, w2),
        _ => a == b,
    }
}

/// Two token sequences that match token by token, up to the case of words.
pub open spec fn tokens_case_eq(t1: Seq<TokenV>, t2: Seq<TokenV>) -> bool {
    t1.len() == t2.len() && forall|i: int| 0 <= i < t1.len() ==> token_case_eq(#[trigger] t1[i], t2[i])
}

proof fn lemma_word_end_case(x: Seq<char>, y: Seq<char>, k: int)
    requires
        same_ignoring_case(x, y),
        0 <= k <= x.len(),
    ensures
        word_end(x, k) == word_end(y, k),
    decreases x.len() - k,
{
    if k < x.len() {
        assert(ascii_case_eq(x[k], y[k]));
        if !is_word_stop(x[k]) {
            lemma_word_end_case(x, y, k + 1);
        }
    }
}

proof fn lemma_classify_case(w1: Seq<char>, w2: Seq<char>)
    requires
        same_ignoring_case(w1, w2),
    ensures
        token_case_eq(classify_word(w1), classify_word(w2)),
{
    reveal_strlit("and");
    reveal_strlit("or");
    reveal_strlit("not");
    lemma_lower_is_case(w1, w2, "and"@);
    lemma_lower_is_case(w1, w2, "or"@);
    lemma_lower_is_case(w1, w2, "not"@);
}

proof fn lemma_case_cons(a: TokenV, b: TokenV, r1: Seq<TokenV>, r2: Seq<TokenV>)
    requires
        token_case_eq(a, b),
        tokens_case_eq(r1, r2),
    ensures
        tokens_case_eq(seq![a] + r1, seq![b] + r2),
{
    let s1 = seq![a] + r1;
    let s2 = seq![b] + r2;
    assert forall|i: int| 0 <= i < s1.len() implies token_case_eq(#[trigger] s1[i], s2[i]) by {
        if i > 0 {
            assert(s1[i] == r1[i - 1]);
            assert(s2[i] == r2[i - 1]);
        }
    }
}

proof fn lemma_tokens_case(x: Seq<char>, y: Seq<char>, i: int)
    requires
        same_ignoring_case(x, y),
        0 <= i <= x.len(),
    ensures
        tokens_case_eq(tokens_from(x, i), tokens_from(y, i)),
    decreases x.len() - i,
{
    if i < x.len() {
        let c = x[i];
        assert(ascii_case_eq(c, y[i]));
        if i + 1 < x.len() {
            assert(ascii_case_eq(x[i + 1], y[i + 1]));
        }
        if is_ws(c) || c == '(' || c == ')' || c == '!' {
            assert(y[i] == c);
            lemma_tokens_case(x, y, i + 1);
            if !is_ws(c) {
                lemma_case_cons(
                    tokens_from(x, i)[0],
                    tokens_from(y, i)[0],
                    tokens_from(x, i + 1),
                    tokens_from(y, i + 1),
                );
                assert(tokens_from(x, i) =~= seq![tokens_from(x, i)[0]] + tokens_from(x, i + 1));
                assert(tokens_from(y, i) =~= seq![tokens_from(y, i)[0]] + tokens_from(y, i + 1));
            }
        } else if c == '&' || c == '|' {
            assert(y[i] == c);
            let j = if i + 1 < x.len() && x[i + 1] == c {
                i + 2
            } else {
                i + 1
            };
            lemma_tokens_case(x, y, j);
            lemma_case_cons(
                tokens_from(x, i)[0],
                tokens_from(y, i)[0],
                tokens_from(x, j),
                tokens_from(y, j),
            );
            assert(tokens_from(x, i) =~= seq![tokens_from(x, i)[0]] + tokens_from(x, j));
            assert(tokens_from(y, i) =~= seq![tokens_from(y, i)[0]] + tokens_from(y, j));
        } else {
            let d = y[i];
            assert(!(is_ws(d) || d == '(' || d == ')' || d == '!' || d == '&' || d == '|'));
            lemma_word_end_case(x, y, i + 1);
            lemma_word_end_bounds(x, i + 1);
            let e = word_end(x, i + 1);
            let w1 = x.subrange(i, e);
            let w2 = y.subrange(i, e);
            assert forall|k: int| 0 <= k < w1.len() implies ascii_case_eq(#[trigger] w1[k], w2[k]) by {
                assert(ascii_case_eq(x[i + k], y[i + k]));
            }
            lemma_classify_case(w1, w2);
            lemma_tokens_case(x, y, e);
            lemma_case_cons(classify_word(w1), classify_word(w2), tokens_from(x, e), tokens_from(y, e));
        }
    }
}

/// Text that differs at most in the case of ASCII letters has matching
/// tokens: the same tokens, but for the case of words.
pub proof fn lemma_tokenize_case(x: Seq<char>, y: Seq<char>)
    requires
        same_ignoring_case(x, y),
    ensures
        tokens_case_eq(tokenize_spec(x), tokenize_spec(y)),
{
    lemma_tokens_case(x, y, 0);
}

// ---------------------------------------------------------------------------
// Words without letters: numbers, addresses and size operators.

/// No ASCII letter in `s`.
pub open spec fn no_letters(s: Seq<char>) -> bool {
    forall|i: int| 0 <= i < s.len() ==> !is_ascii_letter(#[trigger] s[i])
}

proof fn lemma_no_letters_same(w1: Seq<char>, w2: Seq<char>)
    requires
        same_ignoring_case(w1, w2),
        no_letters(w1),
    ensures
        w1 == w2,
{
    assert forall|i: int| 0 <= i < w1.len() implies #[trigger] w1[i] == w2[i] by {
        assert(ascii_case_eq(w1[i], w2[i]));
        assert(!is_ascii_letter(w1[i]));
    }
    assert(w1 =~= w2);
}

proof fn lemma_case_symmetric(w1: Seq<char>, w2: Seq<char>)
    requires
        same_ignoring_case(w1, w2),
    ensures
        same_ignoring_case(w2, w1),
{
    assert forall|i: int| 0 <= i < w2.len() implies ascii_case_eq(#[trigger] w2[i], w1[i]) by {
        assert(ascii_case_eq(w1[i], w2[i]));
    }
}

proof fn lemma_subrange_case(w1: Seq<char>, w2: Seq<char>, lo: int, hi: int)
    requires
        same_ignoring_case(w1, w2),
        0 <= lo <= hi <= w1.len(),
    ensures
        same_ignoring_case(w1.subrange(lo, hi), w2.subrange(lo, hi)),
{
    let a = w1.subrange(lo, hi);
    let b = w2.subrange(lo, hi);
    assert forall|k: int| 0 <= k < a.len() implies ascii_case_eq(#[trigger] a[k], b[k]) by {
        assert(ascii_case_eq(w1[lo + k], w2[lo + k]));
    }
}

/// Against a text with no letters, equality and being a prefix do not
/// depend on the case of a word's letters.
proof fn lemma_eq_lit_case(w1: Seq<char>, w2: Seq<char>, lit: Seq<char>)
    requires
        same_ignoring_case(w1, w2),
        no_letters(lit),
    ensures
        (w1 == lit) == (w2 == lit),
        starts_with(w1, lit) == starts_with(w2, lit),
{
    lemma_case_symmetric(w1, w2);
    if w1 == lit {
        lemma_no_letters_same(w1, w2);
    }
    if w2 == lit {
        lemma_no_letters_same(w2, w1);
    }
    if lit.len() <= w1.len() {
        let n = lit.len() as int;
        lemma_subrange_case(w1, w2, 0, n);
        lemma_subrange_case(w2, w1, 0, n);
        if w1.subrange(0, n) == lit {
            lemma_no_letters_same(w1.subrange(0, n), w2.subrange(0, n));
        }
        if w2.subrange(0, n) == lit {
            lemma_no_letters_same(w2.subrange(0, n), w1.subrange(0, n));
        }
    }
}

/// A number that parses has no letters, so its case cannot change it.
proof fn lemma_unsigned_case(v1: Seq<char>, v2: Seq<char>, max: int)
    requires
        same_ignoring_case(v1, v2),
        parse_unsigned(v1, max) is Some,
    ensures
        v1 == v2,
{
    let plus = v1.len() > 0 && v1[0] == '+';
    let digits = if plus {
        v1.drop_first()
    } else {
        v1
    };
    assert(all_digits(digits));
    assert forall|i: int| 0 <= i < v1.len() implies !is_ascii_letter(#[trigger] v1[i]) by {
        if plus {
            if i > 0 {
                assert(v1[i] == digits[i - 1]);
                assert(is_digit(digits[i - 1]));
            }
        } else {
            assert(is_digit(digits[i]));
        }
    }
    lemma_no_letters_same(v1, v2);
}

proof fn lemma_split_dots_no_letters(s: Seq<char>)
    requires
        forall|k: int| 0 <= k < split_dots(s).len() ==> no_letters(#[trigger] split_dots(s)[k]),
    ensures
        no_letters(s),
    decreases s.len(),
{
    if s.len() > 0 {
        let init = s.drop_last();
        let r = split_dots(init);
        lemma_split_dots_nonempty(init);
        let c = s.last();
        if c == '.' {
            assert forall|k: int| 0 <= k < r.len() implies no_letters(#[trigger] r[k]) by {
                assert(split_dots(s)[k] == r[k]);
            }
        } else {
            let n = r.len() - 1;
            let last = r.last().push(c);
            assert forall|k: int| 0 <= k < r.len() implies no_letters(#[trigger] r[k]) by {
                if k < n {
                    assert(split_dots(s)[k] == r[k]);
                } else {
                    assert(split_dots(s)[n] == last);
                    assert forall|i: int| 0 <= i < r[k].len() implies !is_ascii_letter(#[trigger] r[k][i]) by {
                        assert(last[i] == r[k][i]);
                    }
                }
            }
            assert(split_dots(s)[n] == last);
            assert(last[last.len() - 1] == c);
            assert(!is_ascii_letter(c));
        }
        lemma_split_dots_no_letters(init);
        assert forall|i: int| 0 <= i < s.len() implies !is_ascii_letter(#[trigger] s[i]) by {
            if i < s.len() - 1 {
                assert(s[i] == init[i]);
            }
        }
    }
}

/// An address that parses has no letters, so its case cannot change it.
proof fn lemma_ipv4_case(a1: Seq<char>, a2: Seq<char>)
    requires
        same_ignoring_case(a1, a2),
        parse_ipv4(a1) is Some,
    ensures
        a1 == a2,
{
    let p = split_dots(a1);
    assert forall|k: int| 0 <= k < p.len() implies no_letters(#[trigger] p[k]) by {
        assert(octet(p[k]) is Some);
        assert(all_digits(p[k]));
        assert forall|i: int| 0 <= i < p[k].len() implies !is_ascii_letter(#[trigger] p[k][i]) by {
            assert(is_digit(p[k][i]));
        }
    }
    lemma_split_dots_no_letters(a1);
    lemma_no_letters_same(a1, a2);
}

// ---------------------------------------------------------------------------
// The parser on token sequences that match up to the case of words.

proof fn lemma_size_op_case(t1: Seq<TokenV>, t2: Seq<TokenV>, pos: nat)
    requires
        tokens_case_eq(t1, t2),
        pos <= t1.len(),
    ensures
        size_op_spec(t1, pos) matches Ok((op, v1, p)) ==> (size_op_spec(t2, pos) matches Ok((op2, v2, p2))
            && op2 == op && p2 == p && same_ignoring_case(v1, v2)),
{
    reveal_strlit(">");
    reveal_strlit(">=");
    reveal_strlit("<");
    reveal_strlit("<=");
    reveal_strlit("==");
    reveal_strlit("=");
    assert(no_letters(">"@));
    assert(no_letters(">="@));
    assert(no_letters("<"@));
    assert(no_letters("<="@));
    assert(no_letters("=="@));
    assert(no_letters("="@));
    if pos < t1.len() {
        assert(token_case_eq(t1[pos as int], t2[pos as int]));
        if pos + 1 < t1.len() {
            assert(token_case_eq(t1[(pos + 1) as int], t2[(pos + 1) as int]));
        }
        if let TokenV::Word(w1) = t1[pos as int] {
            let w2 = t2[pos as int]->Word_0;
            lemma_eq_lit_case(w1, w2, ">"@);
            lemma_eq_lit_case(w1, w2, ">="@);
            lemma_eq_lit_case(w1, w2, "<"@);
            lemma_eq_lit_case(w1, w2, "<="@);
            lemma_eq_lit_case(w1, w2, "=="@);
            lemma_eq_lit_case(w1, w2, "="@);
            if w1.len() >= 1 {
                lemma_subrange_case(w1, w2, 1, w1.len() as int);
            }
            if w1.len() >= 2 {
                lemma_subrange_case(w1, w2, 2, w1.len() as int);
            }
        }
    }
}

/// Every keyword of the filter language compares the same against two words
/// that differ only in case.
proof fn lemma_keywords_case(w1: Seq<char>, w2: Seq<char>)
    requires
        same_ignoring_case(w1, w2),
    ensures
        lower_is(w1, "tcp"@) == lower_is(w2, "tcp"@),
        lower_is(w1, "udp"@) == lower_is(w2, "udp"@),
        lower_is(w1, "icmp"@) == lower_is(w2, "icmp"@),
        lower_is(w1, "src"@) == lower_is(w2, "src"@),
        lower_is(w1, "src_ip"@) == lower_is(w2, "src_ip"@),
        lower_is(w1, "srcip"@) == lower_is(w2, "srcip"@),
        lower_is(w1, "dst"@) == lower_is(w2, "dst"@),
        lower_is(w1, "dst_ip"@) == lower_is(w2, "dst_ip"@),
        lower_is(w1, "dstip"@) == lower_is(w2, "dstip"@),
        lower_is(w1, "ip"@) == lower_is(w2, "ip"@),
        lower_is(w1, "host"@) == lower_is(w2, "host"@),
        lower_is(w1, "sport"@) == lower_is(w2, "sport"@),
        lower_is(w1, "src_port"@) == lower_is(w2, "src_port"@),
        lower_is(w1, "srcport"@) == lower_is(w2, "srcport"@),
        lower_is(w1, "dport"@) == lower_is(w2, "dport"@),
        lower_is(w1, "dst_port"@) == lower_is(w2, "dst_port"@),
        lower_is(w1, "dstport"@) == lower_is(w2, "dstport"@),
        lower_is(w1, "port"@) == lower_is(w2, "port"@),
        lower_is(w1, "size"@) == lower_is(w2, "size"@),
        lower_is(w1, "len"@) == lower_is(w2, "len"@),
{
    reveal_strlit("tcp");
    reveal_strlit("udp");
    reveal_strlit("icmp");
    reveal_strlit("src");
    reveal_strlit("src_ip");
    reveal_strlit("srcip");
    reveal_strlit("dst");
    reveal_strlit("dst_ip");
    reveal_strlit("dstip");
    reveal_strlit("ip");
    reveal_strlit("host");
    reveal_strlit("sport");
    reveal_strlit("src_port");
    reveal_strlit("srcport");
    reveal_strlit("dport");
    reveal_strlit("dst_port");
    reveal_strlit("dstport");
    reveal_strlit("port");
    reveal_strlit("size");
    reveal_strlit("len");
    lemma_lower_is_case(w1, w2, "tcp"@);
    lemma_lower_is_case(w1, w2, "udp"@);
    lemma_lower_is_case(w1, w2, "icmp"@);
    lemma_lower_is_case(w1, w2, "src"@);
    lemma_lower_is_case(w1, w2, "src_ip"@);
    lemma_lower_is_case(w1, w2, "srcip"@);
    lemma_lower_is_case(w1, w2, "dst"@);
    lemma_lower_is_case(w1, w2, "dst_ip"@);
    lemma_lower_is_case(w1, w2, "dstip"@);
    lemma_lower_is_case(w1, w2, "ip"@);
    lemma_lower_is_case(w1, w2, "host"@);
    lemma_lower_is_case(w1, w2, "sport"@);
    lemma_lower_is_case(w1, w2, "src_port"@);
    lemma_lower_is_case(w1, w2, "srcport"@);
    lemma_lower_is_case(w1, w2, "dport"@);
    lemma_lower_is_case(w1, w2, "dst_port"@);
    lemma_lower_is_case(w1, w2, "dstport"@);
    lemma_lower_is_case(w1, w2, "port"@);
    lemma_lower_is_case(w1, w2, "size"@);
    lemma_lower_is_case(w1, w2, "len"@);
}

proof fn lemma_word_case(t1: Seq<TokenV>, t2: Seq<TokenV>, pos: nat, w1: Seq<char>, w2: Seq<char>)
    requires
        tokens_case_eq(t1, t2),
        pos <= t1.len(),
        same_ignoring_case(w1, w2),
        word_spec(t1, pos, w1) is Ok,
    ensures
        word_spec(t2, pos, w2) == word_spec(t1, pos, w1),
{
    lemma_keywords_case(w1, w2);
    if pos < t1.len() {
        assert(token_case_eq(t1[pos as int], t2[pos as int]));
        if let TokenV::Word(a1) = t1[pos as int] {
            let a2 = t2[pos as int]->Word_0;
            if parse_ipv4(a1) is Some {
                lemma_ipv4_case(a1, a2);
            }
            if parse_unsigned(a1, 65535) is Some {
                lemma_unsigned_case(a1, a2, 65535);
            }
        }
    }
    lemma_size_op_case(t1, t2, pos);
    if let Ok((op, v1, p)) = size_op_spec(t1, pos) {
        let v2 = size_op_spec(t2, pos)->Ok_0.1;
        if parse_unsigned(v1, usize::MAX as int) is Some {
            lemma_unsigned_case(v1, v2, usize::MAX as int);
        }
    }
    if parse_ipv4(w1) is Some {
        lemma_ipv4_case(w1, w2);
    }
    if parse_unsigned(w1, 65535) is Some {
        lemma_unsigned_case(w1, w2, 65535);
    }
}

proof fn lemma_primary_case(t1: Seq<TokenV>, t2: Seq<TokenV>, pos: nat)
    requires
        tokens_case_eq(t1, t2),
        pos <= t1.len(),
        primary_spec(t1, pos) is Ok,
    ensures
        primary_spec(t2, pos) == primary_spec(t1, pos),
    decreases (t1.len() - pos) as nat, 0nat,
{
    if pos < t1.len() {
        assert(token_case_eq(t1[pos as int], t2[pos as int]));
        match t1[pos as int] {
            TokenV::LParen => {
                lemma_or_case(t1, t2, pos + 1);
                if let Ok((e, p)) = or_spec(t1, pos + 1) {
                    if p < t1.len() {
                        assert(token_case_eq(t1[p as int], t2[p as int]));
                    }
                }
            },
            TokenV::Word(w1) => {
                lemma_word_case(t1, t2, pos + 1, w1, t2[pos as int]->Word_0);
            },
            _ => {},
        }
    }
}

proof fn lemma_not_case(t1: Seq<TokenV>, t2: Seq<TokenV>, pos: nat)
    requires
        tokens_case_eq(t1, t2),
        pos <= t1.len(),
        not_spec(t1, pos) is Ok,
    ensures
        not_spec(t2, pos) == not_spec(t1, pos),
    decreases (t1.len() - pos) as nat, 1nat,
{
    if pos < t1.len() {
        assert(token_case_eq(t1[pos as int], t2[pos as int]));
    }
    if pos < t1.len() && t1[pos as int] is Not {
        lemma_not_case(t1, t2, pos + 1);
    } else {
        lemma_primary_case(t1, t2, pos);
    }
}

proof fn lemma_and_tail_case(t1: Seq<TokenV>, t2: Seq<TokenV>, left: FilterExpr, pos: nat)
    requires
        tokens_case_eq(t1, t2),
        pos <= t1.len(),
        and_tail_spec(t1, left, pos) is Ok,
    ensures
        and_tail_spec(t2, left, pos) == and_tail_spec(t1, left, pos),
    decreases (t1.len() - pos) as nat, 2nat,
{
    if pos < t1.len() {
        assert(token_case_eq(t1[pos as int], t2[pos as int]));
        let at = if t1[pos as int] is And {
            pos + 1
        } else {
            pos
        };
        if t1[pos as int] is And || starts_term(t1, pos) {
            if let Ok((r, p)) = not_spec(t1, at) {
                lemma_not_case(t1, t2, at);
                if pos < p <= t1.len() {
                    lemma_and_tail_case(t1, t2, FilterExpr::And(Box::new(left), Box::new(r)), p);
                }
            }
        }
    }
}

proof fn lemma_and_case(t1: Seq<TokenV>, t2: Seq<TokenV>, pos: nat)
    requires
        tokens_case_eq(t1, t2),
        pos <= t1.len(),
        and_spec(t1, pos) is Ok,
    ensures
        and_spec(t2, pos) == and_spec(t1, pos),
    decreases (t1.len() - pos) as nat, 3nat,
{
    lemma_not_case(t1, t2, pos);
    if let Ok((l, p)) = not_spec(t1, pos) {
        if pos < p <= t1.len() {
            lemma_and_tail_case(t1, t2, l, p);
        }
    }
}

proof fn lemma_or_tail_case(t1: Seq<TokenV>, t2: Seq<TokenV>, left: FilterExpr, pos: nat)
    requires
        tokens_case_eq(t1, t2),
        pos <= t1.len(),
        or_tail_spec(t1, left, pos) is Ok,
    ensures
        or_tail_spec(t2, left, pos) == or_tail_spec(t1, left, pos),
    decreases (t1.len() - pos) as nat, 4nat,
{
    if pos < t1.len() {
        assert(token_case_eq(t1[pos as int], t2[pos as int]));
        if t1[pos as int] is Or {
            lemma_and_case(t1, t2, pos + 1);
            if let Ok((r, p)) = and_spec(t1, pos + 1) {
                if pos < p <= t1.len() {
                    lemma_or_tail_case(t1, t2, FilterExpr::Or(Box::new(left), Box::new(r)), p);
                }
            }
        }
    }
}

proof fn lemma_or_case(t1: Seq<TokenV>, t2: Seq<TokenV>, pos: nat)
    requires
        tokens_case_eq(t1, t2),
        pos <= t1.len(),
        or_spec(t1, pos) is Ok,
    ensures
        or_spec(t2, pos) == or_spec(t1, pos),
    decreases (t1.len() - pos) as nat, 5nat,
{
    lemma_and_case(t1, t2, pos);
    if let Ok((l, p)) = and_spec(t1, pos) {
        if pos < p <= t1.len() {
            lemma_or_tail_case(t1, t2, l, p);
        }
    }
}

/// Text with no token at all is the filter that accepts everything.
proof fn lemma_no_tokens_any(x: Seq<char>)
    requires
        tokenize_spec(x).len() == 0,
    ensures
        parse_filter_spec(x) == Ok::<FilterExpr, Seq<char>>(FilterExpr::Any),
{
    lemma_tokenize_trim(x);
}

/// A filter parses the same with its ASCII letters in any case: wherever
/// `x` parses, text that differs from it only in the case of ASCII letters
/// parses to the same expression.
pub proof fn lemma_filter_case_insensitive(x: Seq<char>, y: Seq<char>)
    requires
        parse_filter_spec(x) is Ok,
        same_ignoring_case(x, y),
    ensures
        parse_filter_spec(y) == parse_filter_spec(x),
{
    lemma_tokenize_case(x, y);
    let t1 = tokenize_spec(x);
    let t2 = tokenize_spec(y);
    if t1.len() == 0 {
        lemma_no_tokens_any(x);
        lemma_no_tokens_any(y);
    } else {
        lemma_parse_filter_tokens(x);
        lemma_parse_filter_tokens(y);
        lemma_or_case(t1, t2, 0);
    }
}

/// `str::to_ascii_uppercase`: the ASCII lowercase letters made uppercase,
/// every other character kept.
pub open spec fn ascii_uppercase(s: Seq<char>) -> Seq<char> {
    Seq::new(
        s.len(),
        |i: int|
            if 0x61 <= (s[i] as u32) <= 0x7a {
                ((s[i] as u32) - 32) as char
            } else {
                s[i]
            },
    )
}

/// A filter that parses parses the same with its ASCII letters in
/// uppercase.
pub proof fn lemma_filter_uppercase(s: Seq<char>)
    requires
        parse_filter_spec(s) is Ok,
    ensures
        parse_filter_spec(ascii_uppercase(s)) == parse_filter_spec(s),
{
    let u = ascii_uppercase(s);
    assert forall|i: int| 0 <= i < s.len() implies ascii_case_eq(#[trigger] s[i], u[i]) by {
        let c = s[i];
        if 0x61 <= (c as u32) <= 0x7a {
            let d = ((c as u32) - 32) as char;
            assert(u[i] == d);
            assert((d as u32) == (c as u32) - 32);
        }
    }
    lemma_filter_case_insensitive(s, u);
}

} // verus!
