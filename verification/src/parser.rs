//! The filter language: a recursive-descent parser over tokens, its error
//! messages, and properties of its grammar.
use vstd::prelude::*;
use crate::addr::{parse_ipv4, Ipv4Addr};
use crate::filter::{FilterCondition, FilterExpr, SizeOp};
use crate::lexer::{
    lemma_nonblank_has_tokens, lemma_tokenize_and, lemma_tokenize_not, lemma_tokenize_split,
    lemma_tokenize_split_at_stop, lemma_tokenize_trim, lemma_tokens_not_blank, tokenize_chars,
    tokenize_spec, tokens_view, Token, TokenV,
};
use crate::text::{
    chars_eq_lit, chars_start_with, lower_is, lower_is_lit, parse_unsigned, parse_unsigned_chars,
    push_str, str_chars, string_from_chars, sub_chars, trim, trim_chars,
};

verus! {

broadcast use vstd::string::group_string_axioms;

/// What a parsing step gives: the expression and the position after it, or
/// the error message.
pub type Parsed = Result<(FilterExpr, nat), Seq<char>>;

// ---------------------------------------------------------------------------
// The grammar, as recursive descent over the token sequence `t`:
//
//   expr    := and ( `or` and )*
//   and     := not ( `and`? not )*        (adjacent terms are joined by `and`)
//   not     := `not` not | primary
//   primary := `(` expr `)` | word [argument]

/// How a token is shown in an error message: the name of its kind. A word
/// would show as `Word("...")` with its characters unescaped, but no error of
/// the parser shows a word (see `lemma_expr_followed_by_rparen`).
pub open spec fn token_debug(t: TokenV) -> Seq<char> {
    match t {
        TokenV::LParen => "LParen"@,
        TokenV::RParen => "RParen"@,
        TokenV::And => "And"@,
        TokenV::Or => "Or"@,
        TokenV::Not => "Not"@,
        TokenV::Word(w) => "Word(\""@ + w + "\")"@,
    }
}

/// The word at `pos`, or the error `missing` if there is none.
pub open spec fn expect_word_spec(t: Seq<TokenV>, pos: nat, missing: Seq<char>) -> Result<
    (Seq<char>, nat),
    Seq<char>,
> {
    if pos < t.len() {
        match t[pos as int] {
            TokenV::Word(w) => Ok((w, pos + 1)),
            _ => Err(missing),
        }
    } else {
        Err(missing)
    }
}

/// An address argument: the word at `pos`, which must be a dotted IPv4 address.
pub open spec fn ip_arg(t: Seq<TokenV>, pos: nat, missing: Seq<char>, after: Seq<char>) -> Result<
    (Ipv4Addr, nat),
    Seq<char>,
> {
    match expect_word_spec(t, pos, missing) {
        Err(m) => Err(m),
        Ok((s, p)) => match parse_ipv4(s) {
            Some(ip) => Ok((ip, p)),
            None => Err("Invalid IPv4 address '"@ + s + after),
        },
    }
}

/// A port argument: the word at `pos`, which must be a number that fits in a `u16`.
pub open spec fn port_arg(t: Seq<TokenV>, pos: nat, missing: Seq<char>, after: Seq<char>) -> Result<
    (u16, nat),
    Seq<char>,
> {
    match expect_word_spec(t, pos, missing) {
        Err(m) => Err(m),
        Ok((s, p)) => match parse_unsigned(s, 65535) {
            Some(n) => Ok((n as u16, p)),
            None => Err("Invalid port number '"@ + s + after),
        },
    }
}

/// After `op`, the number is the next word.
pub open spec fn size_then_word(t: Seq<TokenV>, pos: nat, op: SizeOp, missing: Seq<char>) -> Result<
    (SizeOp, Seq<char>, nat),
    Seq<char>,
> {
    match expect_word_spec(t, pos, missing) {
        Err(m) => Err(m),
        Ok((v, p)) => Ok((op, v, p)),
    }
}

/// The operator and number text of a `size` condition. The operator is a word
/// of its own, or stands in front of the number in the same word; a bare
/// number means `==`.
pub open spec fn size_op_spec(t: Seq<TokenV>, pos: nat) -> Result<(SizeOp, Seq<char>, nat), Seq<char>> {
    match expect_word_spec(t, pos, "Expected size operator or number after 'size'"@) {
        Err(m) => Err(m),
        Ok((w, p)) => if w == ">"@ {
            size_then_word(t, p, SizeOp::GreaterThan, "Expected number after 'size >'"@)
        } else if w == ">="@ {
            size_then_word(t, p, SizeOp::GreaterThanOrEqual, "Expected number after 'size >='"@)
        } else if w == "<"@ {
            size_then_word(t, p, SizeOp::LessThan, "Expected number after 'size <'"@)
        } else if w == "<="@ {
            size_then_word(t, p, SizeOp::LessThanOrEqual, "Expected number after 'size <='"@)
        } else if w == "=="@ || w == "="@ {
            size_then_word(t, p, SizeOp::Equal, "Expected number after 'size =='"@)
        } else if starts_with(w, ">="@) {
            Ok((SizeOp::GreaterThanOrEqual, w.subrange(2, w.len() as int), p))
        } else if starts_with(w, "<="@) {
            Ok((SizeOp::LessThanOrEqual, w.subrange(2, w.len() as int), p))
        } else if starts_with(w, ">"@) {
            Ok((SizeOp::GreaterThan, w.subrange(1, w.len() as int), p))
        } else if starts_with(w, "<"@) {
            Ok((SizeOp::LessThan, w.subrange(1, w.len() as int), p))
        } else if starts_with(w, "=="@) {
            Ok((SizeOp::Equal, w.subrange(2, w.len() as int), p))
        } else if starts_with(w, "="@) {
            Ok((SizeOp::Equal, w.subrange(1, w.len() as int), p))
        } else {
            Ok((SizeOp::Equal, w, p))
        },
    }
}

/// `w` begins with `prefix`.
pub open spec fn starts_with(w: Seq<char>, prefix: Seq<char>) -> bool {
    prefix.len() <= w.len() && w.subrange(0, prefix.len() as int) == prefix
}

/// A condition, with the position after it.
pub open spec fn cond(c: FilterCondition, p: nat) -> Parsed {
    Ok((FilterExpr::Match(c), p))
}

/// A primary that is the word `w`; `pos` is just after it.
pub open spec fn word_spec(t: Seq<TokenV>, pos: nat, w: Seq<char>) -> Parsed {
    if lower_is(w, "tcp"@) {
        cond(FilterCondition::Protocol(6), pos)
    } else if lower_is(w, "udp"@) {
        cond(FilterCondition::Protocol(17), pos)
    } else if lower_is(w, "icmp"@) {
        cond(FilterCondition::Protocol(1), pos)
    } else if lower_is(w, "src"@) || lower_is(w, "src_ip"@) || lower_is(w, "srcip"@) {
        match ip_arg(t, pos, "Expected IP address after 'src'"@, "' after 'src'"@) {
            Err(m) => Err(m),
            Ok((ip, p)) => cond(FilterCondition::SrcIp(ip), p),
        }
    } else if lower_is(w, "dst"@) || lower_is(w, "dst_ip"@) || lower_is(w, "dstip"@) {
        match ip_arg(t, pos, "Expected IP address after 'dst'"@, "' after 'dst'"@) {
            Err(m) => Err(m),
            Ok((ip, p)) => cond(FilterCondition::DstIp(ip), p),
        }
    } else if lower_is(w, "ip"@) || lower_is(w, "host"@) {
        match ip_arg(t, pos, "Expected IP address after 'ip'"@, "' after 'ip'"@) {
            Err(m) => Err(m),
            Ok((ip, p)) => cond(FilterCondition::Ip(ip), p),
        }
    } else if lower_is(w, "sport"@) || lower_is(w, "src_port"@) || lower_is(w, "srcport"@) {
        match port_arg(t, pos, "Expected port number after 'sport'"@, "' after 'sport'"@) {
            Err(m) => Err(m),
            Ok((n, p)) => cond(FilterCondition::SrcPort(n), p),
        }
    } else if lower_is(w, "dport"@) || lower_is(w, "dst_port"@) || lower_is(w, "dstport"@) {
        match port_arg(t, pos, "Expected port number after 'dport'"@, "' after 'dport'"@) {
            Err(m) => Err(m),
            Ok((n, p)) => cond(FilterCondition::DstPort(n), p),
        }
    } else if lower_is(w, "port"@) {
        match port_arg(t, pos, "Expected port number after 'port'"@, "' after 'port'"@) {
            Err(m) => Err(m),
            Ok((n, p)) => cond(FilterCondition::Port(n), p),
        }
    } else if lower_is(w, "size"@) || lower_is(w, "len"@) {
        match size_op_spec(t, pos) {
            Err(m) => Err(m),
            Ok((op, v, p)) => match parse_unsigned(v, usize::MAX as int) {
                Some(n) => cond(FilterCondition::PacketSize(op, n as usize), p),
                None => Err("Invalid packet size number '"@ + v + "'"@),
            },
        }
    } else {
        match parse_ipv4(w) {
            Some(ip) => cond(FilterCondition::Ip(ip), pos),
            None => match parse_unsigned(w, 65535) {
                Some(n) => cond(FilterCondition::Port(n as u16), pos),
                None => Err("Unknown filter token '"@ + w + "'"@),
            },
        }
    }
}

/// `primary` at `pos`.
pub open spec fn primary_spec(t: Seq<TokenV>, pos: nat) -> Parsed
    decreases (t.len() - pos) as nat, 0nat,
{
    if pos >= t.len() {
        Err("Unexpected end of filter expression"@)
    } else {
        match t[pos as int] {
            TokenV::LParen => match or_spec(t, pos + 1) {
                Err(m) => Err(m),
                Ok((e, p)) => if p < t.len() && t[p as int] is RParen {
                    Ok((e, p + 1))
                } else {
                    Err("Expected closing parenthesis ')'"@)
                },
            },
            TokenV::Word(w) => word_spec(t, pos + 1, w),
            tok => Err("Unexpected token '"@ + token_debug(tok) + "'"@),
        }
    }
}

/// `not` at `pos`.
pub open spec fn not_spec(t: Seq<TokenV>, pos: nat) -> Parsed
    decreases (t.len() - pos) as nat, 1nat,
{
    if pos < t.len() && t[pos as int] is Not {
        match not_spec(t, pos + 1) {
            Err(m) => Err(m),
            Ok((e, p)) => Ok((FilterExpr::Not(Box::new(e)), p)),
        }
    } else {
        primary_spec(t, pos)
    }
}

/// Whether a term can start with the token at `pos`.
pub open spec fn starts_term(t: Seq<TokenV>, pos: nat) -> bool {
    pos < t.len() && (t[pos as int] is LParen || t[pos as int] is Not || t[pos as int] is Word)
}

/// The rest of an `and` chain whose terms so far make `left`.
pub open spec fn and_tail_spec(t: Seq<TokenV>, left: FilterExpr, pos: nat) -> Parsed
    decreases (t.len() - pos) as nat, 2nat,
{
    if pos < t.len() && t[pos as int] is And {
        match not_spec(t, pos + 1) {
            Err(m) => Err(m),
            Ok((r, p)) => {
                let joined = FilterExpr::And(Box::new(left), Box::new(r));
                if pos < p <= t.len() {
                    and_tail_spec(t, joined, p)
                } else {
                    Ok((joined, p))
                }
            },
        }
    } else if starts_term(t, pos) {
        match not_spec(t, pos) {
            Err(m) => Err(m),
            Ok((r, p)) => {
                let joined = FilterExpr::And(Box::new(left), Box::new(r));
                if pos < p <= t.len() {
                    and_tail_spec(t, joined, p)
                } else {
                    Ok((joined, p))
                }
            },
        }
    } else {
        Ok((left, pos))
    }
}

/// `and` at `pos`.
pub open spec fn and_spec(t: Seq<TokenV>, pos: nat) -> Parsed
    decreases (t.len() - pos) as nat, 3nat,
{
    match not_spec(t, pos) {
        Err(m) => Err(m),
        Ok((l, p)) => if pos < p <= t.len() {
            and_tail_spec(t, l, p)
        } else {
            Ok((l, p))
        },
    }
}

/// The rest of an `or` chain whose terms so far make `left`.
pub open spec fn or_tail_spec(t: Seq<TokenV>, left: FilterExpr, pos: nat) -> Parsed
    decreases (t.len() - pos) as nat, 4nat,
{
    if pos < t.len() && t[pos as int] is Or {
        match and_spec(t, pos + 1) {
            Err(m) => Err(m),
            Ok((r, p)) => {
                let joined = FilterExpr::Or(Box::new(left), Box::new(r));
                if pos < p <= t.len() {
                    or_tail_spec(t, joined, p)
                } else {
                    Ok((joined, p))
                }
            },
        }
    } else {
        Ok((left, pos))
    }
}

/// `expr` at `pos`.
pub open spec fn or_spec(t: Seq<TokenV>, pos: nat) -> Parsed
    decreases (t.len() - pos) as nat, 5nat,
{
    match and_spec(t, pos) {
        Err(m) => Err(m),
        Ok((l, p)) => if pos < p <= t.len() {
            or_tail_spec(t, l, p)
        } else {
            Ok((l, p))
        },
    }
}

/// `parse_filter`: blank text is the filter that accepts everything; otherwise
/// the whole token sequence must be one expression.
pub open spec fn parse_filter_spec(s: Seq<char>) -> Result<FilterExpr, Seq<char>> {
    let trimmed = trim(s);
    if trimmed.len() == 0 {
        Ok(FilterExpr::Any)
    } else {
        let t = tokenize_spec(trimmed);
        if t.len() == 0 {
            Ok(FilterExpr::Any)
        } else {
            match or_spec(t, 0) {
                Err(m) => Err(m),
                Ok((e, p)) => if p < t.len() {
                    Err(
                        "Unexpected extra token '"@ + token_debug(t[p as int])
                            + "' in filter expression"@,
                    )
                } else {
                    Ok(e)
                },
            }
        }
    }
}

// ---------------------------------------------------------------------------
// Progress: every parsing step that succeeds stands at or after where it
// started, within the tokens; every term consumes at least one token.

/// `r` succeeded at a position in `lo..=hi`.
pub open spec fn ends_within<T>(r: Result<(T, nat), Seq<char>>, lo: int, hi: int) -> bool {
    r matches Ok((_, p)) ==> lo <= p <= hi
}

proof fn lemma_word_progress(t: Seq<TokenV>, pos: nat, w: Seq<char>)
    requires
        pos <= t.len(),
    ensures
        ends_within(word_spec(t, pos, w), pos as int, t.len() as int),
{
}

proof fn lemma_primary_progress(t: Seq<TokenV>, pos: nat)
    requires
        pos <= t.len(),
    ensures
        ends_within(primary_spec(t, pos), (pos + 1) as int, t.len() as int),
    decreases (t.len() - pos) as nat, 0nat,
{
    if pos < t.len() {
        match t[pos as int] {
            TokenV::LParen => {
                lemma_or_progress(t, pos + 1);
            },
            TokenV::Word(w) => {
                lemma_word_progress(t, pos + 1, w);
            },
            _ => {},
        }
    }
}

proof fn lemma_not_progress(t: Seq<TokenV>, pos: nat)
    requires
        pos <= t.len(),
    ensures
        ends_within(not_spec(t, pos), (pos + 1) as int, t.len() as int),
    decreases (t.len() - pos) as nat, 1nat,
{
    if pos < t.len() && t[pos as int] is Not {
        lemma_not_progress(t, pos + 1);
    } else {
        lemma_primary_progress(t, pos);
    }
}

proof fn lemma_and_tail_progress(t: Seq<TokenV>, left: FilterExpr, pos: nat)
    requires
        pos <= t.len(),
    ensures
        ends_within(and_tail_spec(t, left, pos), pos as int, t.len() as int),
    decreases (t.len() - pos) as nat, 2nat,
{
    if pos < t.len() && t[pos as int] is And {
        lemma_not_progress(t, pos + 1);
        if let Ok((r, p)) = not_spec(t, pos + 1) {
            lemma_and_tail_progress(t, FilterExpr::And(Box::new(left), Box::new(r)), p);
        }
    } else if starts_term(t, pos) {
        lemma_not_progress(t, pos);
        if let Ok((r, p)) = not_spec(t, pos) {
            lemma_and_tail_progress(t, FilterExpr::And(Box::new(left), Box::new(r)), p);
        }
    }
}

proof fn lemma_and_progress(t: Seq<TokenV>, pos: nat)
    requires
        pos <= t.len(),
    ensures
        ends_within(and_spec(t, pos), (pos + 1) as int, t.len() as int),
    decreases (t.len() - pos) as nat, 3nat,
{
    lemma_not_progress(t, pos);
    if let Ok((l, p)) = not_spec(t, pos) {
        lemma_and_tail_progress(t, l, p);
    }
}

proof fn lemma_or_tail_progress(t: Seq<TokenV>, left: FilterExpr, pos: nat)
    requires
        pos <= t.len(),
    ensures
        ends_within(or_tail_spec(t, left, pos), pos as int, t.len() as int),
    decreases (t.len() - pos) as nat, 4nat,
{
    if pos < t.len() && t[pos as int] is Or {
        lemma_and_progress(t, pos + 1);
        if let Ok((r, p)) = and_spec(t, pos + 1) {
            lemma_or_tail_progress(t, FilterExpr::Or(Box::new(left), Box::new(r)), p);
        }
    }
}

proof fn lemma_or_progress(t: Seq<TokenV>, pos: nat)
    requires
        pos <= t.len(),
    ensures
        ends_within(or_spec(t, pos), (pos + 1) as int, t.len() as int),
    decreases (t.len() - pos) as nat, 5nat,
{
    lemma_and_progress(t, pos);
    if let Ok((l, p)) = and_spec(t, pos) {
        lemma_or_tail_progress(t, l, p);
    }
}

// Where chains stop.

/// An `and` chain stops at the end, or at a token that neither joins it nor
/// starts a term: `)` or `or`.
pub open spec fn and_stops_at(t: Seq<TokenV>, p: nat) -> bool {
    p >= t.len() || t[p as int] is RParen || t[p as int] is Or
}

proof fn lemma_and_tail_stop(t: Seq<TokenV>, left: FilterExpr, pos: nat)
    requires
        pos <= t.len(),
    ensures
        and_tail_spec(t, left, pos) matches Ok((_, p)) ==> and_stops_at(t, p),
    decreases (t.len() - pos) as nat,
{
    if pos < t.len() && t[pos as int] is And {
        lemma_not_progress(t, pos + 1);
        if let Ok((r, p)) = not_spec(t, pos + 1) {
            lemma_and_tail_stop(t, FilterExpr::And(Box::new(left), Box::new(r)), p);
        }
    } else if starts_term(t, pos) {
        lemma_not_progress(t, pos);
        if let Ok((r, p)) = not_spec(t, pos) {
            lemma_and_tail_stop(t, FilterExpr::And(Box::new(left), Box::new(r)), p);
        }
    }
}

proof fn lemma_and_stop(t: Seq<TokenV>, pos: nat)
    requires
        pos <= t.len(),
    ensures
        and_spec(t, pos) matches Ok((_, p)) ==> and_stops_at(t, p),
{
    lemma_not_progress(t, pos);
    if let Ok((l, p)) = not_spec(t, pos) {
        lemma_and_tail_stop(t, l, p);
    }
}

proof fn lemma_or_tail_stop(t: Seq<TokenV>, left: FilterExpr, pos: nat)
    requires
        pos <= t.len(),
        and_stops_at(t, pos),
    ensures
        or_tail_spec(t, left, pos) matches Ok((_, p)) ==> p >= t.len() || t[p as int] is RParen,
    decreases (t.len() - pos) as nat,
{
    if pos < t.len() && t[pos as int] is Or {
        lemma_and_progress(t, pos + 1);
        lemma_and_stop(t, pos + 1);
        if let Ok((r, p)) = and_spec(t, pos + 1) {
            lemma_or_tail_stop(t, FilterExpr::Or(Box::new(left), Box::new(r)), p);
        }
    }
}

/// A complete expression is followed by nothing, or by `)`: so the only
/// token that `parse_filter` can find left over is a closing parenthesis.
pub proof fn lemma_expr_followed_by_rparen(t: Seq<TokenV>, pos: nat)
    requires
        pos <= t.len(),
    ensures
        or_spec(t, pos) matches Ok((_, p)) ==> p >= t.len() || t[p as int] is RParen,
{
    lemma_and_progress(t, pos);
    lemma_and_stop(t, pos);
    if let Ok((l, p)) = and_spec(t, pos) {
        lemma_or_tail_stop(t, l, p);
    }
}

// ---------------------------------------------------------------------------
// Parsing looks only forward: from two positions with the same tokens ahead,
// every step gives the same result, ending the same distance further on.

/// The tokens from `p1` on in `t1` are those from `p2` on in `t2`.
pub open spec fn same_ahead(t1: Seq<TokenV>, p1: nat, t2: Seq<TokenV>, p2: nat) -> bool {
    &&& p1 <= t1.len()
    &&& p2 <= t2.len()
    &&& t1.subrange(p1 as int, t1.len() as int) == t2.subrange(p2 as int, t2.len() as int)
}

/// Two results that agree, the second standing `p1 - p2` tokens before the first.
pub open spec fn agree_shifted<T>(r1: Result<(T, nat), Seq<char>>, r2: Result<(T, nat), Seq<char>>, p1: nat, p2: nat) -> bool {
    match r1 {
        Ok((e1, q1)) => match r2 {
            Ok((e2, q2)) => e1 == e2 && q1 - p1 == q2 - p2,
            Err(_) => false,
        },
        Err(m1) => match r2 {
            Ok(_) => false,
            Err(m2) => m1 == m2,
        },
    }
}

proof fn lemma_same_ahead_step(t1: Seq<TokenV>, p1: nat, t2: Seq<TokenV>, p2: nat, k: nat)
    requires
        same_ahead(t1, p1, t2, p2),
        p1 + k <= t1.len(),
    ensures
        same_ahead(t1, p1 + k, t2, p2 + k),
        p1 + k < t1.len() ==> t1[(p1 + k) as int] == t2[(p2 + k) as int],
        t1.len() - p1 == t2.len() - p2,
{
    let s1 = t1.subrange(p1 as int, t1.len() as int);
    let s2 = t2.subrange(p2 as int, t2.len() as int);
    assert(s1.len() == s2.len());
    if p1 + k < t1.len() {
        assert(s1[k as int] == s2[k as int]);
    }
    assert(t1.subrange((p1 + k) as int, t1.len() as int) =~= s1.subrange(k as int, s1.len() as int));
    assert(t2.subrange((p2 + k) as int, t2.len() as int) =~= s2.subrange(k as int, s2.len() as int));
}

proof fn lemma_word_ahead(t1: Seq<TokenV>, p1: nat, t2: Seq<TokenV>, p2: nat, w: Seq<char>)
    requires
        same_ahead(t1, p1, t2, p2),
    ensures
        agree_shifted(word_spec(t1, p1, w), word_spec(t2, p2, w), p1, p2),
{
    lemma_same_ahead_step(t1, p1, t2, p2, 0);
    if p1 < t1.len() {
        lemma_same_ahead_step(t1, p1, t2, p2, 1);
        if p1 + 1 < t1.len() {
            lemma_same_ahead_step(t1, p1, t2, p2, 2);
        }
    }
}

proof fn lemma_primary_ahead(t1: Seq<TokenV>, p1: nat, t2: Seq<TokenV>, p2: nat)
    requires
        same_ahead(t1, p1, t2, p2),
    ensures
        agree_shifted(primary_spec(t1, p1), primary_spec(t2, p2), p1, p2),
    decreases (t1.len() - p1) as nat, 0nat,
{
    lemma_same_ahead_step(t1, p1, t2, p2, 0);
    if p1 < t1.len() {
        lemma_same_ahead_step(t1, p1, t2, p2, 1);
        match t1[p1 as int] {
            TokenV::LParen => {
                lemma_or_ahead(t1, p1 + 1, t2, p2 + 1);
                lemma_or_progress(t1, p1 + 1);
                if let Ok((e, q)) = or_spec(t1, p1 + 1) {
                    lemma_same_ahead_step(t1, p1, t2, p2, (q - p1) as nat);
                }
            },
            TokenV::Word(w) => {
                lemma_word_ahead(t1, p1 + 1, t2, p2 + 1, w);
            },
            _ => {},
        }
    }
}

proof fn lemma_not_ahead(t1: Seq<TokenV>, p1: nat, t2: Seq<TokenV>, p2: nat)
    requires
        same_ahead(t1, p1, t2, p2),
    ensures
        agree_shifted(not_spec(t1, p1), not_spec(t2, p2), p1, p2),
    decreases (t1.len() - p1) as nat, 1nat,
{
    lemma_same_ahead_step(t1, p1, t2, p2, 0);
    if p1 < t1.len() && t1[p1 as int] is Not {
        lemma_same_ahead_step(t1, p1, t2, p2, 1);
        lemma_not_ahead(t1, p1 + 1, t2, p2 + 1);
    } else {
        lemma_primary_ahead(t1, p1, t2, p2);
    }
}

proof fn lemma_and_tail_ahead(t1: Seq<TokenV>, p1: nat, t2: Seq<TokenV>, p2: nat, left: FilterExpr)
    requires
        same_ahead(t1, p1, t2, p2),
    ensures
        agree_shifted(and_tail_spec(t1, left, p1), and_tail_spec(t2, left, p2), p1, p2),
    decreases (t1.len() - p1) as nat, 2nat,
{
    lemma_same_ahead_step(t1, p1, t2, p2, 0);
    if p1 < t1.len() && t1[p1 as int] is And {
        lemma_same_ahead_step(t1, p1, t2, p2, 1);
        lemma_not_ahead(t1, p1 + 1, t2, p2 + 1);
        lemma_not_progress(t1, p1 + 1);
        lemma_not_progress(t2, p2 + 1);
        if let Ok((r, q)) = not_spec(t1, p1 + 1) {
            lemma_same_ahead_step(t1, p1, t2, p2, (q - p1) as nat);
            lemma_and_tail_ahead(t1, q, t2, (q - p1 + p2) as nat, FilterExpr::And(Box::new(left), Box::new(r)));
        }
    } else if starts_term(t1, p1) {
        lemma_not_ahead(t1, p1, t2, p2);
        lemma_not_progress(t1, p1);
        lemma_not_progress(t2, p2);
        if let Ok((r, q)) = not_spec(t1, p1) {
            lemma_same_ahead_step(t1, p1, t2, p2, (q - p1) as nat);
            lemma_and_tail_ahead(t1, q, t2, (q - p1 + p2) as nat, FilterExpr::And(Box::new(left), Box::new(r)));
        }
    }
}

proof fn lemma_and_ahead(t1: Seq<TokenV>, p1: nat, t2: Seq<TokenV>, p2: nat)
    requires
        same_ahead(t1, p1, t2, p2),
    ensures
        agree_shifted(and_spec(t1, p1), and_spec(t2, p2), p1, p2),
    decreases (t1.len() - p1) as nat, 3nat,
{
    lemma_same_ahead_step(t1, p1, t2, p2, 0);
    lemma_not_ahead(t1, p1, t2, p2);
    lemma_not_progress(t1, p1);
    lemma_not_progress(t2, p2);
    if let Ok((l, q)) = not_spec(t1, p1) {
        lemma_same_ahead_step(t1, p1, t2, p2, (q - p1) as nat);
        lemma_and_tail_ahead(t1, q, t2, (q - p1 + p2) as nat, l);
    }
}

proof fn lemma_or_tail_ahead(t1: Seq<TokenV>, p1: nat, t2: Seq<TokenV>, p2: nat, left: FilterExpr)
    requires
        same_ahead(t1, p1, t2, p2),
    ensures
        agree_shifted(or_tail_spec(t1, left, p1), or_tail_spec(t2, left, p2), p1, p2),
    decreases (t1.len() - p1) as nat, 4nat,
{
    lemma_same_ahead_step(t1, p1, t2, p2, 0);
    if p1 < t1.len() && t1[p1 as int] is Or {
        lemma_same_ahead_step(t1, p1, t2, p2, 1);
        lemma_and_ahead(t1, p1 + 1, t2, p2 + 1);
        lemma_and_progress(t1, p1 + 1);
        lemma_and_progress(t2, p2 + 1);
        if let Ok((r, q)) = and_spec(t1, p1 + 1) {
            lemma_same_ahead_step(t1, p1, t2, p2, (q - p1) as nat);
            lemma_or_tail_ahead(t1, q, t2, (q - p1 + p2) as nat, FilterExpr::Or(Box::new(left), Box::new(r)));
        }
    }
}

proof fn lemma_or_ahead(t1: Seq<TokenV>, p1: nat, t2: Seq<TokenV>, p2: nat)
    requires
        same_ahead(t1, p1, t2, p2),
    ensures
        agree_shifted(or_spec(t1, p1), or_spec(t2, p2), p1, p2),
    decreases (t1.len() - p1) as nat, 5nat,
{
    lemma_same_ahead_step(t1, p1, t2, p2, 0);
    lemma_and_ahead(t1, p1, t2, p2);
    lemma_and_progress(t1, p1);
    lemma_and_progress(t2, p2);
    if let Ok((l, q)) = and_spec(t1, p1) {
        lemma_same_ahead_step(t1, p1, t2, p2, (q - p1) as nat);
        lemma_or_tail_ahead(t1, q, t2, (q - p1 + p2) as nat, l);
    }
}

/// Inside an `and` chain, an `and` token in front of a term may be left out:
/// the chain parses to the same expression, or fails with the same message,
/// with or without it (ending one token earlier without it). This is what
/// lets `tcp port 443` mean `tcp and port 443`.
pub proof fn lemma_implicit_and(t: Seq<TokenV>, left: FilterExpr, pos: nat)
    requires
        pos + 1 < t.len(),
        t[pos as int] is And,
        starts_term(t, pos + 1),
    ensures
        agree_shifted(and_tail_spec(t, left, pos), and_tail_spec(t.remove(pos as int), left, pos), pos + 1, pos),
{
    let u = t.remove(pos as int);
    assert(t.subrange((pos + 1) as int, t.len() as int) =~= u.subrange(pos as int, u.len() as int));
    assert(same_ahead(t, pos + 1, u, pos));
    lemma_same_ahead_step(t, pos + 1, u, pos, 0);
    assert(starts_term(u, pos));
    lemma_not_ahead(t, pos + 1, u, pos);
    lemma_not_progress(t, pos + 1);
    lemma_not_progress(u, pos);
    if let Ok((r, q)) = not_spec(t, pos + 1) {
        lemma_same_ahead_step(t, pos + 1, u, pos, (q - pos - 1) as nat);
        lemma_and_tail_ahead(t, q, u, (q - 1) as nat, FilterExpr::And(Box::new(left), Box::new(r)));
    }
}

// ---------------------------------------------------------------------------

/// An exec result agrees with a spec result when both fail with the same
/// message, or both succeed with the same expression, `p` being where the
/// parser stands afterwards.
pub open spec fn agrees(r: Result<FilterExpr, String>, s: Parsed, p: nat) -> bool {
    match r {
        Ok(e) => s == Parsed::Ok((e, p)),
        Err(m) => s == Parsed::Err(m@),
    }
}

/// A recursive-descent parser over a token sequence.
pub struct Parser {
    pub tokens: Vec<Token>,
    pub pos: usize,
}

/// How a token is shown in an error message.
pub fn token_debug_exec(t: &Token) -> (s: String)
    ensures
        s@ == token_debug(t@),
{
    match t {
        Token::LParen => String::from_str("LParen"),
        Token::RParen => String::from_str("RParen"),
        Token::And => String::from_str("And"),
        Token::Or => String::from_str("Or"),
        Token::Not => String::from_str("Not"),
        Token::Word(w) => {
            let mut s = String::from_str("Word(\"");
            push_str(&mut s, w.as_str());
            push_str(&mut s, "\")");
            s
        },
    }
}

/// `a`, then `b`, then `c`.
fn concat3(a: &str, b: &str, c: &str) -> (s: String)
    ensures
        s@ == a@ + b@ + c@,
{
    let mut s = String::from_str(a);
    push_str(&mut s, b);
    push_str(&mut s, c);
    s
}

impl Parser {
    /// The tokens by their views.
    pub open spec fn toks(&self) -> Seq<TokenV> {
        tokens_view(self.tokens@)
    }

    /// A parser at the first token.
    pub fn new(tokens: Vec<Token>) -> (p: Self)
        ensures
            p.tokens@ == tokens@,
            p.pos == 0,
    {
        Parser { tokens, pos: 0 }
    }

    /// The token at the current position, if any.
    pub fn peek(&self) -> (r: Option<&Token>)
        ensures
            self.pos < self.tokens@.len() ==> r == Some(&self.tokens@[self.pos as int]),
            self.pos >= self.tokens@.len() ==> r is None,
    {
        if self.pos < self.tokens.len() {
            Some(&self.tokens[self.pos])
        } else {
            None
        }
    }

    /// Takes the token at the current position, if any, and moves past it.
    pub fn next_token(&mut self) -> (r: Option<Token>)
        ensures
            final(self).tokens@ == old(self).tokens@,
            old(self).pos < old(self).tokens@.len() ==> r is Some && r->0@ == old(self).toks()[old(
                self,
            ).pos as int] && final(self).pos == old(self).pos + 1,
            old(self).pos >= old(self).tokens@.len() ==> r is None && final(self).pos == old(
                self,
            ).pos,
    {
        if self.pos < self.tokens.len() {
            let tok = self.tokens[self.pos].clone();
            self.pos += 1;
            Some(tok)
        } else {
            None
        }
    }

    /// Whether a term can start at the current position.
    pub fn is_primary_start(&self) -> (r: bool)
        ensures
            r == starts_term(self.toks(), self.pos as nat),
    {
        match self.peek() {
            Some(Token::LParen) | Some(Token::Not) | Some(Token::Word(_)) => true,
            _ => false,
        }
    }

    /// Takes the word at the current position; fails with `err_msg` if the next
    /// token is not a word.
    pub fn expect_word(&mut self, err_msg: &str) -> (r: Result<String, String>)
        requires
            old(self).pos <= old(self).tokens@.len(),
        ensures
            final(self).tokens@ == old(self).tokens@,
            old(self).pos <= final(self).pos <= final(self).tokens@.len(),
            final(self).pos == (if old(self).pos < old(self).tokens@.len() {
                old(self).pos + 1
            } else {
                old(self).pos as int
            }),
            match r {
                Ok(w) => expect_word_spec(old(self).toks(), old(self).pos as nat, err_msg@) == Ok::<
                    (Seq<char>, nat),
                    Seq<char>,
                >((w@, final(self).pos as nat)),
                Err(m) => expect_word_spec(old(self).toks(), old(self).pos as nat, err_msg@)
                    == Err::<(Seq<char>, nat), Seq<char>>(m@),
            },
    {
        match self.next_token() {
            Some(Token::Word(w)) => Ok(w),
            _ => Err(String::from_str(err_msg)),
        }
    }

    /// Reads the operator and the number text of a `size` condition.
    pub fn parse_size_op_and_val(&mut self) -> (r: Result<(SizeOp, String), String>)
        requires
            old(self).pos <= old(self).tokens@.len(),
        ensures
            final(self).tokens@ == old(self).tokens@,
            old(self).pos <= final(self).pos <= final(self).tokens@.len(),
            match r {
                Ok((op, v)) => size_op_spec(old(self).toks(), old(self).pos as nat) == Ok::<
                    (SizeOp, Seq<char>, nat),
                    Seq<char>,
                >((op, v@, final(self).pos as nat)),
                Err(m) => size_op_spec(old(self).toks(), old(self).pos as nat) == Err::<
                    (SizeOp, Seq<char>, nat),
                    Seq<char>,
                >(m@),
            },
    {
        let first_word = match self.expect_word("Expected size operator or number after 'size'") {
            Ok(w) => w,
            Err(m) => {
                return Err(m);
            },
        };
        let fw = str_chars(first_word.as_str());
        let f = fw.as_slice();
        proof {
            reveal_strlit(">=");
            reveal_strlit("<=");
            reveal_strlit(">");
            reveal_strlit("<");
            reveal_strlit("==");
            reveal_strlit("=");
        }
        if chars_eq_lit(f, ">") {
            match self.expect_word("Expected number after 'size >'") {
                Ok(v) => Ok((SizeOp::GreaterThan, v)),
                Err(m) => Err(m),
            }
        } else if chars_eq_lit(f, ">=") {
            match self.expect_word("Expected number after 'size >='") {
                Ok(v) => Ok((SizeOp::GreaterThanOrEqual, v)),
                Err(m) => Err(m),
            }
        } else if chars_eq_lit(f, "<") {
            match self.expect_word("Expected number after 'size <'") {
                Ok(v) => Ok((SizeOp::LessThan, v)),
                Err(m) => Err(m),
            }
        } else if chars_eq_lit(f, "<=") {
            match self.expect_word("Expected number after 'size <='") {
                Ok(v) => Ok((SizeOp::LessThanOrEqual, v)),
                Err(m) => Err(m),
            }
        } else if chars_eq_lit(f, "==") || chars_eq_lit(f, "=") {
            match self.expect_word("Expected number after 'size =='") {
                Ok(v) => Ok((SizeOp::Equal, v)),
                Err(m) => Err(m),
            }
        } else if chars_start_with(f, ">=") {
            Ok((SizeOp::GreaterThanOrEqual, string_from_chars(sub_chars(f, 2, f.len()).as_slice())))
        } else if chars_start_with(f, "<=") {
            Ok((SizeOp::LessThanOrEqual, string_from_chars(sub_chars(f, 2, f.len()).as_slice())))
        } else if chars_start_with(f, ">") {
            Ok((SizeOp::GreaterThan, string_from_chars(sub_chars(f, 1, f.len()).as_slice())))
        } else if chars_start_with(f, "<") {
            Ok((SizeOp::LessThan, string_from_chars(sub_chars(f, 1, f.len()).as_slice())))
        } else if chars_start_with(f, "==") {
            Ok((SizeOp::Equal, string_from_chars(sub_chars(f, 2, f.len()).as_slice())))
        } else if chars_start_with(f, "=") {
            Ok((SizeOp::Equal, string_from_chars(sub_chars(f, 1, f.len()).as_slice())))
        } else {
            Ok((SizeOp::Equal, first_word))
        }
    }

    /// Reads an address argument.
    fn ip_arg_exec(&mut self, missing: &str, after: &str) -> (r: Result<Ipv4Addr, String>)
        requires
            old(self).pos <= old(self).tokens@.len(),
        ensures
            final(self).tokens@ == old(self).tokens@,
            old(self).pos <= final(self).pos <= final(self).tokens@.len(),
            match r {
                Ok(ip) => ip_arg(old(self).toks(), old(self).pos as nat, missing@, after@) == Ok::<
                    (Ipv4Addr, nat),
                    Seq<char>,
                >((ip, final(self).pos as nat)),
                Err(m) => ip_arg(old(self).toks(), old(self).pos as nat, missing@, after@) == Err::<
                    (Ipv4Addr, nat),
                    Seq<char>,
                >(m@),
            },
    {
        let ip_str = match self.expect_word(missing) {
            Ok(w) => w,
            Err(m) => {
                return Err(m);
            },
        };
        match Ipv4Addr::parse(ip_str.as_str()) {
            Some(ip) => Ok(ip),
            None => Err(concat3("Invalid IPv4 address '", ip_str.as_str(), after)),
        }
    }

    /// Reads a port argument.
    fn port_arg_exec(&mut self, missing: &str, after: &str) -> (r: Result<u16, String>)
        requires
            old(self).pos <= old(self).tokens@.len(),
        ensures
            final(self).tokens@ == old(self).tokens@,
            old(self).pos <= final(self).pos <= final(self).tokens@.len(),
            match r {
                Ok(n) => port_arg(old(self).toks(), old(self).pos as nat, missing@, after@) == Ok::<
                    (u16, nat),
                    Seq<char>,
                >((n, final(self).pos as nat)),
                Err(m) => port_arg(old(self).toks(), old(self).pos as nat, missing@, after@) == Err::<
                    (u16, nat),
                    Seq<char>,
                >(m@),
            },
    {
        let p_str = match self.expect_word(missing) {
            Ok(w) => w,
            Err(m) => {
                return Err(m);
            },
        };
        let chars = str_chars(p_str.as_str());
        match parse_unsigned_chars(chars.as_slice(), 65535) {
            Some(n) => Ok(n as u16),
            None => Err(concat3("Invalid port number '", p_str.as_str(), after)),
        }
    }

    /// A primary that is the word `w`, just taken.
    fn parse_word(&mut self, w: String) -> (r: Result<FilterExpr, String>)
        requires
            old(self).pos <= old(self).tokens@.len(),
        ensures
            final(self).tokens@ == old(self).tokens@,
            old(self).pos <= final(self).pos <= final(self).tokens@.len(),
            agrees(r, word_spec(old(self).toks(), old(self).pos as nat, w@), final(self).pos as nat),
    {
        let wc = str_chars(w.as_str());
        let lw = wc.as_slice();
        if lower_is_lit(lw, "tcp") {
            Ok(FilterExpr::Match(FilterCondition::Protocol(6)))
        } else if lower_is_lit(lw, "udp") {
            Ok(FilterExpr::Match(FilterCondition::Protocol(17)))
        } else if lower_is_lit(lw, "icmp") {
            Ok(FilterExpr::Match(FilterCondition::Protocol(1)))
        } else if lower_is_lit(lw, "src") || lower_is_lit(lw, "src_ip") || lower_is_lit(lw, "srcip") {
            match self.ip_arg_exec("Expected IP address after 'src'", "' after 'src'") {
                Ok(ip) => Ok(FilterExpr::Match(FilterCondition::SrcIp(ip))),
                Err(m) => Err(m),
            }
        } else if lower_is_lit(lw, "dst") || lower_is_lit(lw, "dst_ip") || lower_is_lit(lw, "dstip") {
            match self.ip_arg_exec("Expected IP address after 'dst'", "' after 'dst'") {
                Ok(ip) => Ok(FilterExpr::Match(FilterCondition::DstIp(ip))),
                Err(m) => Err(m),
            }
        } else if lower_is_lit(lw, "ip") || lower_is_lit(lw, "host") {
            match self.ip_arg_exec("Expected IP address after 'ip'", "' after 'ip'") {
                Ok(ip) => Ok(FilterExpr::Match(FilterCondition::Ip(ip))),
                Err(m) => Err(m),
            }
        } else if lower_is_lit(lw, "sport") || lower_is_lit(lw, "src_port") || lower_is_lit(lw, "srcport") {
            match self.port_arg_exec("Expected port number after 'sport'", "' after 'sport'") {
                Ok(n) => Ok(FilterExpr::Match(FilterCondition::SrcPort(n))),
                Err(m) => Err(m),
            }
        } else if lower_is_lit(lw, "dport") || lower_is_lit(lw, "dst_port") || lower_is_lit(lw, "dstport") {
            match self.port_arg_exec("Expected port number after 'dport'", "' after 'dport'") {
                Ok(n) => Ok(FilterExpr::Match(FilterCondition::DstPort(n))),
                Err(m) => Err(m),
            }
        } else if lower_is_lit(lw, "port") {
            match self.port_arg_exec("Expected port number after 'port'", "' after 'port'") {
                Ok(n) => Ok(FilterExpr::Match(FilterCondition::Port(n))),
                Err(m) => Err(m),
            }
        } else if lower_is_lit(lw, "size") || lower_is_lit(lw, "len") {
            let (op, sz_str) = match self.parse_size_op_and_val() {
                Ok(x) => x,
                Err(m) => {
                    return Err(m);
                },
            };
            let chars = str_chars(sz_str.as_str());
            match parse_unsigned_chars(chars.as_slice(), usize::MAX as u64) {
                Some(n) => Ok(FilterExpr::Match(FilterCondition::PacketSize(op, n as usize))),
                None => Err(concat3("Invalid packet size number '", sz_str.as_str(), "'")),
            }
        } else {
            match Ipv4Addr::parse_chars(lw) {
                Some(ip) => Ok(FilterExpr::Match(FilterCondition::Ip(ip))),
                None => match parse_unsigned_chars(lw, 65535) {
                    Some(n) => Ok(FilterExpr::Match(FilterCondition::Port(n as u16))),
                    None => Err(concat3("Unknown filter token '", w.as_str(), "'")),
                },
            }
        }
    }

    /// `expr` at the current position.
    pub fn parse_expr(&mut self) -> (r: Result<FilterExpr, String>)
        requires
            old(self).pos <= old(self).tokens@.len(),
        ensures
            final(self).tokens@ == old(self).tokens@,
            old(self).pos <= final(self).pos <= final(self).tokens@.len(),
            r is Ok ==> old(self).pos < final(self).pos,
            agrees(r, or_spec(old(self).toks(), old(self).pos as nat), final(self).pos as nat),
        decreases old(self).tokens@.len() - old(self).pos, 6nat,
    {
        self.parse_or()
    }

    /// `and` terms separated by `or`, grouped to the left.
    pub fn parse_or(&mut self) -> (r: Result<FilterExpr, String>)
        requires
            old(self).pos <= old(self).tokens@.len(),
        ensures
            final(self).tokens@ == old(self).tokens@,
            old(self).pos <= final(self).pos <= final(self).tokens@.len(),
            r is Ok ==> old(self).pos < final(self).pos,
            agrees(r, or_spec(old(self).toks(), old(self).pos as nat), final(self).pos as nat),
        decreases old(self).tokens@.len() - old(self).pos, 5nat,
    {
        let ghost tokens0 = self.tokens@;
        let ghost t = self.toks();
        let ghost pos0 = self.pos as nat;
        let mut left = match self.parse_and() {
            Ok(e) => e,
            Err(m) => {
                return Err(m);
            },
        };
        loop
            invariant
                self.tokens@ == tokens0,
                old(self).tokens@ == tokens0,
                old(self).pos == pos0,
                t == tokens_view(tokens0),
                pos0 < self.pos <= self.tokens@.len(),
                or_tail_spec(t, left, self.pos as nat) == or_spec(t, pos0),
            decreases self.tokens@.len() - self.pos,
        {
            let is_or = match self.peek() {
                Some(Token::Or) => true,
                _ => false,
            };
            if !is_or {
                return Ok(left);
            }
            self.next_token();
            let right = match self.parse_and() {
                Ok(e) => e,
                Err(m) => {
                    return Err(m);
                },
            };
            left = FilterExpr::Or(Box::new(left), Box::new(right));
        }
    }

    /// `not` terms joined by `and`, or by nothing at all, grouped to the left.
    pub fn parse_and(&mut self) -> (r: Result<FilterExpr, String>)
        requires
            old(self).pos <= old(self).tokens@.len(),
        ensures
            final(self).tokens@ == old(self).tokens@,
            old(self).pos <= final(self).pos <= final(self).tokens@.len(),
            r is Ok ==> old(self).pos < final(self).pos,
            agrees(r, and_spec(old(self).toks(), old(self).pos as nat), final(self).pos as nat),
        decreases old(self).tokens@.len() - old(self).pos, 3nat,
    {
        let ghost tokens0 = self.tokens@;
        let ghost t = self.toks();
        let ghost pos0 = self.pos as nat;
        let mut left = match self.parse_not() {
            Ok(e) => e,
            Err(m) => {
                return Err(m);
            },
        };
        loop
            invariant
                self.tokens@ == tokens0,
                old(self).tokens@ == tokens0,
                old(self).pos == pos0,
                t == tokens_view(tokens0),
                pos0 < self.pos <= self.tokens@.len(),
                and_tail_spec(t, left, self.pos as nat) == and_spec(t, pos0),
            decreases self.tokens@.len() - self.pos,
        {
            let is_and = match self.peek() {
                Some(Token::And) => true,
                _ => false,
            };
            if is_and {
                self.next_token();
                let right = match self.parse_not() {
                    Ok(e) => e,
                    Err(m) => {
                        return Err(m);
                    },
                };
                left = FilterExpr::And(Box::new(left), Box::new(right));
            } else if self.is_primary_start() {
                let right = match self.parse_not() {
                    Ok(e) => e,
                    Err(m) => {
                        return Err(m);
                    },
                };
                left = FilterExpr::And(Box::new(left), Box::new(right));
            } else {
                return Ok(left);
            }
        }
    }

    /// Any number of `not` in front of a primary.
    pub fn parse_not(&mut self) -> (r: Result<FilterExpr, String>)
        requires
            old(self).pos <= old(self).tokens@.len(),
        ensures
            final(self).tokens@ == old(self).tokens@,
            old(self).pos <= final(self).pos <= final(self).tokens@.len(),
            r is Ok ==> old(self).pos < final(self).pos,
            agrees(r, not_spec(old(self).toks(), old(self).pos as nat), final(self).pos as nat),
        decreases old(self).tokens@.len() - old(self).pos, 1nat,
    {
        let is_not = match self.peek() {
            Some(Token::Not) => true,
            _ => false,
        };
        if is_not {
            self.next_token();
            match self.parse_not() {
                Ok(expr) => Ok(FilterExpr::Not(Box::new(expr))),
                Err(m) => Err(m),
            }
        } else {
            self.parse_primary()
        }
    }

    /// A parenthesized expression, or a condition word with its argument.
    pub fn parse_primary(&mut self) -> (r: Result<FilterExpr, String>)
        requires
            old(self).pos <= old(self).tokens@.len(),
        ensures
            final(self).tokens@ == old(self).tokens@,
            old(self).pos <= final(self).pos <= final(self).tokens@.len(),
            r is Ok ==> old(self).pos < final(self).pos,
            agrees(r, primary_spec(old(self).toks(), old(self).pos as nat), final(self).pos as nat),
        decreases old(self).tokens@.len() - old(self).pos, 0nat,
    {
        match self.next_token() {
            Some(Token::LParen) => {
                let expr = match self.parse_expr() {
                    Ok(e) => e,
                    Err(m) => {
                        return Err(m);
                    },
                };
                match self.next_token() {
                    Some(Token::RParen) => Ok(expr),
                    _ => Err(String::from_str("Expected closing parenthesis ')'")),
                }
            },
            Some(Token::Word(w)) => self.parse_word(w),
            Some(tok) => Err(concat3("Unexpected token '", token_debug_exec(&tok).as_str(), "'")),
            None => Err(String::from_str("Unexpected end of filter expression")),
        }
    }
}

/// Parses a filter expression. Blank text gives the filter that accepts every
/// packet.
pub fn parse_filter(input: &str) -> (r: Result<FilterExpr, String>)
    ensures
        match r {
            Ok(e) => parse_filter_spec(input@) == Ok::<FilterExpr, Seq<char>>(e),
            Err(m) => parse_filter_spec(input@) == Err::<FilterExpr, Seq<char>>(m@),
        },
{
    let chars = str_chars(input);
    let trimmed = trim_chars(chars.as_slice());
    if trimmed.len() == 0 {
        return Ok(FilterExpr::Any);
    }
    let tokens = tokenize_chars(trimmed.as_slice());
    if tokens.len() == 0 {
        return Ok(FilterExpr::Any);
    }
    let mut parser = Parser::new(tokens);
    let expr = match parser.parse_expr() {
        Ok(e) => e,
        Err(m) => {
            return Err(m);
        },
    };
    if parser.pos < parser.tokens.len() {
        return Err(
            concat3(
                "Unexpected extra token '",
                token_debug_exec(&parser.tokens[parser.pos]).as_str(),
                "' in filter expression",
            ),
        );
    }
    Ok(expr)
}

// ---------------------------------------------------------------------------
// A step that succeeds looks at no token after where it ends, except that a
// chain checks the token it stops at: so tokens added after the end change
// nothing, if the first of them is `)` where a chain stops at the end.

/// Tokens that may follow a complete expression without joining it: none,
/// or a closing parenthesis first.
pub open spec fn closes(x: Seq<TokenV>) -> bool {
    x.len() == 0 || x[0] is RParen
}

proof fn lemma_word_extend(a: Seq<TokenV>, x: Seq<TokenV>, pos: nat, w: Seq<char>)
    requires
        pos <= a.len(),
        word_spec(a, pos, w) is Ok,
    ensures
        word_spec(a + x, pos, w) == word_spec(a, pos, w),
{
    let t = a + x;
    if pos < a.len() {
        assert(t[pos as int] == a[pos as int]);
    }
    if pos + 1 < a.len() {
        assert(t[(pos + 1) as int] == a[(pos + 1) as int]);
    }
}

proof fn lemma_primary_extend(a: Seq<TokenV>, x: Seq<TokenV>, pos: nat)
    requires
        pos <= a.len(),
        primary_spec(a, pos) is Ok,
    ensures
        primary_spec(a + x, pos) == primary_spec(a, pos),
    decreases (a.len() - pos) as nat, 0nat,
{
    let t = a + x;
    if pos < a.len() {
        assert(t[pos as int] == a[pos as int]);
        match a[pos as int] {
            TokenV::LParen => {
                lemma_or_progress(a, pos + 1);
                if let Ok((e, p)) = or_spec(a, pos + 1) {
                    lemma_or_extend(a, x, pos + 1);
                    assert(t[p as int] == a[p as int]);
                }
            },
            TokenV::Word(w) => {
                lemma_word_extend(a, x, pos + 1, w);
            },
            _ => {},
        }
    }
}

proof fn lemma_not_extend(a: Seq<TokenV>, x: Seq<TokenV>, pos: nat)
    requires
        pos <= a.len(),
        not_spec(a, pos) is Ok,
    ensures
        not_spec(a + x, pos) == not_spec(a, pos),
    decreases (a.len() - pos) as nat, 1nat,
{
    let t = a + x;
    if pos < a.len() {
        assert(t[pos as int] == a[pos as int]);
    }
    if pos < a.len() && a[pos as int] is Not {
        lemma_not_extend(a, x, pos + 1);
    } else {
        lemma_primary_extend(a, x, pos);
    }
}

proof fn lemma_and_tail_extend(a: Seq<TokenV>, x: Seq<TokenV>, left: FilterExpr, pos: nat)
    requires
        pos <= a.len(),
        and_tail_spec(a, left, pos) matches Ok((_, q)) && (q < a.len() || closes(x)),
    ensures
        and_tail_spec(a + x, left, pos) == and_tail_spec(a, left, pos),
    decreases (a.len() - pos) as nat, 2nat,
{
    let t = a + x;
    if pos < a.len() {
        assert(t[pos as int] == a[pos as int]);
        if a[pos as int] is And {
            lemma_not_progress(a, pos + 1);
            if let Ok((r, p)) = not_spec(a, pos + 1) {
                lemma_not_extend(a, x, pos + 1);
                lemma_and_tail_extend(a, x, FilterExpr::And(Box::new(left), Box::new(r)), p);
            }
        } else if starts_term(a, pos) {
            lemma_not_progress(a, pos);
            if let Ok((r, p)) = not_spec(a, pos) {
                lemma_not_extend(a, x, pos);
                lemma_and_tail_extend(a, x, FilterExpr::And(Box::new(left), Box::new(r)), p);
            }
        }
    } else if x.len() > 0 {
        assert(t[pos as int] == x[0]);
    }
}

proof fn lemma_and_extend(a: Seq<TokenV>, x: Seq<TokenV>, pos: nat)
    requires
        pos <= a.len(),
        and_spec(a, pos) matches Ok((_, q)) && (q < a.len() || closes(x)),
    ensures
        and_spec(a + x, pos) == and_spec(a, pos),
    decreases (a.len() - pos) as nat, 3nat,
{
    lemma_not_progress(a, pos);
    if let Ok((l, p)) = not_spec(a, pos) {
        lemma_not_extend(a, x, pos);
        lemma_and_tail_extend(a, x, l, p);
    }
}

proof fn lemma_or_tail_extend(a: Seq<TokenV>, x: Seq<TokenV>, left: FilterExpr, pos: nat)
    requires
        pos <= a.len(),
        or_tail_spec(a, left, pos) matches Ok((_, q)) && (q < a.len() || closes(x)),
    ensures
        or_tail_spec(a + x, left, pos) == or_tail_spec(a, left, pos),
    decreases (a.len() - pos) as nat, 4nat,
{
    let t = a + x;
    if pos < a.len() {
        assert(t[pos as int] == a[pos as int]);
        if a[pos as int] is Or {
            lemma_and_progress(a, pos + 1);
            if let Ok((r, p)) = and_spec(a, pos + 1) {
                let joined = FilterExpr::Or(Box::new(left), Box::new(r));
                lemma_or_tail_progress(a, joined, p);
                lemma_and_extend(a, x, pos + 1);
                lemma_or_tail_extend(a, x, joined, p);
            }
        }
    } else if x.len() > 0 {
        assert(t[pos as int] == x[0]);
    }
}

proof fn lemma_or_extend(a: Seq<TokenV>, x: Seq<TokenV>, pos: nat)
    requires
        pos <= a.len(),
        or_spec(a, pos) matches Ok((_, q)) && (q < a.len() || closes(x)),
    ensures
        or_spec(a + x, pos) == or_spec(a, pos),
    decreases (a.len() - pos) as nat, 5nat,
{
    lemma_and_progress(a, pos);
    if let Ok((l, p)) = and_spec(a, pos) {
        lemma_or_tail_progress(a, l, p);
        lemma_and_extend(a, x, pos);
        lemma_or_tail_extend(a, x, l, p);
    }
}

/// An expression that parses starts with a token that starts a term.
proof fn lemma_or_starts_term(t: Seq<TokenV>, pos: nat)
    requires
        pos <= t.len(),
        or_spec(t, pos) is Ok,
    ensures
        starts_term(t, pos),
{
    assert(and_spec(t, pos) is Ok);
    assert(not_spec(t, pos) is Ok);
    if !(pos < t.len() && t[pos as int] is Not) {
        assert(primary_spec(t, pos) is Ok);
    }
}

// ---------------------------------------------------------------------------
// Joining two complete expressions `a` and `b`: with an `and` token between
// them or without one, the parse is the same, ending one token later with it.

proof fn lemma_joined_ahead(a: Seq<TokenV>, b: Seq<TokenV>, q: nat)
    requires
        a.len() <= q <= a.len() + b.len(),
    ensures
        same_ahead(a + seq![TokenV::And] + b, q + 1, a + b, q),
{
    let t = a + seq![TokenV::And] + b;
    let u = a + b;
    assert(t.subrange((q + 1) as int, t.len() as int) =~= u.subrange(q as int, u.len() as int));
}

proof fn lemma_and_tail_joins(a: Seq<TokenV>, b: Seq<TokenV>, left: FilterExpr, pos: nat)
    requires
        pos <= a.len(),
        starts_term(b, 0),
        and_tail_spec(a, left, pos) matches Ok((_, q)) && q == a.len(),
    ensures
        agree_shifted(and_tail_spec(a + seq![TokenV::And] + b, left, pos), and_tail_spec(a + b, left, pos), 1, 0),
        ends_within(and_tail_spec(a + b, left, pos), (a.len() + 1) as int, (a.len() + b.len()) as int),
    decreases a.len() - pos,
{
    let t = a + seq![TokenV::And] + b;
    let u = a + b;
    let k = a.len();
    assert(t =~= a + (seq![TokenV::And] + b));
    if pos == k {
        assert(t[k as int] is And);
        assert(t[(k + 1) as int] == b[0]);
        assert(u[k as int] == b[0]);
        assert(t.remove(k as int) =~= u);
        lemma_implicit_and(t, left, k);
        lemma_not_progress(u, k);
        if let Ok((r, p)) = not_spec(u, k) {
            lemma_and_tail_progress(u, FilterExpr::And(Box::new(left), Box::new(r)), p);
        }
    } else {
        assert(t[pos as int] == a[pos as int]);
        assert(u[pos as int] == a[pos as int]);
        if a[pos as int] is And {
            lemma_not_progress(a, pos + 1);
            if let Ok((r, p)) = not_spec(a, pos + 1) {
                lemma_not_extend(a, seq![TokenV::And] + b, pos + 1);
                lemma_not_extend(a, b, pos + 1);
                lemma_and_tail_joins(a, b, FilterExpr::And(Box::new(left), Box::new(r)), p);
            }
        } else if starts_term(a, pos) {
            lemma_not_progress(a, pos);
            if let Ok((r, p)) = not_spec(a, pos) {
                lemma_not_extend(a, seq![TokenV::And] + b, pos);
                lemma_not_extend(a, b, pos);
                lemma_and_tail_joins(a, b, FilterExpr::And(Box::new(left), Box::new(r)), p);
            }
        }
    }
}

proof fn lemma_and_joins(a: Seq<TokenV>, b: Seq<TokenV>, pos: nat)
    requires
        pos <= a.len(),
        starts_term(b, 0),
        and_spec(a, pos) matches Ok((_, q)) && q == a.len(),
    ensures
        agree_shifted(and_spec(a + seq![TokenV::And] + b, pos), and_spec(a + b, pos), 1, 0),
        ends_within(and_spec(a + b, pos), (a.len() + 1) as int, (a.len() + b.len()) as int),
{
    let t = a + seq![TokenV::And] + b;
    assert(t =~= a + (seq![TokenV::And] + b));
    lemma_not_progress(a, pos);
    if let Ok((l, p)) = not_spec(a, pos) {
        lemma_not_extend(a, seq![TokenV::And] + b, pos);
        lemma_not_extend(a, b, pos);
        lemma_and_tail_joins(a, b, l, p);
    }
}

/// After an `and` chain that reached the join, the rest of the `or` chain
/// runs over the same tokens in both.
proof fn lemma_or_rest_joins(a: Seq<TokenV>, b: Seq<TokenV>, left: FilterExpr, pos: nat)
    requires
        pos < a.len(),
        starts_term(b, 0),
        and_spec(a, pos) matches Ok((_, q)) && q == a.len(),
    ensures
        agree_shifted(
            match and_spec(a + seq![TokenV::And] + b, pos) {
                Err(m) => Parsed::Err(m),
                Ok((r, p)) => if pos < p <= a.len() + b.len() + 1 {
                    or_tail_spec(a + seq![TokenV::And] + b, FilterExpr::Or(Box::new(left), Box::new(r)), p)
                } else {
                    Parsed::Ok((FilterExpr::Or(Box::new(left), Box::new(r)), p))
                },
            },
            match and_spec(a + b, pos) {
                Err(m) => Parsed::Err(m),
                Ok((r, p)) => if pos < p <= a.len() + b.len() {
                    or_tail_spec(a + b, FilterExpr::Or(Box::new(left), Box::new(r)), p)
                } else {
                    Parsed::Ok((FilterExpr::Or(Box::new(left), Box::new(r)), p))
                },
            },
            1,
            0,
        ),
        ends_within(
            match and_spec(a + b, pos) {
                Err(m) => Parsed::Err(m),
                Ok((r, p)) => if pos < p <= a.len() + b.len() {
                    or_tail_spec(a + b, FilterExpr::Or(Box::new(left), Box::new(r)), p)
                } else {
                    Parsed::Ok((FilterExpr::Or(Box::new(left), Box::new(r)), p))
                },
            },
            (a.len() + 1) as int,
            (a.len() + b.len()) as int,
        ),
{
    let t = a + seq![TokenV::And] + b;
    let u = a + b;
    lemma_and_joins(a, b, pos);
    lemma_and_progress(t, pos);
    lemma_and_progress(u, pos);
    if let Ok((r, q2)) = and_spec(u, pos) {
        let joined = FilterExpr::Or(Box::new(left), Box::new(r));
        lemma_joined_ahead(a, b, q2);
        lemma_or_tail_ahead(t, q2 + 1, u, q2, joined);
        lemma_or_tail_progress(u, joined, q2);
    }
}

proof fn lemma_or_tail_joins(a: Seq<TokenV>, b: Seq<TokenV>, left: FilterExpr, pos: nat)
    requires
        pos < a.len(),
        starts_term(b, 0),
        or_tail_spec(a, left, pos) matches Ok((_, q)) && q == a.len(),
    ensures
        agree_shifted(or_tail_spec(a + seq![TokenV::And] + b, left, pos), or_tail_spec(a + b, left, pos), 1, 0),
        ends_within(or_tail_spec(a + b, left, pos), (a.len() + 1) as int, (a.len() + b.len()) as int),
    decreases a.len() - pos,
{
    let t = a + seq![TokenV::And] + b;
    let u = a + b;
    let k = a.len();
    assert(t =~= a + (seq![TokenV::And] + b));
    assert(t[pos as int] == a[pos as int]);
    assert(u[pos as int] == a[pos as int]);
    if a[pos as int] is Or {
        lemma_and_progress(a, pos + 1);
        if let Ok((r, p)) = and_spec(a, pos + 1) {
            let joined = FilterExpr::Or(Box::new(left), Box::new(r));
            lemma_or_tail_progress(a, joined, p);
            if p < k {
                lemma_and_extend(a, seq![TokenV::And] + b, pos + 1);
                lemma_and_extend(a, b, pos + 1);
                lemma_or_tail_joins(a, b, joined, p);
            } else {
                lemma_or_rest_joins(a, b, left, pos + 1);
            }
        }
    }
}

proof fn lemma_or_joins(a: Seq<TokenV>, b: Seq<TokenV>, pos: nat)
    requires
        pos <= a.len(),
        starts_term(b, 0),
        or_spec(a, pos) matches Ok((_, q)) && q == a.len(),
    ensures
        agree_shifted(or_spec(a + seq![TokenV::And] + b, pos), or_spec(a + b, pos), 1, 0),
        ends_within(or_spec(a + b, pos), (a.len() + 1) as int, (a.len() + b.len()) as int),
{
    let t = a + seq![TokenV::And] + b;
    let u = a + b;
    let k = a.len();
    assert(t =~= a + (seq![TokenV::And] + b));
    lemma_and_progress(a, pos);
    if let Ok((l, p)) = and_spec(a, pos) {
        lemma_or_tail_progress(a, l, p);
        if p < k {
            lemma_and_extend(a, seq![TokenV::And] + b, pos);
            lemma_and_extend(a, b, pos);
            lemma_or_tail_joins(a, b, l, p);
        } else {
            lemma_and_joins(a, b, pos);
            lemma_and_progress(t, pos);
            lemma_and_progress(u, pos);
            if let Ok((l2, q2)) = and_spec(u, pos) {
                lemma_joined_ahead(a, b, q2);
                lemma_or_tail_ahead(t, q2 + 1, u, q2, l2);
                lemma_or_tail_progress(u, l2, q2);
            }
        }
    }
}

// ---------------------------------------------------------------------------
// Laws of `parse_filter` on text.

/// A filter that parses and is not blank parses as one expression over all
/// of its tokens.
proof fn lemma_whole_parse(s: Seq<char>, e: FilterExpr)
    requires
        parse_filter_spec(s) == Ok::<FilterExpr, Seq<char>>(e),
        trim(s).len() > 0,
    ensures
        tokenize_spec(s).len() > 0,
        or_spec(tokenize_spec(s), 0) == Parsed::Ok((e, tokenize_spec(s).len())),
{
    lemma_nonblank_has_tokens(s);
    lemma_tokenize_trim(s);
    lemma_or_progress(tokenize_spec(s), 0);
}

/// The tokens `a` of a whole expression `e`, in parentheses at `pos` in `u`,
/// make a primary that is `e`, ending after the `)`.
proof fn lemma_group_primary(a: Seq<TokenV>, e: FilterExpr, u: Seq<TokenV>, pos: nat)
    requires
        or_spec(a, 0) == Parsed::Ok((e, a.len())),
        pos + a.len() + 2 <= u.len(),
        u[pos as int] is LParen,
        u.subrange((pos + 1) as int, (pos + 1 + a.len()) as int) == a,
        u[(pos + 1 + a.len()) as int] is RParen,
    ensures
        primary_spec(u, pos) == Parsed::Ok((e, pos + a.len() + 2)),
{
    let x = u.subrange((pos + 1 + a.len()) as int, u.len() as int);
    assert(x[0] is RParen);
    lemma_or_extend(a, x, 0);
    assert(u.subrange((pos + 1) as int, u.len() as int) =~= a + x);
    assert((a + x).subrange(0, (a + x).len() as int) =~= a + x);
    lemma_or_ahead(a + x, 0, u, pos + 1);
}

/// What `parse_filter` gives for the tokens of a text that is not blank.
pub open spec fn parse_tokens_spec(t: Seq<TokenV>) -> Result<FilterExpr, Seq<char>> {
    match or_spec(t, 0) {
        Err(m) => Err(m),
        Ok((e, p)) => if p < t.len() {
            Err("Unexpected extra token '"@ + token_debug(t[p as int]) + "' in filter expression"@)
        } else {
            Ok(e)
        },
    }
}

/// On text with a token, `parse_filter` is `parse_tokens_spec` of its tokens.
pub proof fn lemma_parse_filter_tokens(x: Seq<char>)
    requires
        tokenize_spec(x).len() > 0,
    ensures
        parse_filter_spec(x) == parse_tokens_spec(tokenize_spec(x)),
{
    lemma_tokens_not_blank(x);
}

proof fn lemma_juxtaposed_tokens(s: Seq<char>, t: Seq<char>)
    ensures
        tokenize_spec(s + " "@ + t) == tokenize_spec(s) + tokenize_spec(t),
        tokenize_spec(s + " and "@ + t) == tokenize_spec(s) + seq![TokenV::And] + tokenize_spec(t),
{
    reveal_strlit(" ");
    reveal_strlit(" and ");
    reveal_strlit("and");
    let rest = "and"@ + seq![' '] + t;
    assert(s + " "@ + t =~= s + seq![' '] + t);
    assert(s + " and "@ + t =~= s + seq![' '] + rest);
    lemma_tokenize_split(s, ' ', t);
    lemma_tokenize_split(s, ' ', rest);
    lemma_tokenize_split("and"@, ' ', t);
    lemma_tokenize_and();
    assert(tokenize_spec(s + " and "@ + t) =~= tokenize_spec(s) + seq![TokenV::And] + tokenize_spec(t));
}

proof fn lemma_join_tokens(a: Seq<TokenV>, b: Seq<TokenV>)
    requires
        or_spec(a, 0) matches Ok((_, q)) && q == a.len(),
        starts_term(b, 0),
    ensures
        parse_tokens_spec(a + seq![TokenV::And] + b) == parse_tokens_spec(a + b),
{
    let u = a + b;
    let tt = a + seq![TokenV::And] + b;
    lemma_or_joins(a, b, 0);
    lemma_or_progress(u, 0);
    lemma_or_progress(tt, 0);
    if let Ok((e2, q2)) = or_spec(u, 0) {
        if q2 < u.len() {
            assert(tt[(q2 + 1) as int] == u[q2 as int]);
        }
    }
}

/// Two filters written one after the other, separated by a space, mean the
/// same as the two joined by ` and `: `s t` parses as `s and t` does, to the
/// same expression or the same error, wherever `s` and `t` each parse on
/// their own and neither is blank.
pub proof fn lemma_juxtaposed_means_and(s: Seq<char>, t: Seq<char>)
    requires
        parse_filter_spec(s) is Ok,
        parse_filter_spec(t) is Ok,
        trim(s).len() > 0,
        trim(t).len() > 0,
    ensures
        parse_filter_spec(s + " "@ + t) == parse_filter_spec(s + " and "@ + t),
{
    let a = tokenize_spec(s);
    let b = tokenize_spec(t);
    lemma_whole_parse(s, parse_filter_spec(s)->Ok_0);
    lemma_whole_parse(t, parse_filter_spec(t)->Ok_0);
    lemma_or_starts_term(b, 0);
    lemma_juxtaposed_tokens(s, t);
    lemma_parse_filter_tokens(s + " "@ + t);
    lemma_parse_filter_tokens(s + " and "@ + t);
    lemma_join_tokens(a, b);
}

proof fn lemma_paren_and_tokens(s: Seq<char>, t: Seq<char>)
    ensures
        tokenize_spec("("@ + s + ") and ("@ + t + ")"@) == seq![TokenV::LParen] + tokenize_spec(s)
            + seq![TokenV::RParen, TokenV::And, TokenV::LParen] + tokenize_spec(t) + seq![TokenV::RParen],
{
    reveal_strlit("(");
    reveal_strlit(") and (");
    reveal_strlit(")");
    reveal_strlit("and");
    let empty = Seq::<char>::empty();
    assert(tokenize_spec(empty) =~= Seq::<TokenV>::empty());
    let r = t + seq![')'] + empty;
    let v = empty + seq!['('] + r;
    let w = "and"@ + seq![' '] + v;
    let z = empty + seq![' '] + w;
    let y = s + seq![')'] + z;
    let x = "("@ + s + ") and ("@ + t + ")"@;
    assert(x =~= empty + seq!['('] + y);
    lemma_tokenize_split_at_stop(empty, '(', y);
    lemma_tokenize_split_at_stop(s, ')', z);
    lemma_tokenize_split(empty, ' ', w);
    lemma_tokenize_split("and"@, ' ', v);
    lemma_tokenize_and();
    lemma_tokenize_split_at_stop(empty, '(', r);
    lemma_tokenize_split_at_stop(t, ')', empty);
    assert(tokenize_spec(x) =~= seq![TokenV::LParen] + tokenize_spec(s) + seq![
        TokenV::RParen,
        TokenV::And,
        TokenV::LParen,
    ] + tokenize_spec(t) + seq![TokenV::RParen]);
}

proof fn lemma_paren_and_parse(a: Seq<TokenV>, b: Seq<TokenV>, e: FilterExpr, f: FilterExpr)
    requires
        or_spec(a, 0) == Parsed::Ok((e, a.len())),
        or_spec(b, 0) == Parsed::Ok((f, b.len())),
    ensures
        ({
            let u = seq![TokenV::LParen] + a + seq![TokenV::RParen, TokenV::And, TokenV::LParen] + b
                + seq![TokenV::RParen];
            or_spec(u, 0) == Parsed::Ok((FilterExpr::And(Box::new(e), Box::new(f)), u.len()))
        }),
{
    let n = a.len();
    let m = b.len();
    let u = seq![TokenV::LParen] + a + seq![TokenV::RParen, TokenV::And, TokenV::LParen] + b
        + seq![TokenV::RParen];
    assert(u.len() == n + m + 5);
    assert(u.subrange(1, 1 + n as int) =~= a);
    assert(u.subrange((n + 4) as int, (n + 4 + m) as int) =~= b);
    assert(u[(n + 1) as int] is RParen);
    assert(u[(n + 2) as int] is And);
    assert(u[(n + 3) as int] is LParen);
    assert(u[(n + 4 + m) as int] is RParen);
    lemma_group_primary(a, e, u, 0);
    lemma_group_primary(b, f, u, n + 3);
    assert(not_spec(u, 0) == Parsed::Ok((e, n + 2)));
    assert(not_spec(u, n + 3) == Parsed::Ok((f, u.len())));
    let both = FilterExpr::And(Box::new(e), Box::new(f));
    assert(and_tail_spec(u, both, u.len()) == Parsed::Ok((both, u.len())));
    assert(and_tail_spec(u, e, n + 2) == Parsed::Ok((both, u.len())));
    assert(and_spec(u, 0) == Parsed::Ok((both, u.len())));
    assert(or_tail_spec(u, both, u.len()) == Parsed::Ok((both, u.len())));
}

/// A filter in parentheses stands for itself inside `and`: `(s) and (t)`
/// is the `and` of what `s` and `t` parse to, wherever `s` and `t` each
/// parse and neither is blank.
pub proof fn lemma_parenthesized_and(s: Seq<char>, t: Seq<char>, e: FilterExpr, f: FilterExpr)
    requires
        parse_filter_spec(s) == Ok::<FilterExpr, Seq<char>>(e),
        parse_filter_spec(t) == Ok::<FilterExpr, Seq<char>>(f),
        trim(s).len() > 0,
        trim(t).len() > 0,
    ensures
        parse_filter_spec("("@ + s + ") and ("@ + t + ")"@) == Ok::<FilterExpr, Seq<char>>(
            FilterExpr::And(Box::new(e), Box::new(f)),
        ),
{
    lemma_whole_parse(s, e);
    lemma_whole_parse(t, f);
    let x = "("@ + s + ") and ("@ + t + ")"@;
    lemma_paren_and_tokens(s, t);
    lemma_paren_and_parse(tokenize_spec(s), tokenize_spec(t), e, f);
    lemma_tokens_not_blank(x);
}

/// A filter in parentheses stands for itself after `not`: `not (s)` is the
/// negation of what `s` parses to, wherever `s` parses and is not blank.
pub proof fn lemma_parenthesized_not(s: Seq<char>, e: FilterExpr)
    requires
        parse_filter_spec(s) == Ok::<FilterExpr, Seq<char>>(e),
        trim(s).len() > 0,
    ensures
        parse_filter_spec("not ("@ + s + ")"@) == Ok::<FilterExpr, Seq<char>>(
            FilterExpr::Not(Box::new(e)),
        ),
{
    reveal_strlit("not (");
    reveal_strlit(")");
    reveal_strlit("not");
    let a = tokenize_spec(s);
    lemma_whole_parse(s, e);
    let n = a.len();
    let empty = Seq::<char>::empty();
    assert(tokenize_spec(empty) =~= Seq::<TokenV>::empty());
    let r = s + seq![')'] + empty;
    let v = empty + seq!['('] + r;
    let x = "not ("@ + s + ")"@;
    assert(x =~= "not"@ + seq![' '] + v);
    lemma_tokenize_split("not"@, ' ', v);
    lemma_tokenize_not();
    lemma_tokenize_split_at_stop(empty, '(', r);
    lemma_tokenize_split_at_stop(s, ')', empty);
    let u = seq![TokenV::Not, TokenV::LParen] + a + seq![TokenV::RParen];
    assert(tokenize_spec(x) =~= u);
    lemma_tokens_not_blank(x);
    assert(u.len() == n + 3);
    assert(u.subrange(2, 2 + n as int) =~= a);
    assert(u[(n + 2) as int] is RParen);
    lemma_group_primary(a, e, u, 1);
    assert(not_spec(u, 1) == Parsed::Ok((e, u.len())));
    let neg = FilterExpr::Not(Box::new(e));
    assert(not_spec(u, 0) == Parsed::Ok((neg, u.len())));
    assert(and_tail_spec(u, neg, u.len()) == Parsed::Ok((neg, u.len())));
    assert(and_spec(u, 0) == Parsed::Ok((neg, u.len())));
    assert(or_tail_spec(u, neg, u.len()) == Parsed::Ok((neg, u.len())));
    assert(or_spec(u, 0) == Parsed::Ok((neg, u.len())));
}

} // verus!
