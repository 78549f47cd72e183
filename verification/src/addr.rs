//! IPv4 addresses: their order, dotted-quad parsing and printing.
use vstd::prelude::*;
use crate::text::{all_digits, decimal, digits_value, is_digit, parse_unsigned, parse_unsigned_chars, push_char, push_chars, str_chars, decimal_chars};

verus! {

/// An IPv4 address, held as its four octets in network order.
#[derive(Clone, Copy, Debug, PartialEq, Eq, Hash, Structural)]
pub struct Ipv4Addr {
    pub a: u8,
    pub b: u8,
    pub c: u8,
    pub d: u8,
}

impl Ipv4Addr {
    /// The address as a 32-bit number, first octet most significant; addresses
    /// are ordered by this number.
    pub open spec fn value(self) -> int {
        self.a * 16777216 + self.b * 65536 + self.c * 256 + self.d
    }

    /// The address `a.b.c.d`.
    pub fn new(a: u8, b: u8, c: u8, d: u8) -> (r: Self)
        ensures
            r == (Ipv4Addr { a, b, c, d }),
    {
        Ipv4Addr { a, b, c, d }
    }

    /// The four octets, first to last.
    pub fn octets(&self) -> (r: [u8; 4])
        ensures
            r@ == seq![self.a, self.b, self.c, self.d],
    {
        [self.a, self.b, self.c, self.d]
    }

    /// The address as a `u32`, first octet most significant.
    pub fn to_bits(&self) -> (r: u32)
        ensures
            r as int == self.value(),
    {
        (self.a as u32) * 16777216 + (self.b as u32) * 65536 + (self.c as u32) * 256 + (self.d as u32)
    }
}

/// Two addresses are equal exactly when their numbers are.
pub proof fn lemma_value_injective(x: Ipv4Addr, y: Ipv4Addr)
    ensures
        x.value() == y.value() <==> x == y,
{
    if x.value() == y.value() {
        let (da, db, dc, dd) = (x.a - y.a, x.b - y.b, x.c - y.c, x.d - y.d);
        assert(da * 16777216 + db * 65536 + dc * 256 + dd == 0);
        assert(da == 0);
        assert(db == 0);
        assert(dc == 0);
    }
}


/// The pieces of `s` between dots, left to right (`k` dots give `k + 1` pieces).
pub open spec fn split_dots(s: Seq<char>) -> Seq<Seq<char>>
    decreases s.len(),
{
    if s.len() == 0 {
        seq![Seq::empty()]
    } else {
        let r = split_dots(s.drop_last());
        if s.last() == '.' {
            r.push(Seq::empty())
        } else {
            r.update(r.len() - 1, r.last().push(s.last()))
        }
    }
}

pub(crate) proof fn lemma_split_dots_nonempty(s: Seq<char>)
    ensures
        split_dots(s).len() >= 1,
    decreases s.len(),
{
    if s.len() > 0 {
        lemma_split_dots_nonempty(s.drop_last());
    }
}

/// One decimal octet of a dotted address: one to three digits, no leading
/// zero unless the octet is `0` itself, value at most 255.
pub open spec fn octet(part: Seq<char>) -> Option<u8> {
    if 1 <= part.len() <= 3 && all_digits(part) && !(part.len() > 1 && part[0] == '0')
        && digits_value(part) <= 255 {
        Some(digits_value(part) as u8)
    } else {
        None
    }
}

/// `Ipv4Addr::from_str`: exactly four octets separated by dots, nothing else.
pub open spec fn parse_ipv4(s: Seq<char>) -> Option<Ipv4Addr> {
    let p = split_dots(s);
    if p.len() == 4 && octet(p[0]) is Some && octet(p[1]) is Some && octet(p[2]) is Some
        && octet(p[3]) is Some {
        Some(
            Ipv4Addr {
                a: octet(p[0])->0,
                b: octet(p[1])->0,
                c: octet(p[2])->0,
                d: octet(p[3])->0,
            },
        )
    } else {
        None
    }
}

/// The dotted-decimal text of an address, as its `Display` writes it.
pub open spec fn ipv4_text(ip: Ipv4Addr) -> Seq<char> {
    decimal(ip.a as nat) + seq!['.'] + decimal(ip.b as nat) + seq!['.'] + decimal(ip.c as nat)
        + seq!['.'] + decimal(ip.d as nat)
}

fn split_dots_exec(s: &[char]) -> (r: Vec<Vec<char>>)
    ensures
        r@.len() == split_dots(s@).len(),
        forall|i: int| 0 <= i < r@.len() ==> (#[trigger] r@[i])@ == split_dots(s@)[i],
{
    let mut r: Vec<Vec<char>> = Vec::new();
    r.push(Vec::new());
    let mut i: usize = 0;
    assert(s@.take(0) =~= Seq::<char>::empty());
    while i < s.len()
        invariant
            i <= s.len(),
            r@.len() == split_dots(s@.take(i as int)).len(),
            r@.len() >= 1,
            forall|j: int| 0 <= j < r@.len() ==> (#[trigger] r@[j])@ == split_dots(s@.take(i as int))[j],
        decreases s.len() - i,
    {
        let c = s[i];
        assert(s@.take(i + 1).drop_last() =~= s@.take(i as int));
        if c == '.' {
            r.push(Vec::new());
        } else {
            let mut piece = r.pop().unwrap();
            piece.push(c);
            r.push(piece);
            proof {
                lemma_split_dots_nonempty(s@.take(i as int));
            }
        }
        i += 1;
        assert forall|j: int| 0 <= j < r@.len() implies (#[trigger] r@[j])@ == split_dots(
            s@.take(i as int),
        )[j] by {}
    }
    assert(s@.take(s.len() as int) =~= s@);
    r
}

fn octet_exec(part: &[char]) -> (r: Option<u8>)
    ensures
        r == octet(part@),
{
    if part.len() < 1 || part.len() > 3 {
        return None;
    }
    if part.len() > 1 && part[0] == '0' {
        return None;
    }
    match parse_unsigned_chars(part, 255) {
        Some(v) => {
            if part[0] == '+' {
                proof {
                    assert(!is_digit(part@[0]));
                }
                return None;
            }
            Some(v as u8)
        },
        None => {
            proof {
                if part@[0] != '+' && all_digits(part@) && digits_value(part@) <= 255 {
                    assert(parse_unsigned(part@, 255) is Some);
                }
            }
            None
        },
    }
}

impl Ipv4Addr {
    /// `Ipv4Addr::from_str` on a sequence of characters.
    pub fn parse_chars(s: &[char]) -> (r: Option<Ipv4Addr>)
        ensures
            r == parse_ipv4(s@),
    {
        let p = split_dots_exec(s);
        if p.len() != 4 {
            return None;
        }
        let a = octet_exec(p[0].as_slice());
        let b = octet_exec(p[1].as_slice());
        let c = octet_exec(p[2].as_slice());
        let d = octet_exec(p[3].as_slice());
        assert(p@[0]@ == split_dots(s@)[0]);
        assert(p@[1]@ == split_dots(s@)[1]);
        assert(p@[2]@ == split_dots(s@)[2]);
        assert(p@[3]@ == split_dots(s@)[3]);
        match (a, b, c, d) {
            (Some(a), Some(b), Some(c), Some(d)) => Some(Ipv4Addr { a, b, c, d }),
            _ => None,
        }
    }

    /// `Ipv4Addr::from_str`.
    pub fn parse(s: &str) -> (r: Option<Ipv4Addr>)
        ensures
            r == parse_ipv4(s@),
    {
        let v = str_chars(s);
        Self::parse_chars(v.as_slice())
    }

    /// The dotted-decimal text of the address.
    pub fn to_string(&self) -> (r: String)
        ensures
            r@ == ipv4_text(*self),
    {
        let mut s = String::new();
        self.push_text(&mut s);
        s
    }

    /// Appends the dotted-decimal text of the address to `s`.
    pub fn push_text(&self, s: &mut String)
        ensures
            final(s)@ == old(s)@ + ipv4_text(*self),
    {
        let ghost s0 = s@;
        let da = decimal_chars(self.a as u64);
        push_chars(s, da.as_slice());
        push_char(s, '.');
        let db = decimal_chars(self.b as u64);
        push_chars(s, db.as_slice());
        push_char(s, '.');
        let dc = decimal_chars(self.c as u64);
        push_chars(s, dc.as_slice());
        push_char(s, '.');
        let dd = decimal_chars(self.d as u64);
        push_chars(s, dd.as_slice());
        assert(s@ =~= s0 + ipv4_text(*self));
    }
}

} // verus!
