//! IPv4 addresses: the dotted-quad text form, its grammar, parsing and
//! rendering, and the numeric order on addresses.
use vstd::prelude::*;
use vstd::string::*;

use crate::text::{spec_split, split_str, lemma_split_sepfree, lemma_split_sepfree_prefix};

verus! {

/// A 4-octet IPv4 address.
#[derive(Clone, Copy, Debug, PartialEq, Eq, Structural)]
pub struct Address {
    pub o0: u8,
    pub o1: u8,
    pub o2: u8,
    pub o3: u8,
}

pub open spec fn spec_is_digit(c: char) -> bool {
    0x30 <= (c as u32) <= 0x39
}

pub open spec fn spec_digit_val(c: char) -> int {
    (c as u32) - 0x30
}

pub open spec fn spec_digit_char(v: int) -> char {
    if v == 0 {
        '0'
    } else if v == 1 {
        '1'
    } else if v == 2 {
        '2'
    } else if v == 3 {
        '3'
    } else if v == 4 {
        '4'
    } else if v == 5 {
        '5'
    } else if v == 6 {
        '6'
    } else if v == 7 {
        '7'
    } else if v == 8 {
        '8'
    } else {
        '9'
    }
}

/// The decimal value of a digit sequence.
pub open spec fn spec_group_val(t: Seq<char>) -> int
    decreases t.len(),
{
    if t.len() == 0 {
        0
    } else {
        spec_group_val(t.drop_last()) * 10 + spec_digit_val(t.last())
    }
}

/// A valid textual octet: one to three digits, no leading zero,
/// value at most 255.
pub open spec fn spec_is_octet_text(t: Seq<char>) -> bool {
    &&& 1 <= t.len() <= 3
    &&& forall|i: int| 0 <= i < t.len() ==> spec_is_digit(#[trigger] t[i])
    &&& (t.len() > 1 ==> t[0] != '0')
    &&& spec_group_val(t) <= 255
}

/// The dotted-quad IPv4 grammar: exactly four octet texts separated
/// by single dots.
pub open spec fn spec_ipv4_accepts(s: Seq<char>) -> bool {
    let g = spec_split(s, '.');
    g.len() == 4 && forall|i: int| 0 <= i < 4 ==> spec_is_octet_text(#[trigger] g[i])
}

/// The address denoted by an accepted dotted-quad text.
pub open spec fn spec_ipv4_addr(s: Seq<char>) -> Address {
    let g = spec_split(s, '.');
    Address {
        o0: spec_group_val(g[0]) as u8,
        o1: spec_group_val(g[1]) as u8,
        o2: spec_group_val(g[2]) as u8,
        o3: spec_group_val(g[3]) as u8,
    }
}

/// The decimal text of one octet, without padding.
pub open spec fn spec_octet_text(o: u8) -> Seq<char> {
    if o < 10 {
        seq![spec_digit_char(o as int)]
    } else if o < 100 {
        seq![spec_digit_char(o as int / 10), spec_digit_char(o as int % 10)]
    } else {
        seq![
            spec_digit_char(o as int / 100),
            spec_digit_char((o as int / 10) % 10),
            spec_digit_char(o as int % 10),
        ]
    }
}

/// The dotted-quad text of an address.
pub open spec fn spec_addr_text(a: Address) -> Seq<char> {
    spec_octet_text(a.o0) + seq!['.'] + spec_octet_text(a.o1) + seq!['.'] + spec_octet_text(a.o2)
        + seq!['.'] + spec_octet_text(a.o3)
}

/// Numeric order on addresses: most significant octet first.
pub open spec fn spec_addr_lt(a: Address, b: Address) -> bool {
    ||| a.o0 < b.o0
    ||| (a.o0 == b.o0 && a.o1 < b.o1)
    ||| (a.o0 == b.o0 && a.o1 == b.o1 && a.o2 < b.o2)
    ||| (a.o0 == b.o0 && a.o1 == b.o1 && a.o2 == b.o2 && a.o3 < b.o3)
}

fn parse_octet(t: &str) -> (r: Option<u8>)
    ensures
        r is Some <==> spec_is_octet_text(t@),
        r matches Some(v) ==> v == spec_group_val(t@),
{
    let n: usize = t.unicode_len();
    if n == 0 || n > 3 {
        return None;
    }
    let mut val: u32 = 0;
    let mut i: usize = 0;
    proof {
        assert(t@.take(0) =~= Seq::<char>::empty());
    }
    while i < n
        invariant
            0 <= i <= n == t@.len(),
            n <= 3,
            forall|k: int| 0 <= k < i ==> spec_is_digit(#[trigger] t@[k]),
            val == spec_group_val(t@.take(i as int)),
            i == 0 ==> val == 0,
            i == 1 ==> val <= 9,
            i == 2 ==> val <= 99,
            i == 3 ==> val <= 999,
        decreases n - i,
    {
        let c = t.get_char(i);
        let u = c as u32;
        if u < 0x30 || u > 0x39 {
            return None;
        }
        proof {
            assert(t@.take(i + 1).drop_last() =~= t@.take(i as int));
            assert(t@.take(i + 1).last() == t@[i as int]);
        }
        val = val * 10 + (u - 0x30);
        i = i + 1;
    }
    proof {
        assert(t@.take(n as int) =~= t@);
    }
    if n > 1 && t.get_char(0) == '0' {
        return None;
    }
    if val > 255 {
        return None;
    }
    Some(val as u8)
}

fn digit_str(d: u8) -> (r: &'static str)
    requires
        d < 10,
    ensures
        r@ == seq![spec_digit_char(d as int)],
{
    if d == 0 {
        let r = "0";
        proof {
            reveal_strlit("0");
            assert(r@ =~= seq![spec_digit_char(0)]);
        }
        r
    } else if d == 1 {
        let r = "1";
        proof {
            reveal_strlit("1");
            assert(r@ =~= seq![spec_digit_char(1)]);
        }
        r
    } else if d == 2 {
        let r = "2";
        proof {
            reveal_strlit("2");
            assert(r@ =~= seq![spec_digit_char(2)]);
        }
        r
    } else if d == 3 {
        let r = "3";
        proof {
            reveal_strlit("3");
            assert(r@ =~= seq![spec_digit_char(3)]);
        }
        r
    } else if d == 4 {
        let r = "4";
        proof {
            reveal_strlit("4");
            assert(r@ =~= seq![spec_digit_char(4)]);
        }
        r
    } else if d == 5 {
        let r = "5";
        proof {
            reveal_strlit("5");
            assert(r@ =~= seq![spec_digit_char(5)]);
        }
        r
    } else if d == 6 {
        let r = "6";
        proof {
            reveal_strlit("6");
            assert(r@ =~= seq![spec_digit_char(6)]);
        }
        r
    } else if d == 7 {
        let r = "7";
        proof {
            reveal_strlit("7");
            assert(r@ =~= seq![spec_digit_char(7)]);
        }
        r
    } else if d == 8 {
        let r = "8";
        proof {
            reveal_strlit("8");
            assert(r@ =~= seq![spec_digit_char(8)]);
        }
        r
    } else {
        let r = "9";
        proof {
            reveal_strlit("9");
            assert(r@ =~= seq![spec_digit_char(9)]);
        }
        r
    }
}

fn octet_text(o: u8) -> (r: String)
    ensures
        r@ == spec_octet_text(o),
{
    if o < 10 {
        let r = String::from_str(digit_str(o));
        proof {
            assert(r@ =~= spec_octet_text(o));
        }
        r
    } else if o < 100 {
        let mut r = String::from_str(digit_str(o / 10));
        r.append(digit_str(o % 10));
        proof {
            assert(r@ =~= spec_octet_text(o));
        }
        r
    } else {
        let mut r = String::from_str(digit_str(o / 100));
        r.append(digit_str((o / 10) % 10));
        r.append(digit_str(o % 10));
        proof {
            assert(r@ =~= spec_octet_text(o));
        }
        r
    }
}

impl Address {
    pub fn new(o0: u8, o1: u8, o2: u8, o3: u8) -> (r: Address)
        ensures
            r == (Address { o0, o1, o2, o3 }),
    {
        Address { o0, o1, o2, o3 }
    }

    /// Parses a dotted-quad IPv4 text.
    pub fn parse(s: &str) -> (r: Option<Address>)
        ensures
            r is Some <==> spec_ipv4_accepts(s@),
            r matches Some(a) ==> a == spec_ipv4_addr(s@),
    {
        let parts = split_str(s, '.');
        if parts.len() != 4 {
            return None;
        }
        proof {
            let g = spec_split(s@, '.');
            assert(g[0] == parts@[0]@ && g[1] == parts@[1]@ && g[2] == parts@[2]@ && g[3]
                == parts@[3]@);
        }
        let v0 = parse_octet(parts[0].as_str());
        let v1 = parse_octet(parts[1].as_str());
        let v2 = parse_octet(parts[2].as_str());
        let v3 = parse_octet(parts[3].as_str());
        match (v0, v1, v2, v3) {
            (Some(o0), Some(o1), Some(o2), Some(o3)) => Some(Address { o0, o1, o2, o3 }),
            _ => None,
        }
    }

    /// The dotted-quad text of this address.
    pub fn to_text(&self) -> (r: String)
        ensures
            r@ == spec_addr_text(*self),
    {
        let dot = ".";
        proof {
            reveal_strlit(".");
            assert(dot@ =~= seq!['.']);
        }
        let mut r = octet_text(self.o0);
        r.append(dot);
        let t1 = octet_text(self.o1);
        r.append(t1.as_str());
        r.append(dot);
        let t2 = octet_text(self.o2);
        r.append(t2.as_str());
        r.append(dot);
        let t3 = octet_text(self.o3);
        r.append(t3.as_str());
        proof {
            assert(r@ =~= spec_addr_text(*self));
        }
        r
    }

    /// The length of the dotted-quad text of this address.
    pub fn text_len(&self) -> (n: usize)
        ensures
            n == spec_addr_text(*self).len(),
    {
        let n0: usize = if self.o0 < 10 {
            1
        } else if self.o0 < 100 {
            2
        } else {
            3
        };
        let n1: usize = if self.o1 < 10 {
            1
        } else if self.o1 < 100 {
            2
        } else {
            3
        };
        let n2: usize = if self.o2 < 10 {
            1
        } else if self.o2 < 100 {
            2
        } else {
            3
        };
        let n3: usize = if self.o3 < 10 {
            1
        } else if self.o3 < 100 {
            2
        } else {
            3
        };
        n0 + n1 + n2 + n3 + 3
    }

    /// Numeric order: most significant octet first.
    pub fn lt(&self, other: &Address) -> (r: bool)
        ensures
            r == spec_addr_lt(*self, *other),
    {
        if self.o0 != other.o0 {
            self.o0 < other.o0
        } else if self.o1 != other.o1 {
            self.o1 < other.o1
        } else if self.o2 != other.o2 {
            self.o2 < other.o2
        } else {
            self.o3 < other.o3
        }
    }
}

proof fn lemma_digit_char_val(v: int)
    requires
        0 <= v < 10,
    ensures
        spec_is_digit(spec_digit_char(v)),
        spec_digit_val(spec_digit_char(v)) == v,
        v > 0 ==> spec_digit_char(v) != '0',
{
}

/// Facts about the decimal text of one octet: it is a valid octet text
/// and denotes the octet's value.
proof fn lemma_octet_text_val(o: u8)
    ensures
        spec_is_octet_text(spec_octet_text(o)),
        spec_group_val(spec_octet_text(o)) == o,
        forall|i: int|
            0 <= i < spec_octet_text(o).len() ==> spec_is_digit(#[trigger] spec_octet_text(o)[i]),
{
    let t = spec_octet_text(o);
    if o < 10 {
        lemma_digit_char_val(o as int);
        assert(t.drop_last() =~= Seq::<char>::empty());
        assert(spec_group_val(Seq::<char>::empty()) == 0);
        assert(spec_group_val(t) == o);
    } else if o < 100 {
        lemma_digit_char_val(o as int / 10);
        lemma_digit_char_val(o as int % 10);
        let t1 = t.drop_last();
        assert(t1 =~= seq![spec_digit_char(o as int / 10)]);
        assert(t1.drop_last() =~= Seq::<char>::empty());
        assert(spec_group_val(Seq::<char>::empty()) == 0);
        assert(spec_group_val(t1) == o as int / 10);
        assert((o as int / 10) * 10 + o as int % 10 == o) by (nonlinear_arith)
            requires
                10 <= o < 100,
        ;
        assert(spec_group_val(t) == o);
        assert(o as int / 10 >= 1);
    } else {
        lemma_digit_char_val(o as int / 100);
        lemma_digit_char_val((o as int / 10) % 10);
        lemma_digit_char_val(o as int % 10);
        let t2 = t.drop_last();
        assert(t2 =~= seq![spec_digit_char(o as int / 100), spec_digit_char((o as int / 10) % 10)]);
        let t1 = t2.drop_last();
        assert(t1 =~= seq![spec_digit_char(o as int / 100)]);
        assert(t1.drop_last() =~= Seq::<char>::empty());
        assert(spec_group_val(Seq::<char>::empty()) == 0);
        assert(spec_group_val(t1) == o as int / 100);
        assert((o as int / 100) * 10 + (o as int / 10) % 10 == o as int / 10) by (nonlinear_arith)
            requires
                100 <= o < 256,
        ;
        assert(spec_group_val(t2) == o as int / 10);
        assert((o as int / 10) * 10 + o as int % 10 == o) by (nonlinear_arith)
            requires
                100 <= o < 256,
        ;
        assert(spec_group_val(t) == o);
        assert(o as int / 100 >= 1);
    }
}

/// Rendering an address and parsing the text back yields the same
/// address; the text consists of digits and dots and begins with a digit.
#[verifier::rlimit(60)]
pub proof fn lemma_addr_text_roundtrip(a: Address)
    ensures
        spec_ipv4_accepts(spec_addr_text(a)),
        spec_ipv4_addr(spec_addr_text(a)) == a,
        spec_addr_text(a).len() > 0,
        spec_is_digit(spec_addr_text(a)[0]),
        forall|i: int|
            0 <= i < spec_addr_text(a).len() ==> spec_is_digit(#[trigger] spec_addr_text(a)[i])
                || spec_addr_text(a)[i] == '.',
{
    let t0 = spec_octet_text(a.o0);
    let t1 = spec_octet_text(a.o1);
    let t2 = spec_octet_text(a.o2);
    let t3 = spec_octet_text(a.o3);
    let s = spec_addr_text(a);
    lemma_octet_text_val(a.o0);
    lemma_octet_text_val(a.o1);
    lemma_octet_text_val(a.o2);
    lemma_octet_text_val(a.o3);
    assert(s =~= t0 + seq!['.'] + (t1 + seq!['.'] + (t2 + seq!['.'] + t3)));
    lemma_split_sepfree_prefix(t0, t1 + seq!['.'] + (t2 + seq!['.'] + t3), '.');
    lemma_split_sepfree_prefix(t1, t2 + seq!['.'] + t3, '.');
    lemma_split_sepfree_prefix(t2, t3, '.');
    lemma_split_sepfree(t3, '.');
    let g = spec_split(s, '.');
    assert(g =~= seq![t0, t1, t2, t3]);
    assert(g[0] == t0 && g[1] == t1 && g[2] == t2 && g[3] == t3);
    assert(spec_ipv4_addr(s) == a);
    assert(s[0] == t0[0]);
}

} // verus!
