//! IPv4 addresses as the desk reads and writes them: dotted-decimal text,
//! multicast and loopback ranges.
use vstd::prelude::*;
use crate::text::{
    Separator, all_digits, concat_chars, decimal, decimal_chars, digits_value, free_of,
    from_chars, is_digit, lemma_decimal_digits, lemma_split_append_piece, lemma_split_single,
    split_by, split_chars, to_chars, views,
};

verus! {

/// An IPv4 address by its four octets, most significant first.
#[derive(Clone, Copy, PartialEq, Eq, Structural, Debug)]
pub struct Ipv4Address(pub u8, pub u8, pub u8, pub u8);

/// Whether `p` is one dotted-decimal octet as `Ipv4Addr::from_str` reads it:
/// one to three ASCII digits, no leading zero, a value up to 255.
pub open spec fn octet_text(p: Seq<char>) -> bool {
    &&& 1 <= p.len() <= 3
    &&& all_digits(p)
    &&& (p.len() == 1 || p[0] != '0')
    &&& digits_value(p) <= 255
}

/// The address that dotted-decimal text denotes (`Ipv4Addr::from_str`):
/// exactly four octets separated by dots.
pub open spec fn ipv4_from_text(s: Seq<char>) -> Option<Ipv4Address> {
    let ps = split_by(s, Separator::Char('.'));
    if ps.len() == 4 && octet_text(ps[0]) && octet_text(ps[1]) && octet_text(ps[2]) && octet_text(
        ps[3],
    ) {
        Some(
            Ipv4Address(
                digits_value(ps[0]) as u8,
                digits_value(ps[1]) as u8,
                digits_value(ps[2]) as u8,
                digits_value(ps[3]) as u8,
            ),
        )
    } else {
        None
    }
}

/// The dotted-decimal text of an address (`Display for Ipv4Addr`).
pub open spec fn ipv4_text(a: Ipv4Address) -> Seq<char> {
    ((decimal(a.0 as nat).push('.') + decimal(a.1 as nat)).push('.') + decimal(a.2 as nat)).push(
        '.',
    ) + decimal(a.3 as nat)
}

/// Whether the address lies in 224.0.0.0/4 (`Ipv4Addr::is_multicast`).
pub open spec fn multicast(a: Ipv4Address) -> bool {
    224 <= a.0 && a.0 <= 239
}

/// Whether the address lies in 127.0.0.0/8 (`Ipv4Addr::is_loopback`).
pub open spec fn loopback(a: Ipv4Address) -> bool {
    a.0 == 127
}

fn octet_of(p: &[char]) -> (r: Option<u8>)
    ensures
        match r {
            Some(v) => octet_text(p@) && v == digits_value(p@),
            None => !octet_text(p@),
        },
{
    let n = p.len();
    if n < 1 || n > 3 {
        return None;
    }
    if n > 1 && p[0] == '0' {
        return None;
    }
    let mut value: u32 = 0;
    let mut i: usize = 0;
    assert(p@.take(0) == Seq::<char>::empty());
    while i < n
        invariant
            n == p@.len(),
            1 <= n <= 3,
            i <= n,
            all_digits(p@.take(i as int)),
            value == digits_value(p@.take(i as int)),
            value < 1000,
            i == 0 ==> value == 0,
            i <= 1 ==> value < 10,
            i <= 2 ==> value < 100,
        decreases n - i,
    {
        let c = p[i];
        if !((c as u32) >= 48 && (c as u32) <= 57) {
            assert(!is_digit(p@[i as int]));
            return None;
        }
        assert(p@.take(i + 1).drop_last() == p@.take(i as int));
        assert(p@.take(i + 1).last() == c);
        assert(all_digits(p@.take(i + 1))) by {
            assert forall|j: int| 0 <= j < i + 1 implies #[trigger] is_digit(p@.take(i + 1)[j]) by {
                if j < i {
                    assert(p@.take(i + 1)[j] == p@.take(i as int)[j]);
                }
            }
        }
        value = value * 10 + ((c as u32) - 48);
        i = i + 1;
    }
    assert(p@.take(n as int) == p@);
    if value > 255 {
        return None;
    }
    Some(value as u8)
}

/// Reads dotted-decimal text (`Ipv4Addr::from_str`).
pub fn parse_ipv4(s: &str) -> (r: Option<Ipv4Address>)
    ensures
        r == ipv4_from_text(s@),
{
    let chars = to_chars(s);
    let ps = split_chars(chars.as_slice(), Separator::Char('.'));
    if ps.len() != 4 {
        return None;
    }
    assert(views(ps@)[0] == ps@[0]@ && views(ps@)[1] == ps@[1]@);
    assert(views(ps@)[2] == ps@[2]@ && views(ps@)[3] == ps@[3]@);
    let a = match octet_of(ps[0].as_slice()) {
        Some(v) => v,
        None => return None,
    };
    let b = match octet_of(ps[1].as_slice()) {
        Some(v) => v,
        None => return None,
    };
    let c = match octet_of(ps[2].as_slice()) {
        Some(v) => v,
        None => return None,
    };
    let d = match octet_of(ps[3].as_slice()) {
        Some(v) => v,
        None => return None,
    };
    Some(Ipv4Address(a, b, c, d))
}

/// The dotted-decimal text of an address (`Ipv4Addr::to_string`).
pub fn ipv4_to_string(a: Ipv4Address) -> (r: String)
    ensures
        r@ == ipv4_text(a),
{
    from_chars(ipv4_chars(a).as_slice())
}

/// The dotted-decimal characters of an address.
pub fn ipv4_chars(a: Ipv4Address) -> (r: Vec<char>)
    ensures
        r@ == ipv4_text(a),
{
    let mut t = decimal_chars(a.0 as u64);
    t.push('.');
    let mut t = concat_chars(t.as_slice(), decimal_chars(a.1 as u64).as_slice());
    t.push('.');
    let mut t = concat_chars(t.as_slice(), decimal_chars(a.2 as u64).as_slice());
    t.push('.');
    concat_chars(t.as_slice(), decimal_chars(a.3 as u64).as_slice())
}

/// Whether the address is a multicast group (`Ipv4Addr::is_multicast`).
pub fn is_multicast(a: Ipv4Address) -> (r: bool)
    ensures
        r == multicast(a),
{
    224 <= a.0 && a.0 <= 239
}

/// Whether the address is a loopback address (`Ipv4Addr::is_loopback`).
pub fn is_loopback(a: Ipv4Address) -> (r: bool)
    ensures
        r == loopback(a),
{
    a.0 == 127
}

proof fn lemma_octet_text(v: u8)
    ensures
        octet_text(decimal(v as nat)),
        digits_value(decimal(v as nat)) == v,
        free_of(decimal(v as nat), Separator::Char('.')),
{
    lemma_decimal_digits(v as nat);
    let d = decimal(v as nat);
    assert forall|i: int| 0 <= i < d.len() implies !(#[trigger] d[i] == '.') by {
        assert(is_digit(d[i]));
    }
}

/// Law: the text of an address reads back as the same address.
pub proof fn lemma_ipv4_text_roundtrip(a: Ipv4Address)
    ensures
        ipv4_from_text(ipv4_text(a)) == Some(a),
{
    let sep = Separator::Char('.');
    lemma_octet_text(a.0);
    lemma_octet_text(a.1);
    lemma_octet_text(a.2);
    lemma_octet_text(a.3);
    let d0 = decimal(a.0 as nat);
    let d1 = decimal(a.1 as nat);
    let d2 = decimal(a.2 as nat);
    let d3 = decimal(a.3 as nat);
    lemma_split_single(d0, sep);
    lemma_split_append_piece(d0, '.', d1, sep);
    lemma_split_append_piece(d0.push('.') + d1, '.', d2, sep);
    lemma_split_append_piece((d0.push('.') + d1).push('.') + d2, '.', d3, sep);
    let ps = split_by(ipv4_text(a), sep);
    assert(ps == seq![d0, d1, d2, d3]);
}

/// The dotted-decimal text of an address is made of digits and dots and
/// ends with a digit.
pub proof fn lemma_ipv4_text_plain(a: Ipv4Address)
    ensures
        ipv4_text(a).len() > 0,
        is_digit(ipv4_text(a)[0]),
        is_digit(ipv4_text(a).last()),
        forall|i: int| 0 <= i < ipv4_text(a).len() ==> is_digit(#[trigger] ipv4_text(a)[i]) || ipv4_text(a)[i] == '.',
{
    lemma_decimal_digits(a.0 as nat);
    lemma_decimal_digits(a.1 as nat);
    lemma_decimal_digits(a.2 as nat);
    lemma_decimal_digits(a.3 as nat);
    let d0 = decimal(a.0 as nat);
    let d1 = decimal(a.1 as nat);
    let d2 = decimal(a.2 as nat);
    let d3 = decimal(a.3 as nat);
    let t = ipv4_text(a);
    assert(t[0] == d0[0]);
    assert(is_digit(d0[0]));
    assert(t.last() == d3.last());
    assert(is_digit(d3[d3.len() - 1]));
    assert forall|i: int| 0 <= i < t.len() implies is_digit(#[trigger] t[i]) || t[i] == '.' by {
        let n0 = d0.len() as int;
        let n1 = d1.len() as int;
        let n2 = d2.len() as int;
        if i < n0 {
            assert(t[i] == d0[i]);
            assert(is_digit(d0[i]));
        } else if i == n0 {
        } else if i < n0 + 1 + n1 {
            assert(t[i] == d1[i - n0 - 1]);
            assert(is_digit(d1[i - n0 - 1]));
        } else if i == n0 + 1 + n1 {
        } else if i < n0 + 2 + n1 + n2 {
            assert(t[i] == d2[i - n0 - 2 - n1]);
            assert(is_digit(d2[i - n0 - 2 - n1]));
        } else if i == n0 + 2 + n1 + n2 {
        } else {
            assert(t[i] == d3[i - n0 - 3 - n1 - n2]);
            assert(is_digit(d3[i - n0 - 3 - n1 - n2]));
        }
    }
}

} // verus!
