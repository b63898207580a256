//! Destination address text: dotted-decimal IPv4 and UTF-8 domain names.
use vstd::prelude::*;
use vstd::utf8::*;

verus! {

pub open spec fn is_digit(c: u8) -> bool {
    48 <= c <= 57
}

/// Decimal digits of a byte, without leading zeros.
pub open spec fn decimal(n: u8) -> Seq<u8> {
    if n < 10 {
        seq![(48 + n) as u8]
    } else if n < 100 {
        seq![(48 + n / 10) as u8, (48 + n % 10) as u8]
    } else {
        seq![(48 + n / 100) as u8, (48 + (n / 10) % 10) as u8, (48 + n % 10) as u8]
    }
}

/// Dotted-decimal text of four bytes, such as `127.0.0.1`.
pub open spec fn ipv4_text(b: Seq<u8>) -> Seq<u8> {
    decimal(b[0]) + seq![46u8] + decimal(b[1]) + seq![46u8] + decimal(b[2]) + seq![46u8] + decimal(
        b[3],
    )
}

pub open spec fn is_ipv4_text(t: Seq<u8>) -> bool {
    exists|b: Seq<u8>| b.len() == 4 && t == ipv4_text(b)
}

/// Value of a run of decimal digits.
pub open spec fn digits_value(s: Seq<u8>) -> int
    decreases s.len(),
{
    if s.len() == 0 {
        0
    } else {
        digits_value(s.drop_last()) * 10 + (s.last() - 48)
    }
}

/// The decimal field of `m` stands at `pos` and ends there (end of text or a non-digit).
pub open spec fn field_at(t: Seq<u8>, pos: int, m: u8) -> bool {
    let e = pos + decimal(m).len();
    &&& 0 <= pos
    &&& e <= t.len()
    &&& t.subrange(pos, e) == decimal(m)
    &&& (e == t.len() || !is_digit(t[e]))
}

proof fn lemma_decimal(n: u8)
    ensures
        1 <= decimal(n).len() <= 3,
        decimal(n).len() < 3 ==> n < 100,
        forall|i: int| 0 <= i < decimal(n).len() ==> is_digit(#[trigger] decimal(n)[i]),
        digits_value(decimal(n)) == n,
{
    let d = decimal(n);
    let e = Seq::<u8>::empty();
    assert(digits_value(e) == 0);
    if n < 10 {
        assert(d.drop_last() =~= e);
    } else if n < 100 {
        let d1 = d.drop_last();
        assert(d1 =~= seq![(48 + n / 10) as u8]);
        assert(d1.drop_last() =~= e);
        assert(digits_value(d1) == n / 10);
    } else {
        let d1 = d.drop_last();
        let d2 = d1.drop_last();
        assert(d2 =~= seq![(48 + n / 100) as u8]);
        assert(d2.drop_last() =~= e);
        assert(digits_value(d2) == n / 100);
        assert(digits_value(d1) == (n / 100) * 10 + (n / 10) % 10);
    }
}

proof fn lemma_ascii_utf8(t: Seq<u8>)
    requires
        forall|i: int| 0 <= i < t.len() ==> #[trigger] t[i] < 128,
    ensures
        valid_utf8(t),
        encode_utf8(decode_utf8(t)) == t,
{
    assert(valid_utf8(t.subrange(0, 0)));
    partial_valid_utf8_extend_ascii_block(t, 0, t.len() as int);
    assert(t.subrange(0, t.len() as int) =~= t);
    decode_utf8_encode_utf8(t);
}

proof fn lemma_ipv4_text_ascii(b: Seq<u8>)
    requires
        b.len() == 4,
    ensures
        forall|i: int| 0 <= i < ipv4_text(b).len() ==> #[trigger] ipv4_text(b)[i] < 128,
{
    lemma_decimal(b[0]);
    lemma_decimal(b[1]);
    lemma_decimal(b[2]);
    lemma_decimal(b[3]);
}

/// Relies on std::str::from_utf8: it succeeds exactly on valid UTF-8 and then
/// holds the text those bytes encode.
#[verifier::external_body]
fn str_from_utf8(b: &[u8]) -> (r: Option<&str>)
    ensures
        r is Some <==> valid_utf8(b@),
        r matches Some(s) ==> s@ == decode_utf8(b@),
{
    std::str::from_utf8(b).ok()
}

/// Text of UTF-8 bytes.
pub fn parse_string_from_bytes(data: &[u8]) -> (r: Result<String, crate::packet::CodecError>)
    ensures
        valid_utf8(data@) ==> (r matches Ok(s) && s@ == decode_utf8(data@)),
        !valid_utf8(data@) ==> r == Err::<String, _>(crate::packet::CodecError::InvalidEncoding),
{
    match str_from_utf8(data) {
        Some(s) => Ok(s.to_owned()),
        None => Err(crate::packet::CodecError::InvalidEncoding),
    }
}

fn push_decimal(out: &mut Vec<u8>, n: u8)
    ensures
        final(out)@ == old(out)@ + decimal(n),
{
    let ghost before = out@;
    if n < 10 {
        out.push(48 + n);
    } else if n < 100 {
        out.push(48 + n / 10);
        out.push(48 + n % 10);
    } else {
        out.push(48 + n / 100);
        out.push(48 + (n / 10) % 10);
        out.push(48 + n % 10);
    }
    assert(out@ =~= before + decimal(n));
}

/// Dotted-decimal text of the first four bytes, e.g. `[127, 0, 0, 1]` gives `127.0.0.1`.
pub fn get_ipv4_from_bytes(bytes: &[u8]) -> (r: Result<String, crate::packet::CodecError>)
    requires
        bytes@.len() >= 4,
    ensures
        r matches Ok(s) && s@ == decode_utf8(ipv4_text(bytes@.subrange(0, 4))),
        r matches Ok(s) && encode_utf8(s@) == ipv4_text(bytes@.subrange(0, 4)),
{
    let ghost b = bytes@.subrange(0, 4);
    let mut out: Vec<u8> = Vec::new();
    push_decimal(&mut out, bytes[0]);
    out.push(46);
    push_decimal(&mut out, bytes[1]);
    out.push(46);
    push_decimal(&mut out, bytes[2]);
    out.push(46);
    push_decimal(&mut out, bytes[3]);
    proof {
        assert(out@ =~= ipv4_text(b));
        lemma_ipv4_text_ascii(b);
        lemma_ascii_utf8(out@);
    }
    match str_from_utf8(out.as_slice()) {
        Some(s) => Ok(s.to_owned()),
        None => {
            assert(false);
            Err(crate::packet::CodecError::InvalidEncoding)
        },
    }
}

/// Text of a domain name.
pub fn get_domain_from_bytes(bytes: &[u8]) -> (r: Result<String, crate::packet::CodecError>)
    ensures
        valid_utf8(bytes@) ==> (r matches Ok(s) && s@ == decode_utf8(bytes@)),
        !valid_utf8(bytes@) ==> r == Err::<String, _>(crate::packet::CodecError::InvalidEncoding),
{
    parse_string_from_bytes(bytes)
}

/// Reads the decimal field of one byte at `pos`: one to three digits without a
/// leading zero, ended by the end of the text or a non-digit.
fn read_field(t: &[u8], pos: usize) -> (r: Option<(u8, usize)>)
    requires
        pos <= t@.len(),
    ensures
        r matches Some((n, e)) ==> field_at(t@, pos as int, n) && e == pos + decimal(n).len(),
        forall|m: u8| #[trigger] field_at(t@, pos as int, m) ==> r == Some((m, (pos + decimal(m).len()) as usize)),
{
    let len = t.len();
    let mut k: usize = 0;
    let mut v: u32 = 0;
    while k < 3 && k < len - pos && 48 <= t[pos + k] && t[pos + k] <= 57
        invariant
            len == t@.len(),
            pos <= len,
            k <= 3,
            pos + k <= len,
            forall|j: int| pos <= j < pos + k ==> is_digit(#[trigger] t@[j]),
            v == digits_value(t@.subrange(pos as int, pos + k)),
            k == 0 ==> v == 0,
            k == 1 ==> v < 10,
            k == 2 ==> v < 100,
            k == 3 ==> v < 1000,
        decreases 3 - k,
    {
        assert(t@.subrange(pos as int, pos + k + 1).drop_last() =~= t@.subrange(pos as int, pos + k));
        v = v * 10 + (t[pos + k] - 48) as u32;
        k = k + 1;
    }
    let ghost run = t@.subrange(pos as int, pos + k);
    proof {
        assert forall|m: u8| #[trigger] field_at(t@, pos as int, m) implies k == decimal(m).len() && v
            == m && run == decimal(m) by {
            lemma_decimal(m);
            let d = decimal(m);
            assert forall|j: int| pos <= j < pos + d.len() implies is_digit(t@[j]) by {
                assert(t@[j] == d[j - pos]);
            }
            if k < d.len() {
                assert(t@[pos + k as int] == d[k as int]);
            }
            assert(run =~= d);
        }
    }
    if k == 0 || v > 255 || (k < len - pos && 48 <= t[pos + k] && t[pos + k] <= 57) {
        return None;
    }
    let n = v as u8;
    let mut rendered: Vec<u8> = Vec::new();
    push_decimal(&mut rendered, n);
    proof {
        lemma_decimal(n);
    }
    if rendered.len() != k {
        return None;
    }
    let mut i: usize = 0;
    while i < k
        invariant
            len == t@.len(),
            i <= k,
            k == rendered@.len(),
            pos + k <= len,
            run == t@.subrange(pos as int, pos + k),
            rendered@ == decimal(n),
            n == v,
            forall|m: u8| #[trigger] field_at(t@, pos as int, m) ==> v == m && run == decimal(m),
            forall|j: int| 0 <= j < i ==> rendered@[j] == t@[pos + j],
        decreases k - i,
    {
        if rendered[i] != t[pos + i] {
            proof {
                assert forall|m: u8| #[trigger] field_at(t@, pos as int, m) implies false by {
                    assert(run[i as int] == t@[pos + i]);
                }
            }
            return None;
        }
        i = i + 1;
    }
    assert(run =~= decimal(n));
    Some((n, pos + k))
}

/// Where the four fields of `ipv4_text(b)` stand.
proof fn lemma_ipv4_text_fields(b: Seq<u8>)
    requires
        b.len() == 4,
    ensures
        ({
            let t = ipv4_text(b);
            let d0 = decimal(b[0]).len() as int;
            let d1 = decimal(b[1]).len() as int;
            let d2 = decimal(b[2]).len() as int;
            let d3 = decimal(b[3]).len() as int;
            &&& field_at(t, 0, b[0])
            &&& t[d0] == 46u8
            &&& field_at(t, d0 + 1, b[1])
            &&& t[d0 + d1 + 1] == 46u8
            &&& field_at(t, d0 + d1 + 2, b[2])
            &&& t[d0 + d1 + d2 + 2] == 46u8
            &&& field_at(t, d0 + d1 + d2 + 3, b[3])
            &&& t.len() == d0 + d1 + d2 + d3 + 3
        }),
{
    let t = ipv4_text(b);
    lemma_decimal(b[0]);
    lemma_decimal(b[1]);
    lemma_decimal(b[2]);
    lemma_decimal(b[3]);
    let d0 = decimal(b[0]).len() as int;
    let d1 = decimal(b[1]).len() as int;
    let d2 = decimal(b[2]).len() as int;
    let d3 = decimal(b[3]).len() as int;
    assert(t.subrange(0, d0) =~= decimal(b[0]));
    assert(t.subrange(d0 + 1, d0 + 1 + d1) =~= decimal(b[1]));
    assert(t.subrange(d0 + d1 + 2, d0 + d1 + 2 + d2) =~= decimal(b[2]));
    assert(t.subrange(d0 + d1 + d2 + 3, d0 + d1 + d2 + 3 + d3) =~= decimal(b[3]));
}

proof fn lemma_field_unique(t: Seq<u8>, pos: int, m1: u8, m2: u8)
    requires
        field_at(t, pos, m1),
        field_at(t, pos, m2),
    ensures
        m1 == m2,
{
    lemma_decimal(m1);
    lemma_decimal(m2);
    let d1 = decimal(m1);
    let d2 = decimal(m2);
    if d1.len() < d2.len() {
        assert(t[pos + d1.len()] == d2[d1.len() as int]);
    } else if d2.len() < d1.len() {
        assert(t[pos + d2.len()] == d1[d2.len() as int]);
    } else {
        assert(d1 =~= d2);
    }
}

/// Distinct addresses have distinct texts.
pub proof fn lemma_ipv4_text_injective(b: Seq<u8>, c: Seq<u8>)
    requires
        b.len() == 4,
        c.len() == 4,
        ipv4_text(b) == ipv4_text(c),
    ensures
        b == c,
{
    let t = ipv4_text(b);
    lemma_ipv4_text_fields(b);
    lemma_ipv4_text_fields(c);
    lemma_field_unique(t, 0, b[0], c[0]);
    let p1: int = decimal(b[0]).len() as int + 1;
    lemma_field_unique(t, p1, b[1], c[1]);
    let p2: int = p1 + decimal(b[1]).len() as int + 1;
    lemma_field_unique(t, p2, b[2], c[2]);
    let p3: int = p2 + decimal(b[2]).len() as int + 1;
    lemma_field_unique(t, p3, b[3], c[3]);
    assert(b =~= c);
}

/// The four bytes that a dotted-decimal text stands for.
pub open spec fn ipv4_bytes_of(t: Seq<u8>) -> Seq<u8> {
    choose|b: Seq<u8>| b.len() == 4 && t == ipv4_text(b)
}

proof fn lemma_fields_ipv4_text(t: Seq<u8>, v: Seq<u8>, e0: int, e1: int, e2: int)
    requires
        v.len() == 4,
        field_at(t, 0, v[0]),
        e0 == decimal(v[0]).len(),
        e0 < t.len() && t[e0] == 46u8,
        field_at(t, e0 + 1, v[1]),
        e1 == e0 + 1 + decimal(v[1]).len(),
        e1 < t.len() && t[e1] == 46u8,
        field_at(t, e1 + 1, v[2]),
        e2 == e1 + 1 + decimal(v[2]).len(),
        e2 < t.len() && t[e2] == 46u8,
        field_at(t, e2 + 1, v[3]),
        t.len() == e2 + 1 + decimal(v[3]).len(),
    ensures
        t == ipv4_text(v),
        is_ipv4_text(t),
        v == ipv4_bytes_of(t),
{
    assert(t =~= t.subrange(0, e0) + seq![46u8] + t.subrange(e0 + 1, e1) + seq![46u8] + t.subrange(
        e1 + 1,
        e2,
    ) + seq![46u8] + t.subrange(e2 + 1, t.len() as int));
    assert(t =~= ipv4_text(v));
    lemma_ipv4_text_injective(v, ipv4_bytes_of(t));
}

/// The four bytes of a dotted-decimal text, if it is one.
pub fn parse_ipv4_text(t: &[u8]) -> (r: Option<Vec<u8>>)
    ensures
        r matches Some(v) ==> v@.len() == 4 && t@ == ipv4_text(v@) && v@ == ipv4_bytes_of(t@),
        is_ipv4_text(t@) <==> r is Some,
{
    let ghost w = choose|b: Seq<u8>| b.len() == 4 && t@ == ipv4_text(b);
    proof {
        if is_ipv4_text(t@) {
            lemma_ipv4_text_fields(w);
        }
    }
    let (a, e0) = read_field(t, 0)?;
    if e0 >= t.len() || t[e0] != 46 {
        return None;
    }
    let (b, e1) = read_field(t, e0 + 1)?;
    if e1 >= t.len() || t[e1] != 46 {
        return None;
    }
    let (c, e2) = read_field(t, e1 + 1)?;
    if e2 >= t.len() || t[e2] != 46 {
        return None;
    }
    let (d, e3) = read_field(t, e2 + 1)?;
    if e3 != t.len() {
        return None;
    }
    let mut v: Vec<u8> = Vec::new();
    v.push(a);
    v.push(b);
    v.push(c);
    v.push(d);
    proof {
        lemma_fields_ipv4_text(t@, v@, e0 as int, e1 as int, e2 as int);
    }
    Some(v)
}

} // verus!
