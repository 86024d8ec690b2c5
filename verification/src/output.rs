//! What the output channels compute: message framing, listening and target
//! addresses, the UDP broadcast address, and which TCP clients stay
//! connected.

use vstd::prelude::*;

use crate::text::{
    chars_of, decimal, decimal_string, digit_char, lacks, lemma_split_after_sep, lemma_split_single,
    split_on, split_str,
};


verus! {

/// A message as it goes on the wire: the text and a line feed.
pub fn frame_message(message: &str) -> (r: String)
    ensures
        r@ == message@ + "\n"@,
{
    let mut r = String::from_str(message);
    r.append("\n");
    r
}

/// `host:port`, as a socket address is written.
pub fn socket_address(host: &str, port: u16) -> (r: String)
    ensures
        r@ == host@ + ":"@ + decimal(port as nat),
{
    let mut r = String::from_str(host);
    r.append(":");
    let p = decimal_string(port as u32);
    r.append(p.as_str());
    r
}

/// The items whose delivery succeeded, in their order.
pub open spec fn delivered_only<T>(items: Seq<T>, delivered: Seq<bool>) -> Seq<T>
    decreases items.len(),
{
    if items.len() == 0 {
        Seq::empty()
    } else {
        let rest = delivered_only(items.drop_last(), delivered.take(items.len() - 1));
        if delivered[items.len() - 1] {
            rest.push(items.last())
        } else {
            rest
        }
    }
}

/// Keeps the clients that a message reached and drops the others, keeping
/// their order: `delivered[i]` tells whether writing to `clients[i]`
/// succeeded.
pub fn keep_delivered<T>(clients: Vec<T>, delivered: &Vec<bool>) -> (r: Vec<T>)
    requires
        delivered.len() == clients.len(),
    ensures
        r@ == delivered_only(clients@, delivered@),
{
    let ghost all = clients@;
    let n = clients.len();
    let mut rest = clients;
    let mut kept: Vec<T> = Vec::new();
    let mut i: usize = 0;
    while i < n
        invariant
            n == all.len(),
            delivered.len() == n,
            i <= n,
            rest@ == all.skip(i as int),
            kept@ == delivered_only(all.take(i as int), delivered@.take(i as int)),
        decreases n - i,
    {
        let c = rest.remove(0);
        proof {
            assert(all.take(i + 1).drop_last() =~= all.take(i as int));
            assert(delivered@.take(i + 1).take(i as int) =~= delivered@.take(i as int));
            assert(rest@ =~= all.skip(i + 1));
        }
        if delivered[i] {
            kept.push(c);
        }
        i = i + 1;
    }
    assert(all.take(n as int) =~= all);
    assert(delivered@.take(n as int) =~= delivered@);
    kept
}


/// Whether `c` is an ASCII decimal digit.
pub open spec fn is_digit(c: char) -> bool {
    48 <= (c as u32) <= 57
}

/// The value of a string of decimal digits.
pub open spec fn digits_value(d: Seq<char>) -> int
    decreases d.len(),
{
    if d.len() == 0 {
        0
    } else {
        digits_value(d.drop_last()) * 10 + ((d.last() as u32) - 48)
    }
}

/// The digits of an unsigned numeral: a leading `+` is allowed.
pub open spec fn unsigned_digits(s: Seq<char>) -> Seq<char> {
    if s.len() > 0 && s[0] == '+' {
        s.drop_first()
    } else {
        s
    }
}

/// What `u32::from_str` gives: the value of an optional `+` followed by one
/// or more decimal digits, when it fits in 32 bits.
pub open spec fn u32_of(s: Seq<char>) -> Option<u32> {
    let d = unsigned_digits(s);
    if d.len() > 0 && (forall|i: int| 0 <= i < d.len() ==> is_digit(#[trigger] d[i]))
        && digits_value(d) <= u32::MAX {
        Some(digits_value(d) as u32)
    } else {
        None
    }
}

proof fn lemma_digits_value_grows(d: Seq<char>, k: int)
    requires
        0 <= k <= d.len(),
        forall|i: int| 0 <= i < d.len() ==> is_digit(#[trigger] d[i]),
    ensures
        0 <= digits_value(d.take(k)) <= digits_value(d),
    decreases d.len(),
{
    if d.len() > 0 {
        if k == d.len() {
            assert(d.take(k) =~= d);
            lemma_digits_value_grows(d.drop_last(), k - 1);
            assert(d.drop_last().take(k - 1) =~= d.drop_last());
            assert(is_digit(d[d.len() - 1]));
        } else {
            lemma_digits_value_grows(d.drop_last(), k);
            assert(d.drop_last().take(k) =~= d.take(k));
            lemma_digits_value_grows(d.drop_last(), d.len() - 1);
            assert(d.drop_last().take(d.len() - 1) =~= d.drop_last());
            assert(is_digit(d[d.len() - 1]));
        }
    }
}

/// Parses a decimal `u32` as `u32::from_str` does.
pub fn parse_u32(s: &str) -> (r: Option<u32>)
    ensures
        r == u32_of(s@),
{
    let cs = chars_of(s);
    let n = cs.len();
    let start: usize = if n > 0 && cs[0] == '+' {
        1
    } else {
        0
    };
    let ghost d = unsigned_digits(s@);
    assert(d =~= s@.skip(start as int));
    if start == n {
        return None;
    }
    let mut acc: u64 = 0;
    let mut i: usize = start;
    while i < n
        invariant
            cs@ == s@,
            n == s@.len(),
            d == s@.skip(start as int),
            d == unsigned_digits(s@),
            start <= i <= n,
            forall|j: int| 0 <= j < i - start ==> is_digit(#[trigger] d[j]),
            acc == digits_value(d.take(i - start)),
            acc <= u32::MAX,
        decreases n - i,
    {
        let c = cs[i];
        let u = c as u32;
        if !(48 <= u && u <= 57) {
            assert(!is_digit(d[i - start]));
            assert(!(forall|j: int| 0 <= j < d.len() ==> is_digit(#[trigger] d[j])));
            return None;
        }
        assert(d.take(i + 1 - start).drop_last() =~= d.take(i - start));
        assert(d.take(i + 1 - start).last() == c);
        acc = acc * 10 + (u as u64 - 48);
        i = i + 1;
        assert(acc == digits_value(d.take(i - start)));
        if acc > 0xFFFF_FFFF {
            proof {
                if forall|j: int| 0 <= j < d.len() ==> is_digit(#[trigger] d[j]) {
                    lemma_digits_value_grows(d, i - start);
                }
            }
            return None;
        }
    }
    assert(d.take(n - start) =~= d);
    Some(acc as u32)
}

/// The values of the pieces that parse as `u32`, in order; the others are
/// skipped.
pub open spec fn parsed_values(pieces: Seq<Seq<char>>) -> Seq<u32>
    decreases pieces.len(),
{
    if pieces.len() == 0 {
        Seq::empty()
    } else {
        let rest = parsed_values(pieces.drop_last());
        match u32_of(pieces.last()) {
            Some(v) => rest.push(v),
            None => rest,
        }
    }
}

/// The numbers between the dots of an address or mask.
pub open spec fn dotted_values(s: Seq<char>) -> Seq<u32> {
    parsed_values(split_on(s, '.'))
}

/// The numbers shifted together a byte at a time, first number highest;
/// bits shifted past the top are lost.
pub open spec fn packed(values: Seq<u32>) -> u32
    decreases values.len(),
{
    if values.len() == 0 {
        0
    } else {
        ((packed(values.drop_last()) << 8u32) | values.last()) as u32
    }
}

/// The numbers between the dots of `s` that parse.
fn dotted_numbers(s: &str) -> (r: Vec<u32>)
    ensures
        r@ == dotted_values(s@),
{
    let pieces = split_str(s, '.');
    let ghost texts = pieces@.map_values(|p: &str| p@);
    let mut r: Vec<u32> = Vec::new();
    let mut i: usize = 0;
    while i < pieces.len()
        invariant
            texts == pieces@.map_values(|p: &str| p@),
            texts == split_on(s@, '.'),
            i <= pieces.len(),
            r@ == parsed_values(texts.take(i as int)),
        decreases pieces.len() - i,
    {
        assert(texts.take(i + 1).drop_last() =~= texts.take(i as int));
        assert(texts.take(i + 1).last() == pieces@[i as int]@);
        match parse_u32(pieces[i]) {
            Some(v) => r.push(v),
            None => {},
        }
        i = i + 1;
    }
    assert(texts.take(pieces.len() as int) =~= texts);
    r
}

/// Packs the numbers a byte at a time.
fn pack(values: &Vec<u32>) -> (r: u32)
    ensures
        r == packed(values@),
{
    let mut acc: u32 = 0;
    let mut i: usize = 0;
    while i < values.len()
        invariant
            i <= values.len(),
            acc == packed(values@.take(i as int)),
        decreases values.len() - i,
    {
        assert(values@.take(i + 1).drop_last() =~= values@.take(i as int));
        acc = (acc << 8u32) | values[i];
        i = i + 1;
    }
    assert(values@.take(values.len() as int) =~= values@);
    acc
}

/// `x` written as four dotted bytes, most significant first.
pub open spec fn dotted_quad(x: u32) -> Seq<char> {
    decimal(((x >> 24u32) & 0xffu32) as nat) + seq!['.'] + decimal(((x >> 16u32) & 0xffu32) as nat)
        + seq!['.'] + decimal(((x >> 8u32) & 0xffu32) as nat) + seq!['.'] + decimal(
        (x & 0xffu32) as nat,
    )
}

/// Writes `x` as four dotted bytes, most significant first.
pub fn format_dotted_quad(x: u32) -> (r: String)
    ensures
        r@ == dotted_quad(x),
{
    proof {
        reveal_strlit(".");
    }
    let mut r = decimal_string((x >> 24u32) & 0xffu32);
    r.append(".");
    let b = decimal_string((x >> 16u32) & 0xffu32);
    r.append(b.as_str());
    r.append(".");
    let b = decimal_string((x >> 8u32) & 0xffu32);
    r.append(b.as_str());
    r.append(".");
    let b = decimal_string(x & 0xffu32);
    r.append(b.as_str());
    r
}

/// The address used when no broadcast address can be computed.
pub open spec fn limited_broadcast() -> Seq<char> {
    "255.255.255.255"@
}

/// The broadcast address of the subnet that holds `local_ip`: the address
/// with every bit outside `subnet_mask` set, when the address has four
/// numbers and the mask is not zero; the limited broadcast address
/// otherwise, and when the local address is unknown.
pub open spec fn broadcast_address(subnet_mask: Seq<char>, local_ip: Option<Seq<char>>) -> Seq<
    char,
> {
    match local_ip {
        Some(ip) => {
            let mask = packed(dotted_values(subnet_mask));
            let parts = dotted_values(ip);
            if parts.len() == 4 && mask != 0 {
                dotted_quad((packed(parts) | !mask) as u32)
            } else {
                limited_broadcast()
            }
        },
        None => limited_broadcast(),
    }
}

/// Computes the broadcast address from the local machine's IPv4 address, if
/// it is known, and the subnet mask: `device_ip | !subnet_mask`.
pub fn compute_broadcast_address(subnet_mask: &str, local_ip: Option<&str>) -> (r: String)
    ensures
        r@ == broadcast_address(
            subnet_mask@,
            match local_ip {
                Some(ip) => Some(ip@),
                None => None,
            },
        ),
{
    if let Some(addr) = local_ip {
        let mask = pack(&dotted_numbers(subnet_mask));
        let parts = dotted_numbers(addr);
        if parts.len() == 4 && mask != 0 {
            let ip = pack(&parts);
            return format_dotted_quad(ip | !mask);
        }
    }
    String::from_str("255.255.255.255")
}


proof fn lemma_decimal_digits(n: nat)
    ensures
        decimal(n).len() > 0,
        forall|i: int| 0 <= i < decimal(n).len() ==> is_digit(#[trigger] decimal(n)[i]),
        digits_value(decimal(n)) == n,
    decreases n,
{
    let c = digit_char(n % 10);
    assert((c as u32) == 48 + n % 10);
    if n >= 10 {
        lemma_decimal_digits(n / 10);
        assert(decimal(n).drop_last() =~= decimal(n / 10));
        assert(decimal(n).last() == c);
        assert((n / 10) * 10 + n % 10 == n) by (nonlinear_arith);
        assert forall|i: int| 0 <= i < decimal(n).len() implies is_digit(
            #[trigger] decimal(n)[i],
        ) by {
            if i < decimal(n).len() - 1 {
                assert(decimal(n)[i] == decimal(n / 10)[i]);
            }
        }
    } else {
        assert(decimal(n).drop_last() =~= Seq::<char>::empty());
        assert(decimal(n).last() == c);
        assert(digits_value(Seq::<char>::empty()) == 0);
    }
}

/// Reading back a decimal numeral gives its value.
proof fn lemma_u32_of_decimal(n: u32)
    ensures
        u32_of(decimal(n as nat)) == Some(n),
        lacks(decimal(n as nat), '.'),
{
    lemma_decimal_digits(n as nat);
    let d = decimal(n as nat);
    assert(('+' as u32) == 43);
    assert(is_digit(d[0]));
    assert(unsigned_digits(d) == d);
    assert(('.' as u32) == 46);
    assert forall|i: int| 0 <= i < d.len() implies d[i] != '.' by {
        assert(is_digit(d[i]));
    }
}

/// Four dotted numbers, read back, are the four bytes of the number they
/// were written from, and packing them gives that number again.
pub proof fn law_dotted_quad_reads_back(x: u32)
    ensures
        dotted_values(dotted_quad(x)) == seq![
            (x >> 24u32) & 0xffu32,
            (x >> 16u32) & 0xffu32,
            (x >> 8u32) & 0xffu32,
            x & 0xffu32,
        ],
        packed(dotted_values(dotted_quad(x))) == x,
{
    let b0 = (x >> 24u32) & 0xffu32;
    let b1 = (x >> 16u32) & 0xffu32;
    let b2 = (x >> 8u32) & 0xffu32;
    let b3 = x & 0xffu32;
    let d0 = decimal(b0 as nat);
    let d1 = decimal(b1 as nat);
    let d2 = decimal(b2 as nat);
    let d3 = decimal(b3 as nat);
    lemma_u32_of_decimal(b0);
    lemma_u32_of_decimal(b1);
    lemma_u32_of_decimal(b2);
    lemma_u32_of_decimal(b3);
    lemma_split_single(d0, '.');
    lemma_split_after_sep(d0, d1, '.');
    let p1 = d0 + seq!['.'] + d1;
    lemma_split_after_sep(p1, d2, '.');
    let p2 = p1 + seq!['.'] + d2;
    lemma_split_after_sep(p2, d3, '.');
    let p3 = p2 + seq!['.'] + d3;
    assert(p3 =~= dotted_quad(x));
    let pieces = split_on(p3, '.');
    assert(pieces =~= seq![d0, d1, d2, d3]);
    assert(pieces.drop_last() =~= seq![d0, d1, d2]);
    assert(pieces.drop_last().drop_last() =~= seq![d0, d1]);
    assert(pieces.drop_last().drop_last().drop_last() =~= seq![d0]);
    assert(seq![d0].drop_last() =~= Seq::<Seq<char>>::empty());
    let vals = seq![b0, b1, b2, b3];
    assert(parsed_values(Seq::<Seq<char>>::empty()) =~= Seq::<u32>::empty());
    assert(parsed_values(seq![d0]) =~= seq![b0]);
    assert(parsed_values(seq![d0, d1]) =~= seq![b0, b1]);
    assert(parsed_values(seq![d0, d1, d2]) =~= seq![b0, b1, b2]);
    assert(parsed_values(pieces) =~= vals);
    assert(vals.drop_last() =~= seq![b0, b1, b2]);
    assert(seq![b0, b1, b2].drop_last() =~= seq![b0, b1]);
    assert(seq![b0, b1].drop_last() =~= seq![b0]);
    assert(seq![b0].drop_last() =~= Seq::<u32>::empty());
    let k0 = ((0u32 << 8u32) | b0) as u32;
    let k1 = ((k0 << 8u32) | b1) as u32;
    let k2 = ((k1 << 8u32) | b2) as u32;
    let k3 = ((k2 << 8u32) | b3) as u32;
    assert(packed(Seq::<u32>::empty()) == 0);
    assert(packed(seq![b0]) == k0);
    assert(packed(seq![b0, b1]) == k1);
    assert(packed(seq![b0, b1, b2]) == k2);
    assert(packed(vals) == k3);
    assert(k3 == x) by (bit_vector)
        requires
            b0 == (x >> 24u32) & 0xffu32,
            b1 == (x >> 16u32) & 0xffu32,
            b2 == (x >> 8u32) & 0xffu32,
            b3 == x & 0xffu32,
            k0 == ((0u32 << 8u32) | b0) as u32,
            k1 == ((k0 << 8u32) | b1) as u32,
            k2 == ((k1 << 8u32) | b2) as u32,
            k3 == ((k2 << 8u32) | b3) as u32,
    ;
}

/// The broadcast address computed for a local address of four numbers and
/// a non-zero mask reads back as the local address with every bit outside
/// the mask set: `device_ip | !subnet_mask`.
pub proof fn law_broadcast_address(subnet_mask: Seq<char>, local_ip: Seq<char>)
    requires
        dotted_values(local_ip).len() == 4,
        packed(dotted_values(subnet_mask)) != 0,
    ensures
        packed(dotted_values(broadcast_address(subnet_mask, Some(local_ip))))
            == packed(dotted_values(local_ip)) | !packed(dotted_values(subnet_mask)),
{
    let x = (packed(dotted_values(local_ip)) | !packed(dotted_values(subnet_mask))) as u32;
    law_dotted_quad_reads_back(x);
}


/// How many deliveries succeeded.
pub open spec fn count_true(flags: Seq<bool>) -> nat
    decreases flags.len(),
{
    if flags.len() == 0 {
        0
    } else {
        count_true(flags.drop_last()) + if flags.last() {
            1nat
        } else {
            0nat
        }
    }
}

/// A client stays exactly when the message reached it: as many clients
/// stay as deliveries succeeded, and the client at position `i` whose
/// delivery succeeded stays, behind exactly the successful clients before
/// it.
pub proof fn law_delivered_clients_stay<T>(items: Seq<T>, delivered: Seq<bool>)
    requires
        items.len() == delivered.len(),
    ensures
        delivered_only(items, delivered).len() == count_true(delivered),
        forall|i: int|
            0 <= i < items.len() && delivered[i] ==> count_true(#[trigger] delivered.take(i))
                < count_true(delivered) && delivered_only(items, delivered)[count_true(
                delivered.take(i),
            ) as int] == items[i],
    decreases items.len(),
{
    if items.len() > 0 {
        let n = items.len() as int;
        let front = delivered.take(n - 1);
        assert(delivered.drop_last() =~= front);
        law_delivered_clients_stay(items.drop_last(), front);
        let rest = delivered_only(items.drop_last(), front);
        let all = delivered_only(items, delivered);
        assert(all == if delivered[n - 1] {
            rest.push(items.last())
        } else {
            rest
        });
        assert(rest.len() == count_true(front));
        assert forall|i: int| 0 <= i < items.len() && delivered[i] implies count_true(
            #[trigger] delivered.take(i),
        ) < count_true(delivered) && all[count_true(delivered.take(i)) as int] == items[i] by {
            if i < n - 1 {
                assert(front.take(i) =~= delivered.take(i));
                assert(front[i] == delivered[i]);
                assert(items.drop_last()[i] == items[i]);
                assert(count_true(front.take(i)) < count_true(front));
                assert(rest[count_true(front.take(i)) as int] == items.drop_last()[i]);
            } else {
                assert(delivered.take(i) =~= front);
            }
        }
    }
}


/// A decimal numeral is non-empty, holds no `%`, and reads back as its
/// value.
pub proof fn lemma_decimal_reads_back(n: u32)
    ensures
        decimal(n as nat).len() > 0,
        lacks(decimal(n as nat), '%'),
        u32_of(decimal(n as nat)) == Some(n),
{
    lemma_decimal_digits(n as nat);
    lemma_u32_of_decimal(n);
    let d = decimal(n as nat);
    assert(('%' as u32) == 37);
    assert forall|i: int| 0 <= i < d.len() implies d[i] != '%' by {
        assert(is_digit(d[i]));
    }
}

} // verus!
