use vstd::prelude::*;

use crate::bytes::{join_bytes, lemma_split_of_join, lemma_split_pair, split_bytes};
use crate::text::{
    decimal, digits, hexadecimal, is_digit_char, lemma_digits_value, push_digits, push_text, text,
    value_in,
};

verus! {

/// The address of the other end of a connection.
#[derive(Clone, Copy)]
pub enum PeerAddr {
    V4 { octets: [u8; 4], port: u16 },
    V6 { segments: [u16; 8], port: u16 },
}

/// `.`, between the parts of an IPv4 address.
pub const PERIOD: u8 = 46;

/// `:`, between the parts of an IPv6 address and before a port.
pub const COLON: u8 = 58;

/// `[`, before an IPv6 address.
pub const OPEN_BRACKET: u8 = 91;

/// `]`, after an IPv6 address.
pub const CLOSE_BRACKET: u8 = 93;

/// The decimal numerals of `parts`.
pub open spec fn decimals(parts: Seq<u8>) -> Seq<Seq<u8>> {
    parts.map_values(|p: u8| decimal(p as nat))
}

/// The hexadecimal numerals of `parts`.
pub open spec fn hexadecimals(parts: Seq<u16>) -> Seq<Seq<u8>> {
    parts.map_values(|p: u16| hexadecimal(p as nat))
}

/// The name of a peer, as the key under which its stream is parked:
/// `a.b.c.d:port` for IPv4, `[a:b:c:d:e:f:g:h]:port` with hexadecimal groups
/// for IPv6, and empty where the address is unknown.
pub open spec fn peer_name_of(addr: Option<PeerAddr>) -> Seq<u8> {
    match addr {
        Some(PeerAddr::V4 { octets, port }) => join_bytes(decimals(octets@), PERIOD) + text(":")
            + decimal(port as nat),
        Some(PeerAddr::V6 { segments, port }) => text("[") + join_bytes(
            hexadecimals(segments@),
            COLON,
        ) + text("]:") + decimal(port as nat),
        None => Seq::empty(),
    }
}

proof fn lemma_join_step(pieces: Seq<Seq<u8>>, i: int, sep: u8)
    requires
        0 <= i < pieces.len(),
    ensures
        join_bytes(pieces.take(i + 1), sep) == if i == 0 {
            pieces[0]
        } else {
            join_bytes(pieces.take(i), sep).push(sep) + pieces[i]
        },
{
    assert(pieces.take(i + 1).drop_last() =~= pieces.take(i));
}

/// Appends the decimal numerals of `octets`, separated by `.`.
fn push_octets(dst: &mut Vec<u8>, octets: &[u8; 4])
    ensures
        final(dst)@ == old(dst)@ + join_bytes(decimals(octets@), PERIOD),
{
    let ghost parts = decimals(octets@);
    let mut i: usize = 0;
    assert(join_bytes(parts.take(0), PERIOD) =~= Seq::<u8>::empty());
    assert(dst@ =~= old(dst)@ + join_bytes(parts.take(0), PERIOD));
    while i < 4
        invariant
            0 <= i <= 4,
            parts == decimals(octets@),
            octets@.len() == 4,
            dst@ == old(dst)@ + join_bytes(parts.take(i as int), PERIOD),
        decreases 4 - i,
    {
        proof {
            lemma_join_step(parts, i as int, PERIOD);
        }
        if i > 0 {
            dst.push(PERIOD);
        }
        push_digits(dst, octets[i] as u64, 10);
        assert(dst@ =~= old(dst)@ + join_bytes(parts.take(i + 1), PERIOD));
        i += 1;
    }
    assert(parts.take(4) =~= parts);
}

/// Appends the hexadecimal numerals of `segments`, separated by `:`.
fn push_segments(dst: &mut Vec<u8>, segments: &[u16; 8])
    ensures
        final(dst)@ == old(dst)@ + join_bytes(hexadecimals(segments@), COLON),
{
    let ghost parts = hexadecimals(segments@);
    let mut i: usize = 0;
    assert(join_bytes(parts.take(0), COLON) =~= Seq::<u8>::empty());
    assert(dst@ =~= old(dst)@ + join_bytes(parts.take(0), COLON));
    while i < 8
        invariant
            0 <= i <= 8,
            parts == hexadecimals(segments@),
            segments@.len() == 8,
            dst@ == old(dst)@ + join_bytes(parts.take(i as int), COLON),
        decreases 8 - i,
    {
        proof {
            lemma_join_step(parts, i as int, COLON);
        }
        if i > 0 {
            dst.push(COLON);
        }
        push_digits(dst, segments[i] as u64, 16);
        assert(dst@ =~= old(dst)@ + join_bytes(parts.take(i + 1), COLON));
        i += 1;
    }
    assert(parts.take(8) =~= parts);
}

/// The name of a peer; see `peer_name_of`.
pub fn peer_name(addr: Option<PeerAddr>) -> (name: Vec<u8>)
    ensures
        name@ == peer_name_of(addr),
{
    let mut name: Vec<u8> = Vec::new();
    match addr {
        Some(PeerAddr::V4 { octets, port }) => {
            push_octets(&mut name, &octets);
            push_text(&mut name, ":");
            push_digits(&mut name, port as u64, 10);
        },
        Some(PeerAddr::V6 { segments, port }) => {
            push_text(&mut name, "[");
            push_segments(&mut name, &segments);
            push_text(&mut name, "]:");
            push_digits(&mut name, port as u64, 10);
        },
        None => {},
    }
    assert(name@ =~= peer_name_of(addr));
    name
}


/// Every byte of a joined sequence is a separator or a byte of a piece.
proof fn lemma_join_bytes_in(pieces: Seq<Seq<u8>>, sep: u8, allowed: spec_fn(u8) -> bool)
    requires
        allowed(sep),
        forall|i: int, j: int|
            0 <= i < pieces.len() && 0 <= j < pieces[i].len() ==> allowed(#[trigger] pieces[i][j]),
    ensures
        forall|k: int|
            0 <= k < join_bytes(pieces, sep).len() ==> allowed(#[trigger] join_bytes(pieces, sep)[k]),
    decreases pieces.len(),
{
    if pieces.len() > 1 {
        let d = pieces.drop_last();
        assert forall|i: int, j: int| 0 <= i < d.len() && 0 <= j < d[i].len() implies allowed(
            #[trigger] d[i][j],
        ) by {
            assert(d[i] == pieces[i]);
        }
        lemma_join_bytes_in(d, sep, allowed);
        let last = pieces.last();
        assert forall|j: int| 0 <= j < last.len() implies allowed(#[trigger] last[j]) by {
            assert(pieces[pieces.len() - 1] == last);
        }
        let head = join_bytes(d, sep).push(sep);
        assert forall|k: int| 0 <= k < join_bytes(pieces, sep).len() implies allowed(
            #[trigger] join_bytes(pieces, sep)[k],
        ) by {
            if k < head.len() - 1 {
                assert(join_bytes(pieces, sep)[k] == join_bytes(d, sep)[k]);
            } else if k >= head.len() {
                assert(join_bytes(pieces, sep)[k] == last[k - head.len()]);
            }
        }
    } else if pieces.len() == 1 {
        assert forall|k: int| 0 <= k < join_bytes(pieces, sep).len() implies allowed(
            #[trigger] join_bytes(pieces, sep)[k],
        ) by {
            assert(join_bytes(pieces, sep)[k] == pieces[0][k]);
        }
    }
}

/// Numerals in base `radix` of two numbers are equal only for equal numbers.
proof fn lemma_digits_injective(a: nat, b: nat, radix: nat)
    requires
        2 <= radix <= 16,
        digits(a, radix) == digits(b, radix),
    ensures
        a == b,
{
    lemma_digits_value(a, radix);
    lemma_digits_value(b, radix);
}

/// The numerals of a sequence of octets: digits and periods only, and they
/// split back into the numerals.
proof fn lemma_octets_name(octets: [u8; 4])
    ensures
        forall|k: int|
            0 <= k < join_bytes(decimals(octets@), PERIOD).len() ==> {
                let c = #[trigger] join_bytes(decimals(octets@), PERIOD)[k];
                is_digit_char(c) || c == PERIOD
            },
        split_bytes(join_bytes(decimals(octets@), PERIOD), PERIOD) == decimals(octets@),
{
    let parts = decimals(octets@);
    assert forall|i: int, j: int| 0 <= i < parts.len() && 0 <= j < parts[i].len() implies (
    is_digit_char(#[trigger] parts[i][j]) || parts[i][j] == PERIOD) by {
        lemma_digits_value(octets@[i] as nat, 10);
    }
    lemma_join_bytes_in(parts, PERIOD, |c: u8| is_digit_char(c) || c == PERIOD);
    assert forall|i: int| 0 <= i < parts.len() implies !(#[trigger] parts[i]).contains(PERIOD) by {
        lemma_digits_value(octets@[i] as nat, 10);
        if parts[i].contains(PERIOD) {
            let j = choose|j: int| 0 <= j < parts[i].len() && parts[i][j] == PERIOD;
            assert(is_digit_char(parts[i][j]));
        }
    }
    lemma_split_of_join(parts, PERIOD);
}

/// The numerals of a sequence of segments: hexadecimal digits and colons
/// only, and they split back into the numerals.
proof fn lemma_segments_name(segments: [u16; 8])
    ensures
        forall|k: int|
            0 <= k < join_bytes(hexadecimals(segments@), COLON).len() ==> {
                let c = #[trigger] join_bytes(hexadecimals(segments@), COLON)[k];
                is_digit_char(c) || c == COLON
            },
        split_bytes(join_bytes(hexadecimals(segments@), COLON), COLON) == hexadecimals(segments@),
{
    let parts = hexadecimals(segments@);
    assert forall|i: int, j: int| 0 <= i < parts.len() && 0 <= j < parts[i].len() implies (
    is_digit_char(#[trigger] parts[i][j]) || parts[i][j] == COLON) by {
        lemma_digits_value(segments@[i] as nat, 16);
    }
    lemma_join_bytes_in(parts, COLON, |c: u8| is_digit_char(c) || c == COLON);
    assert forall|i: int| 0 <= i < parts.len() implies !(#[trigger] parts[i]).contains(COLON) by {
        lemma_digits_value(segments@[i] as nat, 16);
        if parts[i].contains(COLON) {
            let j = choose|j: int| 0 <= j < parts[i].len() && parts[i][j] == COLON;
            assert(is_digit_char(parts[i][j]));
        }
    }
    lemma_split_of_join(parts, COLON);
}

/// The texts that peer names are built from, as bytes.
proof fn lemma_name_texts()
    ensures
        text(":") == seq![COLON],
        text("[") == seq![OPEN_BRACKET],
        text("]:") == seq![CLOSE_BRACKET, COLON],
{
    reveal_strlit(":");
    reveal_strlit("[");
    reveal_strlit("]:");
    broadcast use vstd::string::group_string_axioms;

    assert(vstd::string::is_ascii(":"));
    assert(vstd::string::is_ascii("["));
    assert(vstd::string::is_ascii("]:"));
    assert(text(":") =~= seq![COLON]);
    assert(text("[") =~= seq![OPEN_BRACKET]);
    assert(text("]:") =~= seq![CLOSE_BRACKET, COLON]);
}

/// A decimal numeral holds no colon and no bracket.
proof fn lemma_decimal_plain(n: nat)
    ensures
        !decimal(n).contains(COLON),
        !decimal(n).contains(CLOSE_BRACKET),
{
    lemma_digits_value(n, 10);
    if decimal(n).contains(COLON) || decimal(n).contains(CLOSE_BRACKET) {
        let j = choose|j: int|
            0 <= j < decimal(n).len() && (decimal(n)[j] == COLON || decimal(n)[j] == CLOSE_BRACKET);
        assert(is_digit_char(digits(n, 10)[j]));
    }
}

proof fn lemma_v4_names(o1: [u8; 4], p1: u16, o2: [u8; 4], p2: u16)
    requires
        peer_name_of(Some(PeerAddr::V4 { octets: o1, port: p1 })) == peer_name_of(
            Some(PeerAddr::V4 { octets: o2, port: p2 }),
        ),
    ensures
        o1 == o2,
        p1 == p2,
{
    lemma_name_texts();
    lemma_octets_name(o1);
    lemma_octets_name(o2);
    lemma_decimal_plain(p1 as nat);
    lemma_decimal_plain(p2 as nat);
    let j1 = join_bytes(decimals(o1@), PERIOD);
    let j2 = join_bytes(decimals(o2@), PERIOD);
    assert(!j1.contains(COLON)) by {
        if j1.contains(COLON) {
            let k = choose|k: int| 0 <= k < j1.len() && j1[k] == COLON;
            assert(is_digit_char(j1[k]) || j1[k] == PERIOD);
        }
    }
    assert(!j2.contains(COLON)) by {
        if j2.contains(COLON) {
            let k = choose|k: int| 0 <= k < j2.len() && j2[k] == COLON;
            assert(is_digit_char(j2[k]) || j2[k] == PERIOD);
        }
    }
    assert(peer_name_of(Some(PeerAddr::V4 { octets: o1, port: p1 })) =~= j1.push(COLON) + decimal(
        p1 as nat,
    ));
    assert(peer_name_of(Some(PeerAddr::V4 { octets: o2, port: p2 })) =~= j2.push(COLON) + decimal(
        p2 as nat,
    ));
    lemma_split_pair(j1, decimal(p1 as nat), COLON);
    lemma_split_pair(j2, decimal(p2 as nat), COLON);
    assert(seq![j1, decimal(p1 as nat)][0] == seq![j2, decimal(p2 as nat)][0]);
    assert(seq![j1, decimal(p1 as nat)][1] == seq![j2, decimal(p2 as nat)][1]);
    lemma_digits_injective(p1 as nat, p2 as nat, 10);
    assert forall|i: int| 0 <= i < 4 implies o1[i] == o2[i] by {
        assert(decimals(o1@)[i] == decimals(o2@)[i]);
        lemma_digits_injective(o1@[i] as nat, o2@[i] as nat, 10);
    }
    assert(o1 =~= o2);
}

/// An IPv6 peer name past its `[`: the numerals, `]`, then `:` and the port,
/// with no `]` in either part.
proof fn lemma_v6_parts(segments: [u16; 8], port: u16)
    ensures
        ({
            let j = join_bytes(hexadecimals(segments@), COLON);
            let t = seq![COLON] + decimal(port as nat);
            &&& !j.contains(CLOSE_BRACKET)
            &&& !t.contains(CLOSE_BRACKET)
            &&& peer_name_of(Some(PeerAddr::V6 { segments, port })).drop_first() == j.push(
                CLOSE_BRACKET,
            ) + t
        }),
{
    lemma_name_texts();
    lemma_segments_name(segments);
    lemma_decimal_plain(port as nat);
    let j = join_bytes(hexadecimals(segments@), COLON);
    let t = seq![COLON] + decimal(port as nat);
    assert(!j.contains(CLOSE_BRACKET)) by {
        if j.contains(CLOSE_BRACKET) {
            let k = choose|k: int| 0 <= k < j.len() && j[k] == CLOSE_BRACKET;
            assert(is_digit_char(j[k]) || j[k] == COLON);
        }
    }
    assert(!t.contains(CLOSE_BRACKET)) by {
        if t.contains(CLOSE_BRACKET) {
            let k = choose|k: int| 0 <= k < t.len() && t[k] == CLOSE_BRACKET;
            assert(k > 0);
            assert(t[k] == decimal(port as nat)[k - 1]);
        }
    }
    assert(peer_name_of(Some(PeerAddr::V6 { segments, port })).drop_first() =~= j.push(
        CLOSE_BRACKET,
    ) + t);
}

proof fn lemma_v6_names(s1: [u16; 8], p1: u16, s2: [u16; 8], p2: u16)
    requires
        peer_name_of(Some(PeerAddr::V6 { segments: s1, port: p1 })) == peer_name_of(
            Some(PeerAddr::V6 { segments: s2, port: p2 }),
        ),
    ensures
        s1 == s2,
        p1 == p2,
{
    lemma_v6_parts(s1, p1);
    lemma_v6_parts(s2, p2);
    lemma_segments_name(s1);
    lemma_segments_name(s2);
    let j1 = join_bytes(hexadecimals(s1@), COLON);
    let j2 = join_bytes(hexadecimals(s2@), COLON);
    let t1 = seq![COLON] + decimal(p1 as nat);
    let t2 = seq![COLON] + decimal(p2 as nat);
    lemma_split_pair(j1, t1, CLOSE_BRACKET);
    lemma_split_pair(j2, t2, CLOSE_BRACKET);
    assert(seq![j1, t1][0] == seq![j2, t2][0]);
    assert(seq![j1, t1][1] == seq![j2, t2][1]);
    assert(decimal(p1 as nat) =~= t1.drop_first());
    assert(decimal(p2 as nat) =~= t2.drop_first());
    lemma_digits_injective(p1 as nat, p2 as nat, 10);
    assert forall|i: int| 0 <= i < 8 implies s1[i] == s2[i] by {
        assert(hexadecimals(s1@)[i] == hexadecimals(s2@)[i]);
        lemma_digits_injective(s1@[i] as nat, s2@[i] as nat, 16);
    }
    assert(s1 =~= s2);
}

/// Different peers have different names: the stream parked for one peer is
/// never taken for another.
pub proof fn law_peer_names_distinct(a: Option<PeerAddr>, b: Option<PeerAddr>)
    ensures
        peer_name_of(a) == peer_name_of(b) ==> a == b,
{
    lemma_name_texts();
    if peer_name_of(a) == peer_name_of(b) {
        match (a, b) {
            (
                Some(PeerAddr::V4 { octets: o1, port: p1 }),
                Some(PeerAddr::V4 { octets: o2, port: p2 }),
            ) => {
                lemma_v4_names(o1, p1, o2, p2);
            },
            (
                Some(PeerAddr::V6 { segments: s1, port: p1 }),
                Some(PeerAddr::V6 { segments: s2, port: p2 }),
            ) => {
                lemma_v6_names(s1, p1, s2, p2);
            },
            (Some(PeerAddr::V4 { octets, port }), Some(PeerAddr::V6 { .. })) => {
                lemma_octets_name(octets);
                let j = join_bytes(decimals(octets@), PERIOD);
                assert(peer_name_of(b)[0] == OPEN_BRACKET);
                lemma_digits_value(port as nat, 10);
                if j.len() > 0 {
                    assert(peer_name_of(a)[0] == j[0]);
                    assert(is_digit_char(j[0]) || j[0] == PERIOD);
                } else {
                    assert(peer_name_of(a)[0] == COLON);
                }
            },
            (Some(PeerAddr::V6 { .. }), Some(PeerAddr::V4 { octets, port })) => {
                lemma_octets_name(octets);
                let j = join_bytes(decimals(octets@), PERIOD);
                assert(peer_name_of(a)[0] == OPEN_BRACKET);
                if j.len() > 0 {
                    assert(peer_name_of(b)[0] == j[0]);
                    assert(is_digit_char(j[0]) || j[0] == PERIOD);
                } else {
                    assert(peer_name_of(b)[0] == COLON);
                }
            },
            (None, Some(_)) => {
                assert(peer_name_of(b).len() > 0);
            },
            (Some(_), None) => {
                assert(peer_name_of(a).len() > 0);
            },
            (None, None) => {},
        }
    }
}

} // verus!
