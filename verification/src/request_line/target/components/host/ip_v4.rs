//! IP v4 addresses and their dotted text.

use vstd::prelude::*;
use proptest::test_runner::TestRng;
use crate::request_line::source::draw_u8;
use crate::request_line::text::{
    decimal_text, decimal_value, free_of, join, lemma_decimal_round_trip, lemma_split_join,
    push_char, push_decimal, split,
};

verus! {

/// An IP v4 address: its four octets, the first one first.
#[derive(Debug, Clone, Copy, PartialEq, Eq)]
pub struct Ipv4Address {
    pub octets: [u8; 4],
}

/// The four octets in base ten, with dots between them.
pub open spec fn ipv4_text(octets: Seq<u8>) -> Seq<char> {
    decimal_text(octets[0] as nat) + seq!['.'] + decimal_text(octets[1] as nat) + seq!['.']
        + decimal_text(octets[2] as nat) + seq!['.'] + decimal_text(octets[3] as nat)
}

/// The octet that a run of decimal digits stands for, if it is one.
pub open spec fn octet_value(text: Seq<char>) -> Option<u8> {
    match decimal_value(text) {
        Some(v) => if v <= 0xFF {
            Some(v as u8)
        } else {
            None
        },
        None => None,
    }
}

/// The address that a dotted text stands for: four octets in base ten, taken
/// apart at the dots.
pub open spec fn ipv4_value(text: Seq<char>) -> Option<Seq<u8>> {
    let parts = split(text, '.');
    if parts.len() == 4 {
        match (
            octet_value(parts[0]),
            octet_value(parts[1]),
            octet_value(parts[2]),
            octet_value(parts[3]),
        ) {
            (Some(a), Some(b), Some(c), Some(d)) => Some(seq![a, b, c, d]),
            _ => None,
        }
    } else {
        None
    }
}

/// The decimal text of a number holds neither dot nor colon.
pub proof fn lemma_decimal_text_plain(n: nat)
    ensures
        free_of(decimal_text(n), '.'),
        free_of(decimal_text(n), ':'),
{
    lemma_decimal_round_trip(n);
}

/// Reading the dotted text of an address gives the address back.
pub proof fn lemma_ipv4_round_trip(octets: Seq<u8>)
    requires
        octets.len() == 4,
    ensures
        ipv4_value(ipv4_text(octets)) == Some(octets),
{
    let parts = seq![
        decimal_text(octets[0] as nat),
        decimal_text(octets[1] as nat),
        decimal_text(octets[2] as nat),
        decimal_text(octets[3] as nat),
    ];
    let dot: Seq<char> = seq!['.'];
    assert forall|i: int| 0 <= i < parts.len() implies free_of(#[trigger] parts[i], '.') by {
        lemma_decimal_text_plain(octets[i] as nat);
    }
    lemma_split_join(parts, '.');
    assert(join(parts, dot) =~= ipv4_text(octets)) by {
        let three = parts.drop_last();
        let two = three.drop_last();
        let one = two.drop_last();
        assert(join(one, dot) =~= parts[0]);
        assert(join(two, dot) =~= parts[0] + dot + parts[1]);
        assert(join(three, dot) =~= parts[0] + dot + parts[1] + dot + parts[2]);
    }
    lemma_decimal_round_trip(octets[0] as nat);
    lemma_decimal_round_trip(octets[1] as nat);
    lemma_decimal_round_trip(octets[2] as nat);
    lemma_decimal_round_trip(octets[3] as nat);
    assert(seq![octets[0], octets[1], octets[2], octets[3]] =~= octets);
}

/// Appends the dotted text of four octets.
pub fn push_ipv4_text(text: &mut String, a: u8, b: u8, c: u8, d: u8)
    ensures
        final(text)@ == old(text)@ + ipv4_text(seq![a, b, c, d]),
{
    let ghost before = text@;
    push_decimal(text, a as u16);
    push_char(text, '.');
    push_decimal(text, b as u16);
    push_char(text, '.');
    push_decimal(text, c as u16);
    push_char(text, '.');
    push_decimal(text, d as u16);
    assert(text@ =~= before + ipv4_text(seq![a, b, c, d]));
}

/// The address of the four octets and its dotted text.
pub fn ip_v4_from(a: u8, b: u8, c: u8, d: u8) -> (out: (Ipv4Address, String))
    ensures
        out.0.octets@ == seq![a, b, c, d],
        out.1@ == ipv4_text(seq![a, b, c, d]),
{
    let mut text = String::new();
    push_ipv4_text(&mut text, a, b, c, d);
    let address = Ipv4Address { octets: [a, b, c, d] };
    assert(address.octets@ =~= seq![a, b, c, d]);
    (address, text)
}

/// Draws an IP v4 address, any of them, and renders it. The text reads back
/// as the address.
pub fn ip_v4(rng: &mut TestRng) -> (out: (Ipv4Address, String))
    ensures
        out.1@ == ipv4_text(out.0.octets@),
        ipv4_value(out.1@) == Some(out.0.octets@),
{
    let a: u8 = draw_u8(rng);
    let b: u8 = draw_u8(rng);
    let c: u8 = draw_u8(rng);
    let d: u8 = draw_u8(rng);
    let out = ip_v4_from(a, b, c, d);
    proof {
        lemma_ipv4_round_trip(out.0.octets@);
    }
    out
}

} // verus!
