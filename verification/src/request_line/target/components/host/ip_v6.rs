//! IP v6 addresses and the layouts of their text.
//!
//! One address has many texts. Each group of four hexadecimal digits may
//! drop its leading zeros or keep some, one run of zero groups may be left
//! out as `::`, and the last two groups may be written as an IP v4 address.
//! [`ipv6_value`] reads a text as a parser would; the layouts below write
//! texts that read as the address they were made from.

use vstd::prelude::*;
use vstd::string::StringExecFns;
use proptest::test_runner::TestRng;
use crate::request_line::source::{draw_count, draw_u32, draw_index, draw_u16};
use crate::request_line::target::components::host::ip_v4::{
    ip_v4, ipv4_text, ipv4_value, lemma_decimal_text_plain, lemma_ipv4_round_trip, Ipv4Address,
};
use crate::request_line::text::{
    decimal_text, free_of, hex_digit_value, hex_text, hex_value, join, lemma_free_of_concat,
    lemma_hex_round_trip, lemma_split_join, push_char, push_hex, split,
};

verus! {

/// An IP v6 address: its eight segments of 16 bits, the first one first.
#[derive(Debug, Clone, Copy, PartialEq, Eq)]
pub struct Ipv6Address {
    pub segments: [u16; 8],
}

/// The segment that a group of one to four hexadecimal digits stands for.
pub open spec fn group_value(group: Seq<char>) -> Option<u16> {
    if 1 <= group.len() <= 4 {
        match hex_value(group) {
            Some(v) => Some(v as u16),
            None => None,
        }
    } else {
        None
    }
}

/// The segments that the groups stand for, if each of them is a group.
pub open spec fn groups_values(groups: Seq<Seq<char>>) -> Option<Seq<u16>>
    decreases groups.len(),
{
    if groups.len() == 0 {
        Some(seq![])
    } else {
        match (groups_values(groups.drop_last()), group_value(groups.last())) {
            (Some(values), Some(value)) => Some(values.push(value)),
            _ => None,
        }
    }
}

/// The groups on one side of `::`, or of a text without it: taken apart at
/// the colons, and none where the side is empty.
pub open spec fn side_groups(side: Seq<char>) -> Seq<Seq<char>> {
    if side.len() == 0 {
        seq![]
    } else {
        split(side, ':')
    }
}

/// The two segments that hold an IP v4 address.
pub open spec fn ipv4_segments(octets: Seq<u8>) -> Seq<u16> {
    seq![
        (octets[0] as int * 0x100 + octets[1] as int) as u16,
        (octets[2] as int * 0x100 + octets[3] as int) as u16,
    ]
}

/// The segments that one side stands for. Where `dotted_last` allows it, the
/// last group may be an IP v4 address, which fills two segments.
pub open spec fn side_values(side: Seq<char>, dotted_last: bool) -> Option<Seq<u16>> {
    let groups = side_groups(side);
    if dotted_last && groups.len() > 0 && groups.last().contains('.') {
        match (groups_values(groups.drop_last()), ipv4_value(groups.last())) {
            (Some(values), Some(octets)) => Some(values + ipv4_segments(octets)),
            _ => None,
        }
    } else {
        groups_values(groups)
    }
}

/// Where the first `::` of the text begins, looking from `from` on.
pub open spec fn first_double_colon(text: Seq<char>, from: int) -> Option<int>
    decreases text.len() - from,
{
    if from < 0 || from + 1 >= text.len() {
        None
    } else if text[from] == ':' && text[from + 1] == ':' {
        Some(from)
    } else {
        first_double_colon(text, from + 1)
    }
}

/// That many zero segments.
pub open spec fn zero_segments(count: int) -> Seq<u16> {
    Seq::new(count as nat, |i: int| 0u16)
}

/// The address that a text stands for, as its eight segments.
///
/// With a `::` in it, the text has the groups before it, then as many zero
/// segments as are missing, at least one, then the groups after it. Without,
/// it has all eight segments. A second `::` leaves an empty group behind,
/// which is no group, so such a text stands for nothing.
pub open spec fn ipv6_value(text: Seq<char>) -> Option<Seq<u16>> {
    match first_double_colon(text, 0) {
        Some(at) => match (
            side_values(text.take(at), false),
            side_values(text.skip(at + 2), true),
        ) {
            (Some(head), Some(tail)) => if head.len() + tail.len() <= 7 {
                Some(head + zero_segments(8 - head.len() - tail.len()) + tail)
            } else {
                None
            },
            _ => None,
        },
        None => match side_values(text, true) {
            Some(values) => if values.len() == 8 {
                Some(values)
            } else {
                None
            },
            None => None,
        },
    }
}

/// How many groups the text writes out.
pub open spec fn explicit_groups(text: Seq<char>) -> int {
    match first_double_colon(text, 0) {
        Some(at) => (side_groups(text.take(at)).len() + side_groups(text.skip(at + 2)).len())
            as int,
        None => side_groups(text).len() as int,
    }
}

/// Each group reads as the segment at its place.
pub open spec fn read_as(groups: Seq<Seq<char>>, values: Seq<u16>) -> bool {
    &&& groups.len() == values.len()
    &&& forall|i: int|
        0 <= i < groups.len() ==> group_value(#[trigger] groups[i]) == Some(values[i])
}

/// `::`
pub open spec fn double_colon() -> Seq<char> {
    seq![':', ':']
}

/// `:`
pub open spec fn colon() -> Seq<char> {
    seq![':']
}

/// All eight groups, with colons between them.
pub open spec fn uncompressed_text(groups: Seq<Seq<char>>) -> Seq<char> {
    join(groups, colon())
}

/// `::`, then the groups of the last segments.
pub open spec fn compressed_start_text(groups: Seq<Seq<char>>) -> Seq<char> {
    double_colon() + join(groups, colon())
}

/// The groups of the first segments, then `::`.
pub open spec fn compressed_end_text(groups: Seq<Seq<char>>) -> Seq<char> {
    join(groups, colon()) + double_colon()
}

/// The groups of the first segments, `::`, and the groups of the last ones.
pub open spec fn compressed_middle_text(start: Seq<Seq<char>>, end: Seq<Seq<char>>) -> Seq<char> {
    join(start, colon()) + double_colon() + join(end, colon())
}

/// `::ffff:`, then the IP v4 address in its own notation.
pub open spec fn mapped_text(octets: Seq<u8>) -> Seq<char> {
    seq![':', ':', 'f', 'f', 'f', 'f', ':'] + ipv4_text(octets)
}

/// The segments of the IP v6 address that an IP v4 address is mapped to: 80
/// zero bits, 16 one bits, and the address.
pub open spec fn mapped_segments(octets: Seq<u8>) -> Seq<u16> {
    zero_segments(5) + seq![0xFFFFu16] + ipv4_segments(octets)
}

/// Digits that stand for a number are hexadecimal digits, all of them.
pub proof fn lemma_hex_value_digits(text: Seq<char>)
    requires
        hex_value(text) is Some,
    ensures
        forall|i: int| 0 <= i < text.len() ==> hex_digit_value(#[trigger] text[i]) is Some,
    decreases text.len(),
{
    if text.len() > 1 {
        lemma_hex_value_digits(text.drop_last());
        assert forall|i: int| 0 <= i < text.len() implies hex_digit_value(#[trigger] text[i])
            is Some by {
            if i < text.len() - 1 {
                assert(text[i] == text.drop_last()[i]);
            }
        }
    }
}

/// A group is not empty and holds neither colon nor dot.
pub proof fn lemma_group_plain(group: Seq<char>)
    requires
        group_value(group) is Some,
    ensures
        group.len() >= 1,
        free_of(group, ':'),
        free_of(group, '.'),
        !group.contains('.'),
{
    lemma_hex_value_digits(group);
}

/// Groups that read as segments one by one read as those segments together.
pub proof fn lemma_groups_values(groups: Seq<Seq<char>>, values: Seq<u16>)
    requires
        read_as(groups, values),
    ensures
        groups_values(groups) == Some(values),
    decreases groups.len(),
{
    if groups.len() > 0 {
        let fewer = groups.drop_last();
        let shorter = values.drop_last();
        assert(read_as(fewer, shorter)) by {
            assert forall|i: int| 0 <= i < fewer.len() implies group_value(#[trigger] fewer[i])
                == Some(shorter[i]) by {
                assert(fewer[i] == groups[i]);
            }
        }
        lemma_groups_values(fewer, shorter);
        assert(group_value(groups[groups.len() - 1]) == Some(values[groups.len() - 1]));
        assert(shorter.push(values.last()) =~= values);
    } else {
        assert(values =~= Seq::<u16>::empty());
    }
}

/// In the text no two colons stand side by side, and none at either end.
pub open spec fn tidy(text: Seq<char>) -> bool {
    &&& forall|k: int|
        0 <= k < text.len() - 1 ==> !(#[trigger] text[k] == ':' && text[k + 1] == ':')
    &&& text.len() > 0 ==> text[0] != ':' && text.last() != ':'
}

/// Groups joined by colons make a tidy text, and taking it apart at the colons
/// gives the groups back.
pub proof fn lemma_joined_groups(groups: Seq<Seq<char>>, values: Seq<u16>)
    requires
        read_as(groups, values),
    ensures
        tidy(join(groups, colon())),
        side_groups(join(groups, colon())) == groups,
        groups.len() > 0 ==> join(groups, colon()).len() > 0,
    decreases groups.len(),
{
    let joined = join(groups, colon());
    assert forall|i: int| 0 <= i < groups.len() implies free_of(#[trigger] groups[i], ':')
        && groups[i].len() >= 1 by {
        assert(group_value(groups[i]) == Some(values[i]));
        lemma_group_plain(groups[i]);
    }
    if groups.len() == 0 {
        assert(groups =~= Seq::<Seq<char>>::empty());
    } else if groups.len() == 1 {
        lemma_split_join(groups, ':');
        assert(free_of(groups[0], ':'));
    } else {
        let fewer = groups.drop_last();
        let shorter = values.drop_last();
        assert(read_as(fewer, shorter)) by {
            assert forall|i: int| 0 <= i < fewer.len() implies group_value(#[trigger] fewer[i])
                == Some(shorter[i]) by {
                assert(fewer[i] == groups[i]);
            }
        }
        lemma_joined_groups(fewer, shorter);
        lemma_split_join(groups, ':');
        let head = join(fewer, colon());
        let last = groups.last();
        assert(free_of(last, ':'));
        assert(joined =~= head + colon() + last);
        assert forall|k: int| 0 <= k < joined.len() - 1 implies !(#[trigger] joined[k] == ':'
            && joined[k + 1] == ':') by {
            if k < head.len() - 1 {
                assert(joined[k] == head[k] && joined[k + 1] == head[k + 1]);
            } else if k == head.len() - 1 {
                assert(joined[k] == head.last());
            } else if k == head.len() {
                assert(joined[k + 1] == last[0]);
            } else {
                assert(joined[k] == last[k - head.len() - 1]);
            }
        }
        assert(joined[0] == head[0]);
        assert(joined.last() == last.last());
    }
}

/// A tidy text holds no `::`.
pub proof fn lemma_tidy_has_no_double_colon(text: Seq<char>, from: int)
    requires
        tidy(text),
        0 <= from,
    ensures
        first_double_colon(text, from) is None,
    decreases text.len() - from,
{
    if from + 1 < text.len() {
        assert(!(text[from] == ':' && text[from + 1] == ':'));
        lemma_tidy_has_no_double_colon(text, from + 1);
    }
}

/// After a tidy text, or none, a `::` is the first one.
pub proof fn lemma_first_double_colon(head: Seq<char>, tail: Seq<char>, from: int)
    requires
        tidy(head),
        0 <= from <= head.len(),
    ensures
        first_double_colon(head + double_colon() + tail, from) == Some(head.len() as int),
        (head + double_colon() + tail).take(head.len() as int) == head,
        (head + double_colon() + tail).skip(head.len() as int + 2) == tail,
    decreases head.len() - from,
{
    let text = head + double_colon() + tail;
    assert(text.take(head.len() as int) =~= head);
    assert(text.skip(head.len() as int + 2) =~= tail);
    assert(text[head.len() as int] == ':');
    assert(text[head.len() as int + 1] == ':');
    if from < head.len() {
        assert(text[from] == head[from]);
        if from + 1 < head.len() {
            assert(text[from + 1] == head[from + 1]);
            assert(!(head[from] == ':' && head[from + 1] == ':'));
        } else {
            assert(head[from] == head.last());
        }
        lemma_first_double_colon(head, tail, from + 1);
    }
}

/// One side that is groups joined by colons stands for their segments.
pub proof fn lemma_side_values(groups: Seq<Seq<char>>, values: Seq<u16>, dotted_last: bool)
    requires
        read_as(groups, values),
    ensures
        side_values(join(groups, colon()), dotted_last) == Some(values),
        side_groups(join(groups, colon())) == groups,
        tidy(join(groups, colon())),
{
    lemma_joined_groups(groups, values);
    lemma_groups_values(groups, values);
    if groups.len() > 0 {
        assert(group_value(groups[groups.len() - 1]) == Some(values[groups.len() - 1]));
        lemma_group_plain(groups.last());
    }
}

/// The text of all eight groups reads as their segments.
pub proof fn lemma_uncompressed_reads_back(groups: Seq<Seq<char>>, values: Seq<u16>)
    requires
        read_as(groups, values),
        groups.len() == 8,
    ensures
        ipv6_value(uncompressed_text(groups)) == Some(values),
        explicit_groups(uncompressed_text(groups)) == 8,
{
    lemma_side_values(groups, values, true);
    lemma_tidy_has_no_double_colon(uncompressed_text(groups), 0);
}

/// A text compressed at the start reads as zero segments followed by the
/// segments of its groups, and writes out one to seven groups.
pub proof fn lemma_compressed_start_reads_back(groups: Seq<Seq<char>>, values: Seq<u16>)
    requires
        read_as(groups, values),
        1 <= groups.len() <= 7,
    ensures
        ipv6_value(compressed_start_text(groups)) == Some(
            zero_segments(8 - values.len()) + values,
        ),
        explicit_groups(compressed_start_text(groups)) == groups.len(),
{
    let none: Seq<char> = seq![];
    let tail = join(groups, colon());
    lemma_side_values(groups, values, true);
    lemma_first_double_colon(none, tail, 0);
    assert(none + double_colon() + tail =~= compressed_start_text(groups));
    let no_values: Seq<u16> = seq![];
    assert(side_values(none, false) == Some(no_values));
    assert(no_values + zero_segments(8 - values.len()) + values =~= zero_segments(
        8 - values.len(),
    ) + values);
}

/// A text compressed at the end reads as the segments of its groups followed
/// by zero segments, and writes out one to seven groups.
pub proof fn lemma_compressed_end_reads_back(groups: Seq<Seq<char>>, values: Seq<u16>)
    requires
        read_as(groups, values),
        1 <= groups.len() <= 7,
    ensures
        ipv6_value(compressed_end_text(groups)) == Some(values + zero_segments(8 - values.len())),
        explicit_groups(compressed_end_text(groups)) == groups.len(),
{
    let none: Seq<char> = seq![];
    let head = join(groups, colon());
    lemma_side_values(groups, values, false);
    lemma_first_double_colon(head, none, 0);
    assert(head + double_colon() + none =~= compressed_end_text(groups));
    let no_values: Seq<u16> = seq![];
    assert(side_values(none, true) == Some(no_values));
    assert(values + zero_segments(8 - values.len()) + no_values =~= values + zero_segments(
        8 - values.len(),
    ));
}

/// A text compressed in the middle reads as the segments of its first groups,
/// zero segments, and the segments of its last groups, and writes out two to
/// seven groups.
pub proof fn lemma_compressed_middle_reads_back(
    start: Seq<Seq<char>>,
    start_values: Seq<u16>,
    end: Seq<Seq<char>>,
    end_values: Seq<u16>,
)
    requires
        read_as(start, start_values),
        read_as(end, end_values),
        1 <= start.len(),
        1 <= end.len(),
        start.len() + end.len() <= 7,
    ensures
        ipv6_value(compressed_middle_text(start, end)) == Some(
            start_values + zero_segments(8 - start_values.len() - end_values.len()) + end_values,
        ),
        explicit_groups(compressed_middle_text(start, end)) == start.len() + end.len(),
{
    let head = join(start, colon());
    let tail = join(end, colon());
    lemma_side_values(start, start_values, false);
    lemma_side_values(end, end_values, true);
    lemma_first_double_colon(head, tail, 0);
}

/// The text of a mapped IP v4 address reads as the segments it is mapped to.
pub proof fn lemma_mapped_reads_back(octets: Seq<u8>)
    requires
        octets.len() == 4,
    ensures
        ipv6_value(mapped_text(octets)) == Some(mapped_segments(octets)),
{
    let none: Seq<char> = seq![];
    let ones: Seq<char> = seq!['f', 'f', 'f', 'f'];
    let dotted = ipv4_text(octets);
    let groups = seq![ones, dotted];
    let tail = ones + colon() + dotted;
    lemma_hex_round_trip(0xFFFFu16, 4);
    assert(hex_text(0xFFFFu16, 4) =~= ones);
    lemma_group_plain(ones);
    lemma_ipv4_round_trip(octets);
    assert(free_of(dotted, ':')) by {
        lemma_decimal_text_plain(octets[0] as nat);
        lemma_decimal_text_plain(octets[1] as nat);
        lemma_decimal_text_plain(octets[2] as nat);
        lemma_decimal_text_plain(octets[3] as nat);
    }
    lemma_split_join(groups, ':');
    assert(groups.drop_last() =~= seq![ones]);
    assert(join(seq![ones], colon()) =~= ones);
    assert(join(groups, colon()) =~= tail);
    assert(dotted.contains('.')) by {
        let at = decimal_text(octets[0] as nat).len() as int;
        assert(dotted[at] == '.');
    }
    lemma_first_double_colon(none, tail, 0);
    assert(none + double_colon() + tail =~= mapped_text(octets));
    let no_values: Seq<u16> = seq![];
    assert(side_values(none, false) == Some(no_values));
    let sixteen_ones: Seq<u16> = seq![0xFFFFu16];
    assert(seq![ones].drop_last() =~= Seq::<Seq<char>>::empty());
    assert(groups_values(seq![ones]) == Some(sixteen_ones)) by {
        assert(groups_values(Seq::<Seq<char>>::empty()) == Some(no_values));
        assert(no_values.push(0xFFFFu16) =~= sixteen_ones);
    }
    assert(side_values(tail, true) == Some(sixteen_ones + ipv4_segments(octets)));
    assert(no_values + zero_segments(5) + (sixteen_ones + ipv4_segments(octets))
        =~= mapped_segments(octets));
}

/// The segments of rendered segments.
pub open spec fn values_of(segments: Seq<(u16, String)>) -> Seq<u16> {
    segments.map_values(|s: (u16, String)| s.0)
}

/// The groups of rendered segments.
pub open spec fn groups_of(segments: Seq<(u16, String)>) -> Seq<Seq<char>> {
    segments.map_values(|s: (u16, String)| s.1@)
}

/// Each rendered segment has a group that reads as the segment.
pub open spec fn rendered(segments: Seq<(u16, String)>) -> bool {
    forall|i: int|
        0 <= i < segments.len() ==> group_value((#[trigger] segments[i]).1@) == Some(segments[i].0)
}

/// Rendered segments have groups that read as their segments.
pub proof fn lemma_rendered_read_as(segments: Seq<(u16, String)>)
    requires
        rendered(segments),
    ensures
        read_as(groups_of(segments), values_of(segments)),
{
    assert forall|i: int| 0 <= i < groups_of(segments).len() implies group_value(
        #[trigger] groups_of(segments)[i],
    ) == Some(values_of(segments)[i]) by {
        assert(group_value(segments[i].1@) == Some(segments[i].0));
    }
}

/// A segment and its group: the segment in base sixteen, `pad` digits wide or
/// as wide as it needs to be, whichever is more.
pub fn ip_v6_segment_from(segment: u16, pad: u8) -> (out: (u16, String))
    requires
        1 <= pad <= 4,
    ensures
        out.0 == segment,
        out.1@ == hex_text(segment, pad as int),
        group_value(out.1@) == Some(segment),
{
    let mut group = String::new();
    push_hex(&mut group, segment, pad);
    proof {
        lemma_hex_round_trip(segment, pad as int);
        assert(group@ =~= hex_text(segment, pad as int));
    }
    (segment, group)
}

/// Draws a segment, any of them, and a width from one to four for its group.
fn ip_v6_segment(rng: &mut TestRng) -> (out: (u16, String))
    ensures
        group_value(out.1@) == Some(out.0),
{
    let segment: u16 = draw_u16(rng);
    let pad: u8 = draw_u32(rng, 1, 4) as u8;
    ip_v6_segment_from(segment, pad)
}

/// Draws `count` segments with their groups.
fn ip_v6_segments(rng: &mut TestRng, count: usize) -> (segments: Vec<(u16, String)>)
    ensures
        segments.len() == count,
        rendered(segments@),
{
    let mut segments: Vec<(u16, String)> = Vec::new();
    while segments.len() < count
        invariant
            segments.len() <= count,
            rendered(segments@),
        decreases count - segments.len(),
    {
        let next = ip_v6_segment(rng);
        segments.push(next);
    }
    segments
}

/// Appends the groups of the segments, with colons between them.
fn push_groups(text: &mut String, segments: &Vec<(u16, String)>)
    ensures
        final(text)@ == old(text)@ + join(groups_of(segments@), colon()),
{
    let ghost before = text@;
    let ghost groups = groups_of(segments@);
    let mut i: usize = 0;
    proof {
        assert(groups.take(0) =~= Seq::<Seq<char>>::empty());
        assert(text@ =~= before + join(groups.take(0), colon()));
    }
    while i < segments.len()
        invariant
            i <= segments.len(),
            groups == groups_of(segments@),
            text@ == before + join(groups.take(i as int), colon()),
        decreases segments.len() - i,
    {
        let ghost done = groups.take(i as int);
        let ghost next = groups.take(i + 1);
        if i > 0 {
            push_char(text, ':');
        }
        text.append(segments[i].1.as_str());
        proof {
            assert(next.drop_last() =~= done);
            assert(next.last() == segments@[i as int].1@);
            if i == 0 {
                assert(join(next, colon()) =~= next[0]);
                assert(join(done, colon()) =~= Seq::<char>::empty());
                assert(text@ =~= before + join(next, colon()));
            } else {
                assert(join(next, colon()) =~= join(done, colon()) + colon() + next.last());
                assert(text@ =~= before + join(next, colon()));
            }
        }
        i = i + 1;
    }
    proof {
        assert(groups.take(segments.len() as int) =~= groups);
    }
}

/// The eight segments with those of `segments` written over them from the
/// place `at` on.
fn placed(full: [u16; 8], at: usize, segments: &Vec<(u16, String)>) -> (out: [u16; 8])
    requires
        at + segments.len() <= 8,
    ensures
        forall|j: int|
            0 <= j < 8 ==> #[trigger] out@[j] == if at <= j < at + segments.len() {
                segments@[j - at].0
            } else {
                full@[j]
            },
{
    let mut out: [u16; 8] = full;
    let mut i: usize = 0;
    while i < segments.len()
        invariant
            i <= segments.len(),
            at + segments.len() <= 8,
            forall|j: int|
                0 <= j < 8 ==> #[trigger] out@[j] == if at <= j < at + i {
                    segments@[j - at].0
                } else {
                    full@[j]
                },
        decreases segments.len() - i,
    {
        out[at + i] = segments[i].0;
        i = i + 1;
    }
    out
}

/// The address of eight rendered segments and its text: every group written
/// out, with colons between them.
pub fn ip_v6_uncompressed_from(segments: Vec<(u16, String)>) -> (out: (Ipv6Address, String))
    requires
        segments.len() == 8,
    ensures
        out.0.segments@ == values_of(segments@),
        out.1@ == uncompressed_text(groups_of(segments@)),
{
    let full: [u16; 8] = placed([0u16; 8], 0, &segments);
    let mut text = String::new();
    push_groups(&mut text, &segments);
    proof {
        assert(full@ =~= values_of(segments@));
        assert(text@ =~= uncompressed_text(groups_of(segments@)));
    }
    (Ipv6Address { segments: full }, text)
}

/// The address whose last segments are the rendered ones and whose first are
/// zero, and its text: `::` for the zero segments, then the groups.
pub fn ip_v6_compressed_start_from(segments: Vec<(u16, String)>) -> (out: (Ipv6Address, String))
    requires
        1 <= segments.len() <= 7,
    ensures
        out.0.segments@ == zero_segments(8 - segments.len()) + values_of(segments@),
        out.1@ == compressed_start_text(groups_of(segments@)),
{
    let start_index: usize = 8 - segments.len();
    let full: [u16; 8] = placed([0u16; 8], start_index, &segments);
    proof {
        reveal_strlit("::");
        assert("::"@ =~= double_colon());
    }
    let mut text = String::from_str("::");
    push_groups(&mut text, &segments);
    proof {
        assert(full@ =~= zero_segments(8 - segments.len()) + values_of(segments@));
    }
    (Ipv6Address { segments: full }, text)
}

/// The address whose first segments are the rendered ones and whose last are
/// zero, and its text: the groups, then `::` for the zero segments.
pub fn ip_v6_compressed_end_from(segments: Vec<(u16, String)>) -> (out: (Ipv6Address, String))
    requires
        1 <= segments.len() <= 7,
    ensures
        out.0.segments@ == values_of(segments@) + zero_segments(8 - segments.len()),
        out.1@ == compressed_end_text(groups_of(segments@)),
{
    let full: [u16; 8] = placed([0u16; 8], 0, &segments);
    proof {
        reveal_strlit("::");
        assert("::"@ =~= double_colon());
    }
    let mut text = String::new();
    push_groups(&mut text, &segments);
    text.append("::");
    proof {
        assert(full@ =~= values_of(segments@) + zero_segments(8 - segments.len()));
        assert(text@ =~= compressed_end_text(groups_of(segments@)));
    }
    (Ipv6Address { segments: full }, text)
}

/// The address that begins with the first rendered segments, ends with the
/// last ones and is zero between them, and its text: the first groups, `::`
/// for the zero segments, and the last groups.
pub fn ip_v6_compressed_middle_from(
    start_segments: Vec<(u16, String)>,
    end_segments: Vec<(u16, String)>,
) -> (out: (Ipv6Address, String))
    requires
        1 <= start_segments.len(),
        1 <= end_segments.len(),
        start_segments.len() + end_segments.len() <= 7,
    ensures
        out.0.segments@ == values_of(start_segments@) + zero_segments(
            8 - start_segments.len() - end_segments.len(),
        ) + values_of(end_segments@),
        out.1@ == compressed_middle_text(groups_of(start_segments@), groups_of(end_segments@)),
{
    let head: [u16; 8] = placed([0u16; 8], 0, &start_segments);
    let end_segments_index: usize = 8 - end_segments.len();
    let full: [u16; 8] = placed(head, end_segments_index, &end_segments);
    proof {
        reveal_strlit("::");
        assert("::"@ =~= double_colon());
    }
    let mut text = String::new();
    push_groups(&mut text, &start_segments);
    text.append("::");
    push_groups(&mut text, &end_segments);
    proof {
        assert(full@ =~= values_of(start_segments@) + zero_segments(
            8 - start_segments.len() - end_segments.len(),
        ) + values_of(end_segments@));
        assert(text@ =~= compressed_middle_text(
            groups_of(start_segments@),
            groups_of(end_segments@),
        ));
    }
    (Ipv6Address { segments: full }, text)
}

/// The IP v6 address that an IP v4 address is mapped to, and its text:
/// `::ffff:` before the text of the IP v4 address.
pub fn ip_v6_mapped_ip_v4_from(ip_v4: Ipv4Address, ip_v4_repr: String) -> (out: (
    Ipv6Address,
    String,
))
    ensures
        out.0.segments@ == mapped_segments(ip_v4.octets@),
        out.1@ == seq![':', ':', 'f', 'f', 'f', 'f', ':'] + ip_v4_repr@,
{
    let octets: [u8; 4] = ip_v4.octets;
    let high: u16 = (octets[0] as u16) * 0x100 + octets[1] as u16;
    let low: u16 = (octets[2] as u16) * 0x100 + octets[3] as u16;
    let full: [u16; 8] = [0, 0, 0, 0, 0, 0xFFFF, high, low];
    proof {
        reveal_strlit("::ffff:");
        assert("::ffff:"@ =~= seq![':', ':', 'f', 'f', 'f', 'f', ':']);
        assert(full@ =~= mapped_segments(ip_v4.octets@));
    }
    let mut text = String::from_str("::ffff:");
    text.append(ip_v4_repr.as_str());
    (Ipv6Address { segments: full }, text)
}

/// The layouts of the text of an IP v6 address.
#[derive(Debug, Clone, Copy, PartialEq, Eq)]
pub enum TextLayout {
    /// All eight groups.
    Uncompressed,
    /// `::`, then one to seven groups.
    CompressedStart,
    /// One to six groups, `::`, and one or more groups, seven at most in all.
    CompressedMiddle,
    /// One to seven groups, then `::`.
    CompressedEnd,
    /// `::ffff:`, then an IP v4 address.
    MappedV4,
}

/// The text has the shape of the layout.
pub open spec fn has_layout(text: Seq<char>, layout: TextLayout) -> bool {
    let at = first_double_colon(text, 0);
    match layout {
        TextLayout::Uncompressed => at is None && explicit_groups(text) == 8,
        TextLayout::CompressedStart => at == Some(0int) && text.len() > 2 && !text.contains('.')
            && 1 <= explicit_groups(text) <= 7,
        TextLayout::CompressedMiddle => at is Some && 0 < at->0 < text.len() - 2 && 2
            <= explicit_groups(text) <= 7,
        TextLayout::CompressedEnd => at is Some && 0 < at->0 == text.len() - 2 && 1
            <= explicit_groups(text) <= 7,
        TextLayout::MappedV4 => at == Some(0int) && text.contains('.'),
    }
}

/// The layouts exclude each other: no text has the shape of two of them.
pub proof fn lemma_layouts_exclusive(text: Seq<char>, one: TextLayout, other: TextLayout)
    requires
        has_layout(text, one),
        has_layout(text, other),
    ensures
        one == other,
{
}

/// Draws an IP v6 address with all eight groups written out.
pub fn ip_v6_uncompressed(rng: &mut TestRng) -> (out: (Ipv6Address, String))
    ensures
        ipv6_value(out.1@) == Some(out.0.segments@),
        has_layout(out.1@, TextLayout::Uncompressed),
{
    let segments = ip_v6_segments(rng, 8);
    proof {
        lemma_rendered_read_as(segments@);
        lemma_uncompressed_reads_back(groups_of(segments@), values_of(segments@));
        lemma_side_values(groups_of(segments@), values_of(segments@), true);
        lemma_tidy_has_no_double_colon(uncompressed_text(groups_of(segments@)), 0);
    }
    ip_v6_uncompressed_from(segments)
}

/// Draws an IP v6 address whose first one to seven segments are zero and
/// left out.
pub fn ip_v6_compressed_start(rng: &mut TestRng) -> (out: (Ipv6Address, String))
    ensures
        ipv6_value(out.1@) == Some(out.0.segments@),
        has_layout(out.1@, TextLayout::CompressedStart),
{
    let count: usize = draw_count(rng, 1, 7);
    let segments = ip_v6_segments(rng, count);
    proof {
        let groups = groups_of(segments@);
        let values = values_of(segments@);
        lemma_rendered_read_as(segments@);
        lemma_compressed_start_reads_back(groups, values);
        lemma_side_values(groups, values, true);
        lemma_first_double_colon(Seq::<char>::empty(), join(groups, colon()), 0);
        assert(Seq::<char>::empty() + double_colon() + join(groups, colon())
            =~= compressed_start_text(groups));
        lemma_joined_plain(groups, values);
        lemma_free_of_concat(double_colon(), join(groups, colon()), '.');
    }
    ip_v6_compressed_start_from(segments)
}

/// Draws an IP v6 address whose last one to seven segments are zero and left
/// out.
pub fn ip_v6_compressed_end(rng: &mut TestRng) -> (out: (Ipv6Address, String))
    ensures
        ipv6_value(out.1@) == Some(out.0.segments@),
        has_layout(out.1@, TextLayout::CompressedEnd),
{
    let count: usize = draw_count(rng, 1, 7);
    let segments = ip_v6_segments(rng, count);
    proof {
        let groups = groups_of(segments@);
        let values = values_of(segments@);
        lemma_rendered_read_as(segments@);
        lemma_compressed_end_reads_back(groups, values);
        lemma_side_values(groups, values, false);
        lemma_first_double_colon(join(groups, colon()), Seq::<char>::empty(), 0);
        assert(join(groups, colon()) + double_colon() + Seq::<char>::empty()
            =~= compressed_end_text(groups));
    }
    ip_v6_compressed_end_from(segments)
}

/// Draws an IP v6 address with zero segments in the middle, left out: one to
/// six segments before them, and after them one or more, seven at most in
/// all.
pub fn ip_v6_compressed_middle(rng: &mut TestRng) -> (out: (Ipv6Address, String))
    ensures
        ipv6_value(out.1@) == Some(out.0.segments@),
        has_layout(out.1@, TextLayout::CompressedMiddle),
{
    let start_segment_count: usize = draw_count(rng, 1, 6);
    let start_segments = ip_v6_segments(rng, start_segment_count);
    let end_segment_count: usize = draw_count(rng, 1, 7 - start_segment_count);
    let end_segments = ip_v6_segments(rng, end_segment_count);
    proof {
        let start = groups_of(start_segments@);
        let end = groups_of(end_segments@);
        lemma_rendered_read_as(start_segments@);
        lemma_rendered_read_as(end_segments@);
        lemma_compressed_middle_reads_back(
            start,
            values_of(start_segments@),
            end,
            values_of(end_segments@),
        );
        lemma_side_values(start, values_of(start_segments@), false);
        lemma_side_values(end, values_of(end_segments@), true);
        lemma_first_double_colon(join(start, colon()), join(end, colon()), 0);
    }
    ip_v6_compressed_middle_from(start_segments, end_segments)
}

/// Draws an IP v4 address and maps it to an IP v6 address.
pub fn ip_v6_mapped_ip_v4(rng: &mut TestRng) -> (out: (Ipv6Address, String))
    ensures
        ipv6_value(out.1@) == Some(out.0.segments@),
        has_layout(out.1@, TextLayout::MappedV4),
{
    let (ip_v4, ip_v4_repr) = ip_v4(rng);
    proof {
        let octets = ip_v4.octets@;
        lemma_mapped_reads_back(octets);
        let tail = seq!['f', 'f', 'f', 'f', ':'] + ipv4_text(octets);
        lemma_first_double_colon(Seq::<char>::empty(), tail, 0);
        assert(Seq::<char>::empty() + double_colon() + tail =~= mapped_text(octets));
        let at = 7 + decimal_text(octets[0] as nat).len() as int;
        assert(mapped_text(octets)[at] == '.');
    }
    ip_v6_mapped_ip_v4_from(ip_v4, ip_v4_repr)
}

/// Draws an IP v6 address in the given layout. The text reads as the address.
pub fn ip_v6_in_layout(rng: &mut TestRng, layout: TextLayout) -> (out: (Ipv6Address, String))
    ensures
        ipv6_value(out.1@) == Some(out.0.segments@),
        has_layout(out.1@, layout),
{
    match layout {
        TextLayout::Uncompressed => ip_v6_uncompressed(rng),
        TextLayout::CompressedStart => ip_v6_compressed_start(rng),
        TextLayout::CompressedMiddle => ip_v6_compressed_middle(rng),
        TextLayout::CompressedEnd => ip_v6_compressed_end(rng),
        TextLayout::MappedV4 => ip_v6_mapped_ip_v4(rng),
    }
}

/// The layout with the given number, from nought to four.
pub fn layout_from(index: usize) -> (layout: TextLayout)
    requires
        index < 5,
    ensures
        layout == if index == 0 {
            TextLayout::Uncompressed
        } else if index == 1 {
            TextLayout::CompressedStart
        } else if index == 2 {
            TextLayout::CompressedMiddle
        } else if index == 3 {
            TextLayout::CompressedEnd
        } else {
            TextLayout::MappedV4
        },
{
    if index == 0 {
        TextLayout::Uncompressed
    } else if index == 1 {
        TextLayout::CompressedStart
    } else if index == 2 {
        TextLayout::CompressedMiddle
    } else if index == 3 {
        TextLayout::CompressedEnd
    } else {
        TextLayout::MappedV4
    }
}

/// Draws an IP v6 address in one of the five layouts, each with the same
/// chance. The text reads as the address.
pub fn ip_v6(rng: &mut TestRng) -> (out: (Ipv6Address, String))
    ensures
        ipv6_value(out.1@) == Some(out.0.segments@),
        exists|layout: TextLayout| has_layout(out.1@, layout),
{
    let layout = layout_from(draw_index(rng, 5));
    let out = ip_v6_in_layout(rng, layout);
    assert(has_layout(out.1@, layout));
    out
}

/// Groups joined by colons hold no dot.
pub proof fn lemma_joined_plain(groups: Seq<Seq<char>>, values: Seq<u16>)
    requires
        read_as(groups, values),
    ensures
        free_of(join(groups, colon()), '.'),
    decreases groups.len(),
{
    if groups.len() == 1 {
        assert(group_value(groups[0]) == Some(values[0]));
        lemma_group_plain(groups[0]);
    } else if groups.len() > 1 {
        let fewer = groups.drop_last();
        let shorter = values.drop_last();
        assert(read_as(fewer, shorter)) by {
            assert forall|i: int| 0 <= i < fewer.len() implies group_value(#[trigger] fewer[i])
                == Some(shorter[i]) by {
                assert(fewer[i] == groups[i]);
            }
        }
        lemma_joined_plain(fewer, shorter);
        assert(group_value(groups[groups.len() - 1]) == Some(values[groups.len() - 1]));
        lemma_group_plain(groups.last());
        lemma_free_of_concat(join(fewer, colon()), colon(), '.');
        lemma_free_of_concat(join(fewer, colon()) + colon(), groups.last(), '.');
    }
}

} // verus!
