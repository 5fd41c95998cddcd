//! Building text: digits in base ten and sixteen, and joining pieces with a
//! separator.

use vstd::prelude::*;
use vstd::string::StringExecFns;

verus! {

/// Appends one character to a `String` with `String::push`.
#[verifier::external_body]
pub(crate) fn push_char(text: &mut String, c: char)
    ensures
        final(text)@ == old(text)@.push(c),
{
    text.push(c)
}

/// The small letter of a capital ASCII letter, and every other character as
/// it is.
pub open spec fn lower(c: char) -> char {
    if 'A' <= c <= 'Z' {
        (c as int + 32) as char
    } else {
        c
    }
}

/// The capital letter of a small ASCII letter, and every other character as
/// it is.
pub open spec fn upper(c: char) -> char {
    if 'a' <= c <= 'z' {
        (c as int - 32) as char
    } else {
        c
    }
}

/// The digit of a value below sixteen, letters in lower case.
pub open spec fn hex_digit(v: int) -> char {
    if v < 10 {
        ('0' as int + v) as char
    } else {
        ('a' as int + v - 10) as char
    }
}

/// The digit of a value below ten.
pub open spec fn decimal_digit(v: int) -> char {
    ('0' as int + v) as char
}

/// The value of a hexadecimal digit of either case.
pub open spec fn hex_digit_value(c: char) -> Option<int> {
    if '0' <= c <= '9' {
        Some(c as int - '0' as int)
    } else if 'a' <= c <= 'f' {
        Some(c as int - 'a' as int + 10)
    } else if 'A' <= c <= 'F' {
        Some(c as int - 'A' as int + 10)
    } else {
        None
    }
}

/// The value of a decimal digit.
pub open spec fn decimal_digit_value(c: char) -> Option<int> {
    if '0' <= c <= '9' {
        Some(c as int - '0' as int)
    } else {
        None
    }
}

/// The digit of a value below sixteen, letters in lower case.
pub fn hex_digit_char(v: u8) -> (c: char)
    requires
        v < 16,
    ensures
        c == hex_digit(v as int),
        hex_digit_value(c) == Some(v as int),
{
    if v < 10 {
        (48u8 + v) as char
    } else {
        (87u8 + v) as char
    }
}

/// The digit of a value below ten.
pub fn decimal_digit_char(v: u8) -> (c: char)
    requires
        v < 10,
    ensures
        c == decimal_digit(v as int),
        decimal_digit_value(c) == Some(v as int),
{
    (48u8 + v) as char
}

/// A number in base ten, without leading zeros.
pub open spec fn decimal_text(n: nat) -> Seq<char>
    decreases n,
{
    if n < 10 {
        seq![decimal_digit(n as int)]
    } else {
        decimal_text(n / 10).push(decimal_digit((n % 10) as int))
    }
}

/// The number that a run of decimal digits stands for, if it is one.
pub open spec fn decimal_value(text: Seq<char>) -> Option<nat>
    decreases text.len(),
{
    if text.len() == 0 {
        None
    } else if text.len() == 1 {
        match decimal_digit_value(text[0]) {
            Some(d) => Some(d as nat),
            None => None,
        }
    } else {
        match (decimal_value(text.drop_last()), decimal_digit_value(text.last())) {
            (Some(high), Some(d)) => Some((high * 10 + d) as nat),
            _ => None,
        }
    }
}

/// Reading a number back from its decimal text gives the number.
pub proof fn lemma_decimal_round_trip(n: nat)
    ensures
        decimal_value(decimal_text(n)) == Some(n),
        decimal_text(n).len() >= 1,
        forall|i: int|
            0 <= i < decimal_text(n).len() ==> '0' <= #[trigger] decimal_text(n)[i] <= '9',
    decreases n,
{
    if n < 10 {
    } else {
        lemma_decimal_round_trip(n / 10);
        let high = decimal_text(n / 10);
        let all = decimal_text(n);
        assert(all.drop_last() =~= high);
        assert(all.last() == decimal_digit((n % 10) as int));
    }
}

/// Appends `n` in base ten.
pub fn push_decimal(text: &mut String, n: u16)
    ensures
        final(text)@ == old(text)@ + decimal_text(n as nat),
{
    let ghost before = text@;
    proof {
        reveal_with_fuel(decimal_text, 5);
    }
    if n >= 10000 {
        push_char(text, decimal_digit_char((n / 10000) as u8));
    }
    if n >= 1000 {
        push_char(text, decimal_digit_char(((n / 1000) % 10) as u8));
    }
    if n >= 100 {
        push_char(text, decimal_digit_char(((n / 100) % 10) as u8));
    }
    if n >= 10 {
        push_char(text, decimal_digit_char(((n / 10) % 10) as u8));
    }
    push_char(text, decimal_digit_char((n % 10) as u8));
    assert(text@ =~= before + decimal_text(n as nat));
}

/// How many hexadecimal digits `v` needs.
pub open spec fn hex_width(v: u16) -> int {
    if v >= 0x1000 {
        4
    } else if v >= 0x100 {
        3
    } else if v >= 0x10 {
        2
    } else {
        1
    }
}

/// `v` in base sixteen, in lower case, filled with zeros on the left up to
/// `pad` digits where it needs fewer. Four digits hold every value, so a `pad`
/// above four adds nothing.
pub open spec fn hex_text(v: u16, pad: int) -> Seq<char> {
    let d3 = hex_digit(v as int / 0x1000);
    let d2 = hex_digit((v as int / 0x100) % 16);
    let d1 = hex_digit((v as int / 0x10) % 16);
    let d0 = hex_digit(v as int % 16);
    let width = if pad > hex_width(v) {
        pad
    } else {
        hex_width(v)
    };
    if width >= 4 {
        seq![d3, d2, d1, d0]
    } else if width == 3 {
        seq![d2, d1, d0]
    } else if width == 2 {
        seq![d1, d0]
    } else {
        seq![d0]
    }
}

/// The number that a run of hexadecimal digits stands for, if it is one.
pub open spec fn hex_value(text: Seq<char>) -> Option<nat>
    decreases text.len(),
{
    if text.len() == 0 {
        None
    } else if text.len() == 1 {
        match hex_digit_value(text[0]) {
            Some(d) => Some(d as nat),
            None => None,
        }
    } else {
        match (hex_value(text.drop_last()), hex_digit_value(text.last())) {
            (Some(high), Some(d)) => Some((high * 16 + d) as nat),
            _ => None,
        }
    }
}

/// Reading a number back from its hexadecimal text gives the number, whatever
/// the padding.
pub proof fn lemma_hex_round_trip(v: u16, pad: int)
    ensures
        hex_value(hex_text(v, pad)) == Some(v as nat),
        1 <= hex_text(v, pad).len() <= 4,
        pad <= 4 ==> hex_text(v, pad).len() >= pad,
        forall|i: int|
            0 <= i < hex_text(v, pad).len() ==> hex_digit_value(#[trigger] hex_text(v, pad)[i])
                is Some,
{
    let n3 = v as int / 0x1000;
    let n2 = (v as int / 0x100) % 16;
    let n1 = (v as int / 0x10) % 16;
    let n0 = v as int % 16;
    lemma_hex_value_of_digits(n3, n2, n1, n0);
    let text = hex_text(v, pad);
    assert forall|i: int| 0 <= i < text.len() implies hex_digit_value(#[trigger] text[i])
        is Some by {
        lemma_hex_value_push(seq!['0'], n0);
        lemma_hex_value_push(seq!['0'], n1);
        lemma_hex_value_push(seq!['0'], n2);
        lemma_hex_value_push(seq!['0'], n3);
    }
}

/// What one to four hexadecimal digits stand for.
proof fn lemma_hex_value_of_digits(n3: int, n2: int, n1: int, n0: int)
    requires
        0 <= n3 < 16,
        0 <= n2 < 16,
        0 <= n1 < 16,
        0 <= n0 < 16,
    ensures
        hex_value(seq![hex_digit(n0)]) == Some(n0 as nat),
        hex_value(seq![hex_digit(n1), hex_digit(n0)]) == Some((n1 * 16 + n0) as nat),
        hex_value(seq![hex_digit(n2), hex_digit(n1), hex_digit(n0)]) == Some(
            ((n2 * 16 + n1) * 16 + n0) as nat,
        ),
        hex_value(seq![hex_digit(n3), hex_digit(n2), hex_digit(n1), hex_digit(n0)]) == Some(
            (((n3 * 16 + n2) * 16 + n1) * 16 + n0) as nat,
        ),
{
    let c3 = hex_digit(n3);
    let c2 = hex_digit(n2);
    let c1 = hex_digit(n1);
    let c0 = hex_digit(n0);
    lemma_hex_value_push(seq![c1], n0);
    assert(seq![c1].push(c0) =~= seq![c1, c0]);
    lemma_hex_value_push(seq![c2], n1);
    assert(seq![c2].push(c1) =~= seq![c2, c1]);
    lemma_hex_value_push(seq![c2, c1], n0);
    assert(seq![c2, c1].push(c0) =~= seq![c2, c1, c0]);
    lemma_hex_value_push(seq![c3], n2);
    assert(seq![c3].push(c2) =~= seq![c3, c2]);
    lemma_hex_value_push(seq![c3, c2], n1);
    assert(seq![c3, c2].push(c1) =~= seq![c3, c2, c1]);
    lemma_hex_value_push(seq![c3, c2, c1], n0);
    assert(seq![c3, c2, c1].push(c0) =~= seq![c3, c2, c1, c0]);
}

/// One more digit multiplies what stood before by sixteen and adds its value.
proof fn lemma_hex_value_push(digits: Seq<char>, d: int)
    requires
        digits.len() >= 1,
        0 <= d < 16,
    ensures
        hex_digit_value(hex_digit(d)) == Some(d),
        hex_value(seq![hex_digit(d)]) == Some(d as nat),
        hex_value(digits.push(hex_digit(d))) == match hex_value(digits) {
            Some(high) => Some((high * 16 + d) as nat),
            None => None,
        },
{
    assert(digits.push(hex_digit(d)).drop_last() =~= digits);
}

/// Appends `v` in base sixteen, at least `pad` digits wide.
pub fn push_hex(text: &mut String, v: u16, pad: u8)
    requires
        1 <= pad <= 4,
    ensures
        final(text)@ == old(text)@ + hex_text(v, pad as int),
{
    let ghost before = text@;
    if v >= 0x1000 || pad >= 4 {
        push_char(text, hex_digit_char((v / 0x1000) as u8));
    }
    if v >= 0x100 || pad >= 3 {
        push_char(text, hex_digit_char(((v / 0x100) % 16) as u8));
    }
    if v >= 0x10 || pad >= 2 {
        push_char(text, hex_digit_char(((v / 0x10) % 16) as u8));
    }
    push_char(text, hex_digit_char((v % 16) as u8));
    assert(text@ =~= before + hex_text(v, pad as int));
}

/// The texts of a sequence of strings.
pub open spec fn texts(strings: Seq<String>) -> Seq<Seq<char>> {
    strings.map_values(|s: String| s@)
}

/// The pieces one after another, with `sep` between each two.
pub open spec fn join(pieces: Seq<Seq<char>>, sep: Seq<char>) -> Seq<char>
    decreases pieces.len(),
{
    if pieces.len() == 0 {
        seq![]
    } else if pieces.len() == 1 {
        pieces[0]
    } else {
        join(pieces.drop_last(), sep) + sep + pieces.last()
    }
}

/// The pieces of `text` between the occurrences of `sep`. There is always one
/// piece more than there are separators, so no text has no pieces.
pub open spec fn split(text: Seq<char>, sep: char) -> Seq<Seq<char>>
    decreases text.len(),
{
    if text.len() == 0 {
        seq![seq![]]
    } else {
        let before = split(text.drop_last(), sep);
        if text.last() == sep {
            before.push(seq![])
        } else {
            before.drop_last().push(before.last().push(text.last()))
        }
    }
}

/// No character of the piece is `sep`.
pub open spec fn free_of(piece: Seq<char>, sep: char) -> bool {
    forall|i: int| 0 <= i < piece.len() ==> #[trigger] piece[i] != sep
}

/// Two texts without a character make one without it, and the other way
/// round.
pub proof fn lemma_free_of_concat(head: Seq<char>, tail: Seq<char>, sep: char)
    ensures
        free_of(head + tail, sep) <==> free_of(head, sep) && free_of(tail, sep),
{
    let whole = head + tail;
    if free_of(head, sep) && free_of(tail, sep) {
        assert forall|i: int| 0 <= i < whole.len() implies #[trigger] whole[i] != sep by {
            if i < head.len() {
                assert(whole[i] == head[i]);
            } else {
                assert(whole[i] == tail[i - head.len()]);
            }
        }
    }
    if free_of(whole, sep) {
        assert forall|i: int| 0 <= i < head.len() implies #[trigger] head[i] != sep by {
            assert(whole[i] == head[i]);
        }
        assert forall|i: int| 0 <= i < tail.len() implies #[trigger] tail[i] != sep by {
            assert(whole[i + head.len()] == tail[i]);
        }
    }
}

/// Every text has a piece.
pub proof fn lemma_split_nonempty(text: Seq<char>, sep: char)
    ensures
        split(text, sep).len() >= 1,
    decreases text.len(),
{
    if text.len() > 0 {
        lemma_split_nonempty(text.drop_last(), sep);
    }
}

/// A text is at least as long as its first piece.
pub proof fn lemma_split_first_len(text: Seq<char>, sep: char)
    ensures
        split(text, sep).len() >= 1,
        split(text, sep)[0].len() <= text.len(),
    decreases text.len(),
{
    if text.len() > 0 {
        lemma_split_first_len(text.drop_last(), sep);
    }
}

/// Text without a separator after `head` lengthens the last piece of `head`.
pub proof fn lemma_split_extend(head: Seq<char>, tail: Seq<char>, sep: char)
    requires
        free_of(tail, sep),
    ensures
        split(head + tail, sep) == split(head, sep).drop_last().push(
            split(head, sep).last() + tail,
        ),
    decreases tail.len(),
{
    lemma_split_nonempty(head, sep);
    let pieces = split(head, sep);
    if tail.len() == 0 {
        assert(head + tail =~= head);
        assert(pieces.last() + tail =~= pieces.last());
        assert(pieces.drop_last().push(pieces.last()) =~= pieces);
    } else {
        let shorter = tail.drop_last();
        lemma_split_extend(head, shorter, sep);
        assert((head + tail).drop_last() =~= head + shorter);
        assert((head + tail).last() == tail.last());
        let before = split(head + shorter, sep);
        assert(before.drop_last() =~= pieces.drop_last());
        assert(before.last().push(tail.last()) =~= pieces.last() + tail);
    }
}

/// A separator after `head` opens a new, empty piece.
pub proof fn lemma_split_separator(head: Seq<char>, sep: char)
    ensures
        split(head.push(sep), sep) == split(head, sep).push(seq![]),
{
    assert(head.push(sep).drop_last() =~= head);
}

/// Splitting what was joined gives the pieces back, as long as there is a
/// piece and none of them holds the separator.
pub proof fn lemma_split_join(pieces: Seq<Seq<char>>, sep: char)
    requires
        pieces.len() >= 1,
        forall|i: int| 0 <= i < pieces.len() ==> free_of(#[trigger] pieces[i], sep),
    ensures
        split(join(pieces, seq![sep]), sep) == pieces,
    decreases pieces.len(),
{
    let empty: Seq<char> = seq![];
    if pieces.len() == 1 {
        lemma_split_extend(empty, pieces[0], sep);
        assert(empty + pieces[0] =~= pieces[0]);
        assert(split(empty, sep) =~= seq![empty]);
        assert(seq![empty].drop_last().push(empty + pieces[0]) =~= pieces);
    } else {
        let init = pieces.drop_last();
        assert forall|i: int| 0 <= i < init.len() implies free_of(#[trigger] init[i], sep) by {
            assert(init[i] == pieces[i]);
        }
        lemma_split_join(init, sep);
        let head = join(init, seq![sep]);
        lemma_split_separator(head, sep);
        assert(head.push(sep) =~= head + seq![sep]);
        lemma_split_extend(head.push(sep), pieces.last(), sep);
        assert(init.push(empty).drop_last() =~= init);
        assert(empty + pieces.last() =~= pieces.last());
        assert(init.push(pieces.last()) =~= pieces);
    }
}

/// Joins the strings with `sep` between each two.
pub fn join_strings(pieces: &Vec<String>, sep: &str) -> (joined: String)
    ensures
        joined@ == join(texts(pieces@), sep@),
{
    let mut joined = String::new();
    let mut i: usize = 0;
    while i < pieces.len()
        invariant
            i <= pieces.len(),
            joined@ == join(texts(pieces@).take(i as int), sep@),
        decreases pieces.len() - i,
    {
        let ghost done = texts(pieces@).take(i as int);
        let ghost next = texts(pieces@).take(i + 1);
        if i > 0 {
            joined.append(sep);
        }
        joined.append(pieces[i].as_str());
        proof {
            assert(next.drop_last() =~= done);
            assert(next.last() == pieces@[i as int]@);
            if i == 0 {
                assert(joined@ =~= next[0]);
            }
        }
        i = i + 1;
    }
    proof {
        assert(texts(pieces@).take(pieces.len() as int) =~= texts(pieces@));
    }
    joined
}

} // verus!
