//! The space of Unicode scalar values, and how a finite set of safe
//! characters splits it.

use vstd::prelude::*;

verus! {

/// The first scalar value.
pub const FIRST_SCALAR: char = '\0';

/// The last scalar value.
pub const LAST_SCALAR: char = '\u{10FFFF}';

/// The scalar value that follows `c`, as an integer. It steps over the
/// surrogate code points, and is `0x110000` after the last scalar value.
pub open spec fn next_scalar(c: char) -> int {
    if c == '\u{D7FF}' {
        0xE000
    } else {
        c as int + 1
    }
}

/// The scalar value that precedes `c`, as an integer. It steps over the
/// surrogate code points, and is `-1` before the first scalar value.
pub open spec fn prev_scalar(c: char) -> int {
    if c == '\u{E000}' {
        0xD7FF
    } else {
        c as int - 1
    }
}

/// Every character is a scalar value: a code point up to `0x10FFFF` that is no
/// surrogate.
pub proof fn lemma_char_is_scalar(c: char)
    ensures
        FIRST_SCALAR <= c <= LAST_SCALAR,
        c as int <= 0xD7FF || 0xE000 <= c as int,
{
}

/// `char::from_u32` returns the character of a scalar value, and `None` for a
/// surrogate code point or a value above `0x10FFFF`.
pub assume_specification[ char::from_u32 ](v: u32) -> (c: Option<char>)
    ensures
        c == (if v <= 0xD7FF || 0xE000 <= v <= 0x10FFFF {
            Some(v as char)
        } else {
            None::<char>
        }),
;

/// The character after `c` in the scalar-value space.
pub fn char_after(c: char) -> (n: char)
    requires
        c < LAST_SCALAR,
    ensures
        n as int == next_scalar(c),
        c < n,
{
    if c == '\u{D7FF}' {
        '\u{E000}'
    } else {
        char::from_u32(c as u32 + 1).unwrap()
    }
}

/// The character before `c` in the scalar-value space.
pub fn char_before(c: char) -> (p: char)
    requires
        FIRST_SCALAR < c,
    ensures
        p as int == prev_scalar(c),
        p < c,
{
    if c == '\u{E000}' {
        '\u{D7FF}'
    } else {
        char::from_u32(c as u32 - 1).unwrap()
    }
}

/// An inclusive range of scalar values. Surrogate code points are no scalar
/// values, so a range that spans them holds none of them.
#[derive(Clone, Copy, Debug, PartialEq, Eq)]
pub struct CodePointRange {
    pub lo: char,
    pub hi: char,
}

impl CodePointRange {
    /// A range is never empty.
    pub open spec fn wf(&self) -> bool {
        self.lo <= self.hi
    }

    /// The character lies between the two ends, or is one of them.
    pub open spec fn contains(&self, c: char) -> bool {
        self.lo <= c <= self.hi
    }

    /// How many surrogate code points lie between the two ends.
    pub open spec fn surrogates_spanned(&self) -> int {
        if self.lo <= '\u{D7FF}' && '\u{E000}' <= self.hi {
            0x800
        } else {
            0
        }
    }

    /// The number of scalar values in the range.
    pub open spec fn size(&self) -> int {
        self.hi as int - self.lo as int + 1 - self.surrogates_spanned()
    }

    /// The scalar value at `offset` from the low end, counting scalar values
    /// only.
    pub open spec fn nth(&self, offset: int) -> char {
        let v = self.lo as int + offset;
        if self.lo <= '\u{D7FF}' && v > 0xD7FF {
            (v + 0x800) as char
        } else {
            v as char
        }
    }

    /// The number of scalar values in the range.
    pub fn len(&self) -> (n: u32)
        requires
            self.wf(),
        ensures
            n == self.size(),
            n >= 1,
    {
        let span: u32 = self.hi as u32 - self.lo as u32 + 1;
        if self.lo <= '\u{D7FF}' && '\u{E000}' <= self.hi {
            span - 0x800
        } else {
            span
        }
    }

    /// The scalar value at `offset` from the low end.
    pub fn get(&self, offset: u32) -> (c: char)
        requires
            self.wf(),
            offset < self.size(),
        ensures
            c == self.nth(offset as int),
            self.contains(c),
    {
        let v: u32 = self.lo as u32 + offset;
        let w: u32 = if self.lo <= '\u{D7FF}' && v > 0xD7FF {
            v + 0x800
        } else {
            v
        };
        char::from_u32(w).unwrap()
    }
}

/// Some range of the list holds `c`.
pub open spec fn covered(ranges: Seq<CodePointRange>, c: char) -> bool {
    exists|i: int| 0 <= i < ranges.len() && #[trigger] ranges[i].contains(c)
}

/// The ranges are in ascending order, and between two neighbours lies at
/// least one scalar value: they neither overlap nor touch, so each is as large
/// as it can be.
pub open spec fn ranges_canonical(ranges: Seq<CodePointRange>) -> bool {
    &&& forall|i: int| 0 <= i < ranges.len() ==> (#[trigger] ranges[i]).wf()
    &&& forall|i: int|
        0 <= i < ranges.len() - 1 ==> next_scalar((#[trigger] ranges[i]).hi) < ranges[i + 1].lo
}

/// The characters ascend, so none of them occurs twice.
pub open spec fn strictly_increasing(s: Seq<char>) -> bool {
    forall|i: int, j: int| 0 <= i < j < s.len() ==> s[i] < s[j]
}

/// The character at an index of an ascending sequence is at least the index,
/// so such a sequence is no longer than the scalar-value space.
pub proof fn lemma_increasing_bound(s: Seq<char>, i: int)
    requires
        strictly_increasing(s),
        0 <= i < s.len(),
    ensures
        s[i] as int >= i,
        s.len() <= 0x110000,
    decreases s.len() - i,
{
    lemma_char_is_scalar(s[i]);
    lemma_char_is_scalar(s[s.len() - 1]);
    if i > 0 {
        lemma_increasing_at_least(s, i);
    }
    lemma_increasing_at_least(s, s.len() - 1);
}

proof fn lemma_increasing_at_least(s: Seq<char>, i: int)
    requires
        strictly_increasing(s),
        0 <= i < s.len(),
    ensures
        s[i] as int >= i,
    decreases i,
{
    lemma_char_is_scalar(s[i]);
    if i > 0 {
        lemma_increasing_at_least(s, i - 1);
        assert(s[i - 1] < s[i]);
    }
}

/// The range at an index of a canonical list begins no lower than the index,
/// so such a list is no longer than the scalar-value space.
pub proof fn lemma_canonical_bound(ranges: Seq<CodePointRange>, i: int)
    requires
        ranges_canonical(ranges),
        0 <= i < ranges.len(),
    ensures
        ranges[i].lo as int >= i,
        ranges.len() <= 0x110000,
{
    lemma_canonical_at_least(ranges, i);
    lemma_canonical_at_least(ranges, ranges.len() - 1);
    lemma_char_is_scalar(ranges[ranges.len() - 1].lo);
}

proof fn lemma_canonical_at_least(ranges: Seq<CodePointRange>, i: int)
    requires
        ranges_canonical(ranges),
        0 <= i < ranges.len(),
    ensures
        ranges[i].lo as int >= i,
    decreases i,
{
    lemma_char_is_scalar(ranges[i].lo);
    if i > 0 {
        lemma_canonical_at_least(ranges, i - 1);
        lemma_char_is_scalar(ranges[i - 1].hi);
        assert(ranges[i - 1].wf());
        assert(next_scalar(ranges[i - 1].hi) < ranges[i].lo);
    }
}

} // verus!
