//! A character class: a finite set of safe characters, and the rest of the
//! scalar-value space as a list of ranges.

use vstd::prelude::*;
use crate::request_line::code_points::{
    char_after, char_before, covered, lemma_char_is_scalar, next_scalar, prev_scalar,
    ranges_canonical, strictly_increasing, CodePointRange, FIRST_SCALAR, LAST_SCALAR,
};

verus! {

/// `c` occurs in `v` at an index from `lo` up to, not including, `hi`.
pub open spec fn occurs_between(v: Seq<char>, lo: int, hi: int, c: char) -> bool {
    exists|k: int| lo <= k < hi && #[trigger] v[k] == c
}

/// Merges two ascending sequences without repetitions into one.
fn merge_distinct(a: &Vec<char>, b: &Vec<char>) -> (merged: Vec<char>)
    requires
        strictly_increasing(a@),
        strictly_increasing(b@),
    ensures
        strictly_increasing(merged@),
        forall|c: char| merged@.contains(c) <==> a@.contains(c) || b@.contains(c),
{
    let mut merged: Vec<char> = Vec::new();
    let mut i: usize = 0;
    let mut j: usize = 0;
    while i < a.len() || j < b.len()
        invariant
            i <= a.len(),
            j <= b.len(),
            strictly_increasing(a@),
            strictly_increasing(b@),
            strictly_increasing(merged@),
            forall|k: int|
                0 <= k < merged.len() && i < a.len() ==> #[trigger] merged[k] < a[i as int],
            forall|k: int|
                0 <= k < merged.len() && j < b.len() ==> #[trigger] merged[k] < b[j as int],
            forall|c: char|
                merged@.contains(c) <==> occurs_between(a@, 0, i as int, c) || occurs_between(
                    b@,
                    0,
                    j as int,
                    c,
                ),
        decreases a.len() - i + b.len() - j,
    {
        let ghost before = merged@;
        let ghost i0 = i as int;
        let ghost j0 = j as int;
        let next: char;
        if j >= b.len() || (i < a.len() && a[i] < b[j]) {
            next = a[i];
            i = i + 1;
        } else if i >= a.len() || b[j] < a[i] {
            next = b[j];
            j = j + 1;
        } else {
            next = a[i];
            i = i + 1;
            j = j + 1;
        }
        merged.push(next);
        proof {
            assert forall|c: char|
                merged@.contains(c) <==> occurs_between(a@, 0, i as int, c) || occurs_between(
                    b@,
                    0,
                    j as int,
                    c,
                ) by {
                if merged@.contains(c) {
                    let k = choose|k: int| 0 <= k < merged@.len() && merged@[k] == c;
                    if k < before.len() {
                        assert(before[k] == c);
                        assert(before.contains(c));
                        if occurs_between(a@, 0, i0, c) {
                            let w = choose|w: int| 0 <= w < i0 && a@[w] == c;
                            assert(0 <= w < i as int && a@[w] == c);
                        } else {
                            let w = choose|w: int| 0 <= w < j0 && b@[w] == c;
                            assert(0 <= w < j as int && b@[w] == c);
                        }
                    } else {
                        assert(c == next);
                        if i > i0 {
                            assert(a@[i0] == c);
                        } else {
                            assert(b@[j0] == c);
                        }
                    }
                }
                if occurs_between(a@, 0, i as int, c) {
                    let w = choose|w: int| 0 <= w < i as int && a@[w] == c;
                    if w < i0 {
                        assert(occurs_between(a@, 0, i0, c));
                        assert(before.contains(c));
                        let k = choose|k: int| 0 <= k < before.len() && before[k] == c;
                        assert(merged@[k] == c);
                    } else {
                        assert(merged@[before.len() as int] == c);
                    }
                }
                if occurs_between(b@, 0, j as int, c) {
                    let w = choose|w: int| 0 <= w < j as int && b@[w] == c;
                    if w < j0 {
                        assert(occurs_between(b@, 0, j0, c));
                        assert(before.contains(c));
                        let k = choose|k: int| 0 <= k < before.len() && before[k] == c;
                        assert(merged@[k] == c);
                    } else {
                        assert(merged@[before.len() as int] == c);
                    }
                }
            }
        }
    }
    proof {
        assert forall|c: char| merged@.contains(c) <==> a@.contains(c) || b@.contains(c) by {
            if a@.contains(c) {
                let w = choose|w: int| 0 <= w < a@.len() && a@[w] == c;
                assert(occurs_between(a@, 0, i as int, c));
            }
            if b@.contains(c) {
                let w = choose|w: int| 0 <= w < b@.len() && b@[w] == c;
                assert(occurs_between(b@, 0, j as int, c));
            }
        }
    }
    merged
}

/// Sorts the characters of `v` from `lo` up to `hi` and drops repetitions.
fn sorted_distinct_between(v: &[char], lo: usize, hi: usize) -> (sorted: Vec<char>)
    requires
        lo <= hi <= v.len(),
    ensures
        strictly_increasing(sorted@),
        forall|c: char| sorted@.contains(c) <==> occurs_between(v@, lo as int, hi as int, c),
    decreases hi - lo,
{
    if hi - lo == 0 {
        let sorted: Vec<char> = Vec::new();
        sorted
    } else if hi - lo == 1 {
        let mut sorted: Vec<char> = Vec::new();
        sorted.push(v[lo]);
        proof {
            assert forall|c: char| sorted@.contains(c) <==> occurs_between(
                v@,
                lo as int,
                hi as int,
                c,
            ) by {
                if sorted@.contains(c) {
                    assert(v@[lo as int] == c);
                }
                if occurs_between(v@, lo as int, hi as int, c) {
                    assert(sorted@[0] == c);
                }
            }
        }
        sorted
    } else {
        let mid: usize = lo + (hi - lo) / 2;
        let left = sorted_distinct_between(v, lo, mid);
        let right = sorted_distinct_between(v, mid, hi);
        let sorted = merge_distinct(&left, &right);
        proof {
            assert forall|c: char| sorted@.contains(c) <==> occurs_between(
                v@,
                lo as int,
                hi as int,
                c,
            ) by {
                if occurs_between(v@, lo as int, mid as int, c) {
                    let k = choose|k: int| lo <= k < mid && v@[k] == c;
                    assert(lo <= k < hi && v@[k] == c);
                }
                if occurs_between(v@, mid as int, hi as int, c) {
                    let k = choose|k: int| mid <= k < hi && v@[k] == c;
                    assert(lo <= k < hi && v@[k] == c);
                }
                if occurs_between(v@, lo as int, hi as int, c) {
                    let k = choose|k: int| lo <= k < hi && v@[k] == c;
                    if k < mid {
                        assert(occurs_between(v@, lo as int, mid as int, c));
                    } else {
                        assert(occurs_between(v@, mid as int, hi as int, c));
                    }
                }
            }
        }
        sorted
    }
}

/// The characters of `chars` in ascending order, each once.
pub fn sorted_distinct(chars: &[char]) -> (sorted: Vec<char>)
    ensures
        strictly_increasing(sorted@),
        forall|c: char| sorted@.contains(c) <==> chars@.contains(c),
{
    let sorted = sorted_distinct_between(chars, 0, chars.len());
    proof {
        assert forall|c: char| sorted@.contains(c) <==> chars@.contains(c) by {
            if chars@.contains(c) {
                let k = choose|k: int| 0 <= k < chars@.len() && chars@[k] == c;
                assert(occurs_between(chars@, 0, chars@.len() as int, c));
            }
        }
    }
    sorted
}

/// The ranges hold exactly the scalar values that are not in `safe`.
pub open spec fn complements(ranges: Seq<CodePointRange>, safe: Seq<char>) -> bool {
    forall|c: char| covered(ranges, c) <==> !safe.contains(c)
}

/// What pushing one more range does to the scalar values covered.
pub proof fn lemma_covered_push(ranges: Seq<CodePointRange>, range: CodePointRange, c: char)
    ensures
        covered(ranges.push(range), c) <==> covered(ranges, c) || range.contains(c),
{
    let longer = ranges.push(range);
    if covered(ranges, c) {
        let i = choose|i: int| 0 <= i < ranges.len() && ranges[i].contains(c);
        assert(longer[i].contains(c));
    }
    if range.contains(c) {
        assert(longer[ranges.len() as int].contains(c));
    }
    if covered(longer, c) {
        let i = choose|i: int| 0 <= i < longer.len() && longer[i].contains(c);
        if i < ranges.len() {
            assert(ranges[i].contains(c));
        }
    }
}

/// The gaps that an ascending sequence of distinct characters leaves in the
/// scalar-value space: before its first character, between two neighbours
/// that do not touch, and after its last.
fn gaps_of_sorted(sorted: &Vec<char>) -> (ranges: Vec<CodePointRange>)
    requires
        strictly_increasing(sorted@),
    ensures
        ranges_canonical(ranges@),
        complements(ranges@, sorted@),
{
    let mut ranges: Vec<CodePointRange> = Vec::new();
    if sorted.len() == 0 {
        ranges.push(CodePointRange { lo: FIRST_SCALAR, hi: LAST_SCALAR });
        proof {
            assert forall|c: char| covered(ranges@, c) <==> !sorted@.contains(c) by {
                lemma_char_is_scalar(c);
                assert(ranges@[0].contains(c));
            }
        }
        return ranges;
    }
    let first: char = sorted[0];
    proof {
        lemma_char_is_scalar(first);
    }
    if first > FIRST_SCALAR {
        let range = CodePointRange { lo: FIRST_SCALAR, hi: char_before(first) };
        ranges.push(range);
        proof {
            lemma_leading_gap(sorted@, range);
            assert(ranges@ =~= Seq::<CodePointRange>::empty().push(range));
        }
    } else {
        proof {
            assert forall|c: char| covered(ranges@, c) <==> c < first && !sorted@.contains(c) by {
                lemma_char_is_scalar(c);
            }
        }
    }
    let mut i: usize = 1;
    while i < sorted.len()
        invariant
            1 <= i <= sorted.len(),
            strictly_increasing(sorted@),
            ranges_canonical(ranges@),
            forall|k: int| 0 <= k < ranges.len() ==> (#[trigger] ranges[k]).hi < sorted[i - 1],
            forall|c: char|
                covered(ranges@, c) <==> c < sorted[i - 1] && !sorted@.contains(c),
        decreases sorted.len() - i,
    {
        let below: char = sorted[i - 1];
        let above: char = sorted[i];
        proof {
            lemma_char_is_scalar(below);
            lemma_char_is_scalar(above);
        }
        if char_after(below) < above {
            let range = CodePointRange { lo: char_after(below), hi: char_before(above) };
            proof {
                let longer = ranges@.push(range);
                assert forall|c: char|
                    covered(longer, c) <==> c < above && !sorted@.contains(c) by {
                    lemma_char_is_scalar(c);
                    lemma_covered_push(ranges@, range, c);
                    lemma_between_neighbours(sorted@, i as int, c);
                }
            }
            ranges.push(range);
        } else {
            proof {
                assert forall|c: char|
                    covered(ranges@, c) <==> c < above && !sorted@.contains(c) by {
                    lemma_char_is_scalar(c);
                    lemma_between_neighbours(sorted@, i as int, c);
                }
            }
        }
        i = i + 1;
    }
    let last: char = sorted[sorted.len() - 1];
    proof {
        lemma_char_is_scalar(last);
    }
    if last < LAST_SCALAR {
        let range = CodePointRange { lo: char_after(last), hi: LAST_SCALAR };
        proof {
            let longer = ranges@.push(range);
            assert forall|c: char| covered(longer, c) <==> !sorted@.contains(c) by {
                lemma_char_is_scalar(c);
                lemma_covered_push(ranges@, range, c);
                lemma_above_last(sorted@, c);
            }
        }
        ranges.push(range);
    } else {
        proof {
            assert forall|c: char| covered(ranges@, c) <==> !sorted@.contains(c) by {
                lemma_char_is_scalar(c);
                lemma_above_last(sorted@, c);
            }
        }
    }
    ranges
}

/// Below the first of an ascending sequence nothing is in it.
proof fn lemma_leading_gap(sorted: Seq<char>, range: CodePointRange)
    requires
        strictly_increasing(sorted),
        sorted.len() > 0,
        sorted[0] > FIRST_SCALAR,
        range.lo == FIRST_SCALAR,
        range.hi as int == prev_scalar(sorted[0]),
    ensures
        forall|c: char|
            covered(Seq::<CodePointRange>::empty().push(range), c) <==> c < sorted[0]
                && !sorted.contains(c),
{
    let ranges = Seq::<CodePointRange>::empty().push(range);
    assert forall|c: char| covered(ranges, c) <==> c < sorted[0] && !sorted.contains(c) by {
        lemma_char_is_scalar(c);
        lemma_char_is_scalar(sorted[0]);
        lemma_covered_push(Seq::<CodePointRange>::empty(), range, c);
        if c < sorted[0] && sorted.contains(c) {
            let k = choose|k: int| 0 <= k < sorted.len() && sorted[k] == c;
            assert(sorted[0] <= sorted[k]);
        }
    }
}

/// A character strictly between two neighbours of an ascending sequence is
/// not in it, and the neighbours are.
proof fn lemma_between_neighbours(sorted: Seq<char>, i: int, c: char)
    requires
        strictly_increasing(sorted),
        1 <= i < sorted.len(),
    ensures
        sorted[i - 1] < c < sorted[i] ==> !sorted.contains(c),
        sorted.contains(sorted[i - 1]),
        sorted.contains(sorted[i]),
{
    if sorted[i - 1] < c < sorted[i] && sorted.contains(c) {
        let k = choose|k: int| 0 <= k < sorted.len() && sorted[k] == c;
        if k < i - 1 {
            assert(sorted[k] < sorted[i - 1]);
        } else if k > i {
            assert(sorted[i] < sorted[k]);
        }
    }
}

/// Above the last of an ascending sequence nothing is in it, and the last is.
proof fn lemma_above_last(sorted: Seq<char>, c: char)
    requires
        strictly_increasing(sorted),
        sorted.len() > 0,
    ensures
        sorted.last() < c ==> !sorted.contains(c),
        sorted.contains(sorted.last()),
{
    if sorted.last() < c && sorted.contains(c) {
        let k = choose|k: int| 0 <= k < sorted.len() && sorted[k] == c;
        if k < sorted.len() - 1 {
            assert(sorted[k] < sorted[sorted.len() - 1]);
        }
    }
}

/// The scalar values that are not in `safe`, as the shortest list of ranges:
/// ascending, and no two of them overlapping or touching. There is one such
/// list only, as [`lemma_canonical_unique`] shows. `safe` may be in any order
/// and may repeat a character.
pub fn char_diff_intervals(safe: &[char]) -> (ranges: Vec<CodePointRange>)
    ensures
        ranges_canonical(ranges@),
        complements(ranges@, safe@),
{
    let sorted = sorted_distinct(safe);
    gaps_of_sorted(&sorted)
}

/// A set of safe characters together with everything else, the unsafe
/// characters, as ranges. The two split the scalar-value space: every
/// character is safe or lies in exactly one unsafe range, never both.
pub struct CharacterClass {
    safe: Vec<char>,
    unsafe_ranges: Vec<CodePointRange>,
}

impl CharacterClass {
    /// The safe characters, ascending, each once.
    pub closed spec fn safe(&self) -> Seq<char> {
        self.safe@
    }

    /// The unsafe characters as ranges.
    pub closed spec fn unsafe_ranges(&self) -> Seq<CodePointRange> {
        self.unsafe_ranges@
    }

    /// The character is one of the safe ones.
    pub open spec fn is_safe(&self, c: char) -> bool {
        self.safe().contains(c)
    }

    /// The character lies in one of the unsafe ranges.
    pub open spec fn is_unsafe(&self, c: char) -> bool {
        covered(self.unsafe_ranges(), c)
    }

    /// What holds of every class: the safe characters ascend, the unsafe
    /// ranges are canonical, and they hold exactly what is not safe.
    pub open spec fn wf(&self) -> bool {
        &&& strictly_increasing(self.safe())
        &&& ranges_canonical(self.unsafe_ranges())
        &&& complements(self.unsafe_ranges(), self.safe())
    }

    #[verifier::type_invariant]
    spec fn well_formed(&self) -> bool {
        self.wf()
    }

    /// The class whose safe characters are those of `safe`, which may be in
    /// any order and may repeat a character.
    pub fn new(safe: &[char]) -> (class: CharacterClass)
        ensures
            class.wf(),
            forall|c: char| #[trigger] class.is_safe(c) <==> safe@.contains(c),
    {
        let sorted = sorted_distinct(safe);
        let unsafe_ranges = gaps_of_sorted(&sorted);
        CharacterClass { safe: sorted, unsafe_ranges }
    }

    /// The safe characters, ascending, each once.
    pub fn safe_chars(&self) -> (safe: &Vec<char>)
        ensures
            safe@ == self.safe(),
            self.wf(),
    {
        proof {
            use_type_invariant(self);
        }
        &self.safe
    }

    /// The unsafe characters as ranges: ascending, and no two of them
    /// overlapping or touching.
    pub fn ranges(&self) -> (ranges: &Vec<CodePointRange>)
        ensures
            ranges@ == self.unsafe_ranges(),
            self.wf(),
    {
        proof {
            use_type_invariant(self);
        }
        &self.unsafe_ranges
    }

    /// Every character is on exactly one side of the class.
    pub proof fn lemma_partition(&self, c: char)
        requires
            self.wf(),
        ensures
            self.is_safe(c) != self.is_unsafe(c),
    {
    }

    /// Each unsafe range is as large as it can be: the character before it,
    /// if there is one, is safe, and so is the character after it.
    pub proof fn lemma_ranges_maximal(&self, i: int, c: char)
        requires
            self.wf(),
            0 <= i < self.unsafe_ranges().len(),
            c as int == prev_scalar(self.unsafe_ranges()[i].lo) || c as int == next_scalar(
                self.unsafe_ranges()[i].hi,
            ),
        ensures
            self.is_safe(c),
    {
        let ranges = self.unsafe_ranges();
        lemma_char_is_scalar(c);
        lemma_char_is_scalar(ranges[i].lo);
        lemma_char_is_scalar(ranges[i].hi);
        assert(ranges[i].wf());
        if self.is_unsafe(c) {
            let j = choose|j: int| 0 <= j < ranges.len() && #[trigger] ranges[j].contains(c);
            lemma_char_is_scalar(ranges[j].lo);
            lemma_char_is_scalar(ranges[j].hi);
            assert(ranges[j].wf());
            if j < i {
                lemma_ranges_step(ranges, j, i);
            } else if i < j {
                lemma_ranges_step(ranges, i, j);
            }
        }
    }

    /// An unsafe character lies in one range only.
    pub proof fn lemma_one_range(&self, c: char, i: int, j: int)
        requires
            self.wf(),
            0 <= i < self.unsafe_ranges().len(),
            0 <= j < self.unsafe_ranges().len(),
            self.unsafe_ranges()[i].contains(c),
            self.unsafe_ranges()[j].contains(c),
        ensures
            i == j,
    {
        lemma_holder_is_unique(self.unsafe_ranges(), i, j, c);
    }
}

/// In a canonical list a later range begins above the character after the
/// end of an earlier one.
pub proof fn lemma_ranges_step(ranges: Seq<CodePointRange>, i: int, j: int)
    requires
        ranges_canonical(ranges),
        0 <= i < j < ranges.len(),
    ensures
        next_scalar(ranges[i].hi) < ranges[j].lo,
    decreases j - i,
{
    lemma_char_is_scalar(ranges[i].hi);
    assert(next_scalar(ranges[i].hi) < ranges[i + 1].lo);
    if i + 1 < j {
        lemma_ranges_ascend(ranges, i + 1, j);
        assert(ranges[i + 1].wf());
    }
}

/// In a canonical list a later range begins above the end of an earlier one.
pub proof fn lemma_ranges_ascend(ranges: Seq<CodePointRange>, i: int, j: int)
    requires
        ranges_canonical(ranges),
        0 <= i < j < ranges.len(),
    ensures
        ranges[i].hi < ranges[j].lo,
    decreases j - i,
{
    lemma_char_is_scalar(ranges[i].hi);
    if i + 1 < j {
        lemma_ranges_ascend(ranges, i + 1, j);
        assert(ranges[i + 1].wf());
        assert(next_scalar(ranges[i].hi) < ranges[i + 1].lo);
    } else {
        assert(next_scalar(ranges[i].hi) < ranges[i + 1].lo);
    }
}

/// A character lies in one range of a canonical list at most.
proof fn lemma_holder_is_unique(ranges: Seq<CodePointRange>, i: int, j: int, c: char)
    requires
        ranges_canonical(ranges),
        0 <= i < ranges.len(),
        0 <= j < ranges.len(),
        ranges[i].contains(c),
        ranges[j].contains(c),
    ensures
        i == j,
{
    if i < j {
        lemma_ranges_ascend(ranges, i, j);
    } else if j < i {
        lemma_ranges_ascend(ranges, j, i);
    }
}

/// Two canonical lists that hold the same characters begin with the same
/// ranges, as far as both reach.
proof fn lemma_canonical_prefix(a: Seq<CodePointRange>, b: Seq<CodePointRange>, count: int)
    requires
        ranges_canonical(a),
        ranges_canonical(b),
        forall|c: char| covered(a, c) <==> covered(b, c),
        0 <= count <= a.len(),
        count <= b.len(),
    ensures
        forall|k: int| 0 <= k < count ==> a[k] == b[k],
    decreases count,
{
    if count > 0 {
        lemma_canonical_prefix(a, b, count - 1);
        let i = count - 1;
        lemma_same_low_end(a, b, i);
        lemma_same_low_end(b, a, i);
        lemma_no_higher_end(a, b, i);
        lemma_no_higher_end(b, a, i);
    }
}

/// Where two canonical lists hold the same characters and agree before `i`,
/// the range of the one at `i` begins no lower than that of the other.
proof fn lemma_same_low_end(a: Seq<CodePointRange>, b: Seq<CodePointRange>, i: int)
    requires
        ranges_canonical(a),
        ranges_canonical(b),
        forall|c: char| covered(a, c) <==> covered(b, c),
        0 <= i < a.len(),
        i < b.len(),
        forall|k: int| 0 <= k < i ==> a[k] == b[k],
    ensures
        b[i].lo <= a[i].lo,
{
    let c = a[i].lo;
    assert(a[i].wf());
    assert(a[i].contains(c));
    assert(covered(b, c));
    let j = choose|j: int| 0 <= j < b.len() && #[trigger] b[j].contains(c);
    if j < i {
        assert(a[j] == b[j]);
        lemma_holder_is_unique(a, i, j, c);
    } else if j > i {
        lemma_ranges_ascend(b, i, j);
        assert(b[i].wf());
    }
}

/// Where two canonical lists hold the same characters, agree before `i` and
/// begin alike at `i`, the range of the one at `i` ends no higher than that
/// of the other.
proof fn lemma_no_higher_end(a: Seq<CodePointRange>, b: Seq<CodePointRange>, i: int)
    requires
        ranges_canonical(a),
        ranges_canonical(b),
        forall|c: char| covered(a, c) <==> covered(b, c),
        0 <= i < a.len(),
        i < b.len(),
        forall|k: int| 0 <= k < i ==> a[k] == b[k],
        a[i].lo == b[i].lo,
    ensures
        a[i].hi <= b[i].hi,
{
    let c = a[i].hi;
    assert(a[i].wf());
    assert(b[i].wf());
    assert(a[i].contains(c));
    assert(covered(b, c));
    let j = choose|j: int| 0 <= j < b.len() && #[trigger] b[j].contains(c);
    if j < i {
        assert(a[j] == b[j]);
        lemma_holder_is_unique(a, i, j, c);
    } else if j > i {
        lemma_ranges_step(b, i, j);
        lemma_char_is_scalar(b[i].hi);
        lemma_char_is_scalar(b[j].lo);
        let after = next_scalar(b[i].hi) as char;
        assert(a[i].contains(after));
        assert(covered(b, after));
        let m = choose|m: int| 0 <= m < b.len() && #[trigger] b[m].contains(after);
        assert(b[m].wf());
        if m <= i {
            if m < i {
                lemma_ranges_ascend(b, m, i);
            }
        } else {
            lemma_ranges_step(b, i, m);
        }
    }
}

/// The ranges that hold what is not safe are the only ones: two canonical
/// lists that hold the same scalar values are the same list.
pub proof fn lemma_canonical_unique(a: Seq<CodePointRange>, b: Seq<CodePointRange>)
    requires
        ranges_canonical(a),
        ranges_canonical(b),
        forall|c: char| covered(a, c) <==> covered(b, c),
    ensures
        a == b,
{
    let count = if a.len() <= b.len() {
        a.len() as int
    } else {
        b.len() as int
    };
    lemma_canonical_prefix(a, b, count);
    lemma_no_range_beyond(a, b);
    lemma_no_range_beyond(b, a);
    assert(a =~= b);
}

/// A canonical list does not go on where another that holds the same
/// characters, and begins with the same ranges, has ended.
proof fn lemma_no_range_beyond(a: Seq<CodePointRange>, b: Seq<CodePointRange>)
    requires
        ranges_canonical(a),
        ranges_canonical(b),
        forall|c: char| covered(a, c) <==> covered(b, c),
        forall|k: int| 0 <= k < a.len() && k < b.len() ==> a[k] == b[k],
    ensures
        a.len() <= b.len(),
{
    if b.len() < a.len() {
        let i = b.len() as int;
        let c = a[i].lo;
        assert(a[i].wf());
        assert(a[i].contains(c));
        assert(covered(b, c));
        let j = choose|j: int| 0 <= j < b.len() && #[trigger] b[j].contains(c);
        assert(a[j] == b[j]);
        lemma_holder_is_unique(a, i, j, c);
    }
}

} // verus!
