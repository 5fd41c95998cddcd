use proptest_http_message::request_line::character_class::{
    char_diff_intervals, sorted_distinct, CharacterClass,
};
use proptest_http_message::request_line::code_points::{
    char_after, char_before, CodePointRange, FIRST_SCALAR, LAST_SCALAR,
};

fn range(lo: char, hi: char) -> CodePointRange {
    CodePointRange { lo, hi }
}

fn in_ranges(ranges: &[CodePointRange], c: char) -> usize {
    ranges.iter().filter(|r| r.lo <= c && c <= r.hi).count()
}

#[test]
fn one_safe_letter_leaves_two_ranges() {
    let ranges = char_diff_intervals(&vec!['a']);
    assert_eq!(ranges, vec![range('\u{0}', '\u{60}'), range('\u{62}', '\u{10FFFF}')]);
}

#[test]
fn no_safe_character_leaves_the_whole_space() {
    let ranges = char_diff_intervals(&vec![]);
    assert_eq!(ranges, vec![range(FIRST_SCALAR, LAST_SCALAR)]);
}

#[test]
fn safe_ends_of_the_space_leave_the_middle() {
    let ranges = char_diff_intervals(&vec!['\u{10FFFF}', '\u{0}']);
    assert_eq!(ranges, vec![range('\u{1}', '\u{10FFFE}')]);
}

#[test]
fn neighbours_leave_no_range_between_them() {
    let ranges = char_diff_intervals(&vec!['a', 'b', 'c']);
    assert_eq!(ranges, vec![range('\u{0}', '\u{60}'), range('\u{64}', '\u{10FFFF}')]);
}

#[test]
fn neighbours_across_the_surrogates_leave_no_range_between_them() {
    let ranges = char_diff_intervals(&vec!['\u{E000}', '\u{D7FF}']);
    assert_eq!(ranges, vec![range('\u{0}', '\u{D7FE}'), range('\u{E001}', '\u{10FFFF}')]);
}

#[test]
fn a_gap_across_the_surrogates_is_one_range() {
    let ranges = char_diff_intervals(&vec!['\u{D7FE}', '\u{E001}']);
    assert_eq!(
        ranges,
        vec![
            range('\u{0}', '\u{D7FD}'),
            range('\u{D7FF}', '\u{E000}'),
            range('\u{E002}', '\u{10FFFF}'),
        ]
    );
    assert_eq!(ranges[1].len(), 2);
    assert_eq!(ranges[1].get(0), '\u{D7FF}');
    assert_eq!(ranges[1].get(1), '\u{E000}');
}

#[test]
fn order_and_repetition_of_the_safe_characters_do_not_matter() {
    let tidy = char_diff_intervals(&vec!['a', 'm', 'z']);
    let untidy = char_diff_intervals(&vec!['z', 'a', 'm', 'a', 'z', 'z']);
    assert_eq!(tidy, untidy);
    assert_eq!(
        tidy,
        vec![
            range('\u{0}', '\u{60}'),
            range('b', 'l'),
            range('n', 'y'),
            range('{', '\u{10FFFF}'),
        ]
    );
}

#[test]
fn sorted_distinct_sorts_and_drops_repetitions() {
    assert_eq!(sorted_distinct(&vec!['c', 'a', 'b', 'a', 'c']), vec!['a', 'b', 'c']);
    assert_eq!(sorted_distinct(&vec![]), Vec::<char>::new());
    assert_eq!(sorted_distinct(&vec!['x']), vec!['x']);
    assert_eq!(
        sorted_distinct(&vec!['\u{10FFFF}', '\u{0}', '~']),
        vec!['\u{0}', '~', '\u{10FFFF}']
    );
}

#[test]
fn safe_set_and_unsafe_ranges_split_the_space() {
    let safe = vec!['~', 'a', '0', '\u{E000}', '\u{FFFF}', '\u{10000}', 'é', 'a'];
    let class = CharacterClass::new(&safe);
    let ranges = class.ranges();
    let mut probes: Vec<char> = Vec::new();
    for v in 0u32..0x300 {
        probes.push(char::from_u32(v).unwrap());
    }
    for v in
        [0xD7FEu32, 0xD7FF, 0xE000, 0xE001, 0xFFFE, 0xFFFF, 0x10000, 0x10001, 0x10FFFE, 0x10FFFF]
    {
        probes.push(char::from_u32(v).unwrap());
    }
    for c in probes {
        let safe_side = usize::from(class.safe_chars().contains(&c));
        assert_eq!(safe_side, usize::from(safe.contains(&c)));
        assert_eq!(safe_side + in_ranges(ranges, c), 1, "{c:?} is on both sides or on none");
    }
}

#[test]
fn unsafe_ranges_are_ascending_and_do_not_touch() {
    let class = CharacterClass::new(&vec!['q', 'b', 'c', 'x', '\u{D7FF}', '\u{E000}', '!']);
    let ranges = class.ranges();
    for r in ranges {
        assert!(r.lo <= r.hi);
    }
    for pair in ranges.windows(2) {
        assert!(pair[0].hi < pair[1].lo);
        assert!(char_after(pair[0].hi) < pair[1].lo);
    }
}

#[test]
fn safe_characters_are_kept_ascending_and_once() {
    let class = CharacterClass::new(&vec!['b', 'a', 'b', 'c', 'a']);
    assert_eq!(class.safe_chars(), &vec!['a', 'b', 'c']);
}

#[test]
fn stepping_over_the_surrogates() {
    assert_eq!(char_after('\u{D7FF}'), '\u{E000}');
    assert_eq!(char_before('\u{E000}'), '\u{D7FF}');
    assert_eq!(char_after('a'), 'b');
    assert_eq!(char_before('b'), 'a');
    assert_eq!(char_after('\u{10FFFE}'), '\u{10FFFF}');
    assert_eq!(char_before('\u{1}'), '\u{0}');
}

#[test]
fn the_size_of_a_range_leaves_the_surrogates_out() {
    assert_eq!(range('a', 'a').len(), 1);
    assert_eq!(range('a', 'z').len(), 26);
    assert_eq!(range(FIRST_SCALAR, LAST_SCALAR).len(), 0x110000 - 0x800);
    assert_eq!(range('\u{D7FF}', '\u{E000}').len(), 2);
    assert_eq!(range(FIRST_SCALAR, LAST_SCALAR).get(0xD7FF), '\u{D7FF}');
    assert_eq!(range(FIRST_SCALAR, LAST_SCALAR).get(0xD800), '\u{E000}');
    assert_eq!(range(FIRST_SCALAR, LAST_SCALAR).get(0x10F7FF), '\u{10FFFF}');
    assert_eq!(range('\u{E000}', '\u{E010}').get(0x10), '\u{E010}');
}
