use sre_engine::errors::Error;
use sre_engine::pattern::{compile, PatternObject};
use sre_engine::program::{
    FLAG_DOTALL, FLAG_IGNORECASE, MAGIC, OP_ANY, OP_ASSERT, OP_ASSERT_NOT, OP_AT, OP_FAIL,
    OP_JUMP, OP_LITERAL, OP_MARK, OP_NRANGE, OP_RANGE, OP_REF, OP_REPEAT, OP_REPEAT_END,
    OP_REPEAT_END_LAZY, OP_REPEAT_LAZY, OP_SPLIT, OP_SUCCESS, UNBOUNDED,
};

fn no_names(groups: usize) -> (Vec<(String, usize)>, Vec<Option<String>>) {
    let mut ig: Vec<Option<String>> = Vec::new();
    let mut k = 0;
    while k <= groups {
        ig.push(None);
        k += 1;
    }
    (Vec::new(), ig)
}

fn build(code: Vec<u32>, flags: u32, groups: usize) -> PatternObject {
    let (gi, ig) = no_names(groups);
    compile(String::from("fixture"), flags, code, groups, gi, ig).unwrap()
}

/// `ab` as a literal-only program.
fn literal_ab() -> Vec<u32> {
    vec![MAGIC, OP_LITERAL, 97, OP_LITERAL, 98, OP_SUCCESS]
}

#[test]
fn literal_match_exact() {
    let p = build(literal_ab(), 0, 0);
    let m = p.match_at(b"ab", 0, 2).unwrap().unwrap();
    assert_eq!(m.span(), (0, 2));
    assert_eq!(m.group(0).unwrap(), Some((0, 2)));
}

#[test]
fn literal_match_is_prefix_only() {
    let p = build(literal_ab(), 0, 0);
    let m = p.match_at(b"abc", 0, 3).unwrap().unwrap();
    assert_eq!(m.span(), (0, 2));
    assert!(p.match_at(b"ax", 0, 2).unwrap().is_none());
    assert!(p.match_at(b"xab", 0, 3).unwrap().is_none());
}

#[test]
fn literal_fullmatch_requires_window_end() {
    let p = build(literal_ab(), 0, 0);
    assert!(p.fullmatch(b"ab", 0, 2).unwrap().is_some());
    assert!(p.fullmatch(b"abc", 0, 3).unwrap().is_none());
}

#[test]
fn literal_ignorecase_folds_both_sides() {
    let p = build(literal_ab(), FLAG_IGNORECASE, 0);
    assert!(p.match_at(b"AB", 0, 2).unwrap().is_some());
    assert!(p.match_at(b"Ab", 0, 2).unwrap().is_some());
    let q = build(vec![MAGIC, OP_LITERAL, 65, OP_SUCCESS], FLAG_IGNORECASE, 0);
    assert!(q.match_at(b"a", 0, 1).unwrap().is_some());
    let plain = build(literal_ab(), 0, 0);
    assert!(plain.match_at(b"AB", 0, 2).unwrap().is_none());
}

/// `(a+)(a)` with a greedy or lazy quantifier.
fn a_plus_a(lazy: bool) -> Vec<u32> {
    let (rep, rep_end) = if lazy {
        (OP_REPEAT_LAZY, OP_REPEAT_END_LAZY)
    } else {
        (OP_REPEAT, OP_REPEAT_END)
    };
    vec![
        MAGIC,            // 0
        OP_MARK, 2,       // 1: group 1 start
        rep, 1, UNBOUNDED, 11, // 3: body at 7, exit 11
        OP_LITERAL, 97,   // 7
        rep_end, 3,       // 9
        OP_MARK, 3,       // 11: group 1 end
        OP_MARK, 4,       // 13: group 2 start
        OP_LITERAL, 97,   // 15
        OP_MARK, 5,       // 17: group 2 end
        OP_SUCCESS,       // 19
    ]
}

#[test]
fn greedy_plus_takes_the_maximal_decomposition() {
    let p = build(a_plus_a(false), 0, 2);
    let m = p.match_at(b"aaa", 0, 3).unwrap().unwrap();
    assert_eq!(m.span(), (0, 3));
    assert_eq!(m.group(1).unwrap(), Some((0, 2)));
    assert_eq!(m.group(2).unwrap(), Some((2, 3)));
}

#[test]
fn lazy_plus_takes_the_minimal_decomposition() {
    let p = build(a_plus_a(true), 0, 2);
    let m = p.match_at(b"aaa", 0, 3).unwrap().unwrap();
    assert_eq!(m.span(), (0, 2));
    assert_eq!(m.group(1).unwrap(), Some((0, 1)));
    assert_eq!(m.group(2).unwrap(), Some((1, 2)));
}

/// `(?:a?){min,}`: an unbounded repeat whose body can match nothing.
fn optional_a_repeat(min: u32) -> Vec<u32> {
    vec![
        MAGIC,                     // 0
        OP_REPEAT, min, UNBOUNDED, 11, // 1: body at 5, exit 11
        OP_SPLIT, 9,               // 5: a?
        OP_LITERAL, 97,            // 7
        OP_REPEAT_END, 1,          // 9
        OP_SUCCESS,                // 11
    ]
}

#[test]
fn zero_width_repeat_terminates_at_min() {
    let p = build(optional_a_repeat(2), 0, 0);
    let m = p.match_at(b"", 0, 0).unwrap().unwrap();
    assert_eq!(m.span(), (0, 0));
    let m2 = p.match_at(b"a", 0, 1).unwrap().unwrap();
    assert_eq!(m2.span(), (0, 1));
}

#[test]
fn zero_width_repeat_terminates_without_min() {
    let p = build(optional_a_repeat(0), 0, 0);
    let m = p.match_at(b"", 0, 0).unwrap().unwrap();
    assert_eq!(m.span(), (0, 0));
}

#[test]
fn bounded_repeat_respects_min_and_max() {
    // `a{1,2}`
    let code = vec![
        MAGIC,            // 0
        OP_REPEAT, 1, 2, 9, // 1: body at 5, exit 9
        OP_LITERAL, 97,   // 5
        OP_REPEAT_END, 1, // 7
        OP_SUCCESS,       // 9
    ];
    let p = build(code, 0, 0);
    assert_eq!(p.match_at(b"aaa", 0, 3).unwrap().unwrap().span(), (0, 2));
    assert!(p.match_at(b"", 0, 0).unwrap().is_none());
    assert!(p.fullmatch(b"aaa", 0, 3).unwrap().is_none());
    assert!(p.fullmatch(b"aa", 0, 2).unwrap().is_some());
}

#[test]
fn backref_to_unset_group_fails_the_branch_only() {
    // Either a backreference to group 1 (never set) or the literal `b`.
    let code = vec![
        MAGIC,          // 0
        OP_SPLIT, 6,    // 1
        OP_REF, 1,      // 3
        OP_SUCCESS,     // 5
        OP_LITERAL, 98, // 6
        OP_SUCCESS,     // 8
    ];
    let p = build(code, 0, 1);
    let m = p.match_at(b"b", 0, 1).unwrap().unwrap();
    assert_eq!(m.span(), (0, 1));
    // With no alternative the unset backreference is a clean miss.
    let lone = build(vec![MAGIC, OP_REF, 1, OP_SUCCESS], 0, 1);
    assert!(lone.match_at(b"x", 0, 1).unwrap().is_none());
}

#[test]
fn backref_matches_what_the_group_captured() {
    // `(a)\1`
    let code = vec![
        MAGIC,          // 0
        OP_MARK, 2,     // 1
        OP_LITERAL, 97, // 3
        OP_MARK, 3,     // 5
        OP_REF, 1,      // 7
        OP_SUCCESS,     // 9
    ];
    let p = build(code, 0, 1);
    let m = p.match_at(b"aa", 0, 2).unwrap().unwrap();
    assert_eq!(m.span(), (0, 2));
    assert_eq!(m.group(1).unwrap(), Some((0, 1)));
    assert!(p.match_at(b"ab", 0, 2).unwrap().is_none());
}

#[test]
fn pathological_repeat_reports_too_complex() {
    // `(?:a+)+b` against a long run of `a` with no `b`.
    let code = vec![
        MAGIC,                    // 0
        OP_REPEAT, 1, UNBOUNDED, 15, // 1: outer, body at 5
        OP_REPEAT, 1, UNBOUNDED, 13, // 5: inner, body at 9
        OP_LITERAL, 97,           // 9
        OP_REPEAT_END, 5,         // 11
        OP_REPEAT_END, 1,         // 13
        OP_LITERAL, 98,           // 15
        OP_SUCCESS,               // 17
    ];
    let p = build(code, 0, 0);
    let subject = [97u8; 40];
    assert!(matches!(p.match_at(&subject, 0, 40), Err(Error::MatchTooComplex)));
}

#[test]
fn negative_lookahead_gates_without_consuming() {
    // `(?!x)y`
    let code = vec![
        MAGIC,           // 0
        OP_ASSERT_NOT, 7, 0, // 1: sub at 4, continue at 7
        OP_LITERAL, 120, // 4
        OP_SUCCESS,      // 6
        OP_LITERAL, 121, // 7
        OP_SUCCESS,      // 9
    ];
    let p = build(code, 0, 0);
    let m = p.match_at(b"y", 0, 1).unwrap().unwrap();
    assert_eq!(m.span(), (0, 1));
    assert_eq!(m.groups().len(), 1);
    assert!(p.match_at(b"xy", 0, 2).unwrap().is_none());
}

#[test]
fn positive_lookahead_merges_captures() {
    // `(?=(a))a`
    let code = vec![
        MAGIC,          // 0
        OP_ASSERT, 11, 0, // 1: sub at 4, continue at 11
        OP_MARK, 2,     // 4
        OP_LITERAL, 97, // 6
        OP_MARK, 3,     // 8
        OP_SUCCESS,     // 10
        OP_LITERAL, 97, // 11
        OP_SUCCESS,     // 13
    ];
    let p = build(code, 0, 1);
    let m = p.match_at(b"ab", 0, 2).unwrap().unwrap();
    assert_eq!(m.span(), (0, 1));
    assert_eq!(m.group(1).unwrap(), Some((0, 1)));
}

#[test]
fn lookbehind_checks_preceding_input() {
    // `(?<=a)b`
    let code = vec![
        MAGIC,          // 0
        OP_ASSERT, 7, 1, // 1: sub at 4, width 1
        OP_LITERAL, 97, // 4
        OP_SUCCESS,     // 6
        OP_LITERAL, 98, // 7
        OP_SUCCESS,     // 9
    ];
    let p = build(code, 0, 0);
    let m = p.search(b"ab", 0, 2).unwrap().unwrap();
    assert_eq!(m.span(), (1, 2));
    assert!(p.search(b"xb", 0, 2).unwrap().is_none());
}

#[test]
fn alternation_prefers_the_first_branch() {
    // `a|ab`: the first branch wins even though the second is longer.
    let code = vec![
        MAGIC,          // 0
        OP_SPLIT, 7,    // 1: alternative at 7
        OP_LITERAL, 97, // 3
        OP_JUMP, 11,    // 5
        OP_LITERAL, 97, // 7
        OP_LITERAL, 98, // 9
        OP_SUCCESS,     // 11
    ];
    let p = build(code, 0, 0);
    let m = p.match_at(b"ab", 0, 2).unwrap().unwrap();
    assert_eq!(m.span(), (0, 1));
}

#[test]
fn explicit_failure_forces_the_other_branch() {
    // `(?:fail)|b` spelled with the FAIL word.
    let code = vec![
        MAGIC,          // 0
        OP_SPLIT, 4,    // 1
        OP_FAIL,        // 3
        OP_LITERAL, 98, // 4
        OP_SUCCESS,     // 6
    ];
    let p = build(code, 0, 0);
    let m = p.match_at(b"b", 0, 1).unwrap().unwrap();
    assert_eq!(m.span(), (0, 1));
}

#[test]
fn any_skips_line_feed_unless_dotall() {
    let code = vec![MAGIC, OP_ANY, OP_SUCCESS];
    let p = build(code.clone(), 0, 0);
    assert!(p.match_at(b"\n", 0, 1).unwrap().is_none());
    assert!(p.match_at(b"x", 0, 1).unwrap().is_some());
    let q = build(code, FLAG_DOTALL, 0);
    assert!(q.match_at(b"\n", 0, 1).unwrap().is_some());
}

#[test]
fn ranges_and_negated_ranges() {
    let lower = build(vec![MAGIC, OP_RANGE, 97, 122, OP_SUCCESS], 0, 0);
    assert!(lower.match_at(b"q", 0, 1).unwrap().is_some());
    assert!(lower.match_at(b"Q", 0, 1).unwrap().is_none());
    let folded = build(vec![MAGIC, OP_RANGE, 97, 122, OP_SUCCESS], FLAG_IGNORECASE, 0);
    assert!(folded.match_at(b"Q", 0, 1).unwrap().is_some());
    let not_lower = build(vec![MAGIC, OP_NRANGE, 97, 122, OP_SUCCESS], 0, 0);
    assert!(not_lower.match_at(b"q", 0, 1).unwrap().is_none());
    assert!(not_lower.match_at(b"Q", 0, 1).unwrap().is_some());
}

#[test]
fn anchors_hold_at_the_window_edges() {
    // `^a$` over the window.
    let code = vec![
        MAGIC,          // 0
        OP_AT, 0,       // 1: window start
        OP_LITERAL, 97, // 3
        OP_AT, 1,       // 5: window end
        OP_SUCCESS,     // 7
    ];
    let p = build(code, 0, 0);
    assert!(p.match_at(b"a", 0, 1).unwrap().is_some());
    assert!(p.match_at(b"ab", 0, 2).unwrap().is_none());
    // The anchors are relative to the window handed in.
    assert!(p.match_at(b"xay", 1, 2).unwrap().is_some());
}

#[test]
fn word_boundary_tests_both_neighbours() {
    // `\ba`
    let code = vec![MAGIC, OP_AT, 4, OP_LITERAL, 97, OP_SUCCESS];
    let p = build(code, 0, 0);
    assert_eq!(p.search(b"a a", 0, 3).unwrap().unwrap().span(), (0, 1));
    assert!(p.search(b"ba", 0, 2).unwrap().is_none());
    assert_eq!(p.search(b"b a", 0, 3).unwrap().unwrap().span(), (2, 3));
}

#[test]
fn search_takes_the_leftmost_match() {
    let p = build(literal_ab(), 0, 0);
    let m = p.search(b"xxabxab", 0, 7).unwrap().unwrap();
    assert_eq!(m.span(), (2, 4));
    assert!(p.search(b"xxxx", 0, 4).unwrap().is_none());
}

#[test]
fn identical_compiled_input_gives_identical_results() {
    let p1 = build(a_plus_a(false), 0, 2);
    let p2 = build(a_plus_a(false), 0, 2);
    let m1 = p1.match_at(b"aaa", 0, 3).unwrap().unwrap();
    let m2 = p2.match_at(b"aaa", 0, 3).unwrap().unwrap();
    assert_eq!(m1.span(), m2.span());
    assert_eq!(m1.groups(), m2.groups());
    let f1 = p1.finditer(b"aaaa", 0, 4).unwrap();
    let f2 = p2.finditer(b"aaaa", 0, 4).unwrap();
    assert_eq!(f1.len(), f2.len());
    for (x, y) in f1.iter().zip(f2.iter()) {
        assert_eq!(x.span(), y.span());
    }
}
