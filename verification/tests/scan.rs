use sre_engine::errors::Error;
use sre_engine::pattern::{compile, PatternObject};
use sre_engine::program::{MAGIC, OP_LITERAL, OP_MARK, OP_SPLIT, OP_SUCCESS};
use sre_engine::scanner::Scanner;

fn no_names(groups: usize) -> (Vec<(String, usize)>, Vec<Option<String>>) {
    let mut ig: Vec<Option<String>> = Vec::new();
    let mut k = 0;
    while k <= groups {
        ig.push(None);
        k += 1;
    }
    (Vec::new(), ig)
}

fn build(code: Vec<u32>, flags: u32, groups: usize) -> PatternObject {
    let (gi, ig) = no_names(groups);
    compile(String::from("fixture"), flags, code, groups, gi, ig).unwrap()
}

fn empty_pattern() -> Vec<u32> {
    vec![MAGIC, OP_SUCCESS]
}

fn literal_a() -> Vec<u32> {
    vec![MAGIC, OP_LITERAL, 97, OP_SUCCESS]
}

#[test]
fn finditer_empty_pattern_yields_once_per_position() {
    let p = build(empty_pattern(), 0, 0);
    let all = p.finditer(b"abc", 0, 3).unwrap();
    assert_eq!(all.len(), 4);
    let spans: Vec<(usize, usize)> = all.iter().map(|m| m.span()).collect();
    assert_eq!(spans, vec![(0, 0), (1, 1), (2, 2), (3, 3)]);
    for w in spans.windows(2) {
        assert!(w[0].0 < w[1].0);
    }
}

#[test]
fn finditer_matches_do_not_overlap() {
    let p = build(literal_a(), 0, 0);
    let all = p.finditer(b"aaxa", 0, 4).unwrap();
    let spans: Vec<(usize, usize)> = all.iter().map(|m| m.span()).collect();
    assert_eq!(spans, vec![(0, 1), (1, 2), (3, 4)]);
}

#[test]
fn scanner_walks_and_then_stays_finished() {
    let p = build(literal_a(), 0, 0);
    let subject = b"aab";
    let mut sc = Scanner::scan(&p, subject, 0, 3).unwrap();
    assert_eq!(sc.next_match().unwrap().unwrap().span(), (0, 1));
    assert_eq!(sc.next_match().unwrap().unwrap().span(), (1, 2));
    assert!(sc.next_match().unwrap().is_none());
    assert!(sc.next_match().unwrap().is_none());
}

#[test]
fn scanner_refuses_a_bad_window() {
    let p = build(literal_a(), 0, 0);
    assert!(matches!(Scanner::scan(&p, b"a", 0, 5), Err(Error::InvalidRange)));
}

#[test]
fn out_of_bounds_window_is_refused() {
    let p = build(literal_a(), 0, 0);
    assert!(matches!(p.match_at(b"a", 0, 2), Err(Error::InvalidRange)));
    assert!(matches!(p.match_at(b"ab", 2, 1), Err(Error::InvalidRange)));
    assert!(matches!(p.search(b"ab", 0, 3), Err(Error::InvalidRange)));
    assert!(matches!(p.fullmatch(b"ab", 1, 3), Err(Error::InvalidRange)));
    assert!(matches!(p.finditer(b"ab", 0, 3), Err(Error::InvalidRange)));
}

#[test]
fn wrong_version_word_is_refused() {
    let (gi, ig) = no_names(0);
    let r = compile(String::from("fixture"), 0, vec![0xDEAD, OP_SUCCESS], 0, gi, ig);
    assert!(matches!(r, Err(Error::IncompatibleBytecode)));
    let (gi2, ig2) = no_names(0);
    let r2 = compile(String::from("fixture"), 0, Vec::new(), 0, gi2, ig2);
    assert!(matches!(r2, Err(Error::IncompatibleBytecode)));
}

#[test]
fn inconsistent_name_maps_are_refused() {
    // Index out of range.
    let gi = vec![(String::from("x"), 2usize)];
    let ig = vec![None, Some(String::from("x"))];
    let r = compile(String::from("fixture"), 0, literal_a(), 1, gi, ig);
    assert!(matches!(r, Err(Error::MalformedPattern)));
    // Reverse slot missing.
    let gi = vec![(String::from("x"), 1usize)];
    let ig = vec![None, None];
    let r = compile(String::from("fixture"), 0, literal_a(), 1, gi, ig);
    assert!(matches!(r, Err(Error::MalformedPattern)));
    // Reverse slot named with no forward entry.
    let gi: Vec<(String, usize)> = Vec::new();
    let ig = vec![None, Some(String::from("x"))];
    let r = compile(String::from("fixture"), 0, literal_a(), 1, gi, ig);
    assert!(matches!(r, Err(Error::MalformedPattern)));
    // Reverse map of the wrong size.
    let (gi, _) = no_names(1);
    let r = compile(String::from("fixture"), 0, literal_a(), 1, gi, vec![None]);
    assert!(matches!(r, Err(Error::MalformedPattern)));
}

#[test]
fn large_consistent_group_count_is_accepted() {
    // Construction refuses only inconsistent maps and an unversioned
    // program, never a merely large group count.
    let (gi, ig) = no_names(10_001);
    let p = compile(String::from("fixture"), 0, literal_a(), 10_001, gi, ig).unwrap();
    assert_eq!(p.group_count(), 10_001);
    let m = p.match_at(b"a", 0, 1).unwrap().unwrap();
    assert_eq!(m.group_len(), 10_002);
    assert_eq!(m.group(10_001).unwrap(), None);
}

#[test]
fn group_names_resolve_both_ways() {
    // `(a)` with group 1 named `item`.
    let code = vec![MAGIC, OP_MARK, 2, OP_LITERAL, 97, OP_MARK, 3, OP_SUCCESS];
    let gi = vec![(String::from("item"), 1usize)];
    let ig = vec![None, Some(String::from("item"))];
    let p = compile(String::from("fixture"), 0, code, 1, gi, ig).unwrap();
    assert_eq!(p.group_index(&String::from("item")).unwrap(), 1);
    assert!(matches!(
        p.group_index(&String::from("missing")),
        Err(Error::IndexOrNameError)
    ));
    assert_eq!(p.group_name(1).unwrap(), &String::from("item"));
    assert!(p.group_name(0).is_none());
    let m = p.match_at(b"a", 0, 1).unwrap().unwrap();
    let idx = p.group_index(&String::from("item")).unwrap();
    assert_eq!(m.group(idx).unwrap(), Some((0, 1)));
}

#[test]
fn groupdict_pairs_names_with_spans() {
    // `(a)(b)?` with group 1 named `x` and group 2 named `y`.
    let code = vec![
        MAGIC,           // 0
        OP_MARK, 2,      // 1
        OP_LITERAL, 97,  // 3
        OP_MARK, 3,      // 5
        OP_SPLIT, 15,    // 7
        OP_MARK, 4,      // 9
        OP_LITERAL, 98,  // 11
        OP_MARK, 5,      // 13
        OP_SUCCESS,      // 15
    ];
    let gi = vec![(String::from("x"), 1usize), (String::from("y"), 2usize)];
    let ig = vec![None, Some(String::from("x")), Some(String::from("y"))];
    let p = compile(String::from("fixture"), 0, code, 2, gi, ig).unwrap();

    let m = p.match_at(b"ab", 0, 2).unwrap().unwrap();
    let d = p.groupdict(&m);
    assert_eq!(d.len(), 2);
    assert_eq!(d[0], (String::from("x"), Some((0, 1))));
    assert_eq!(d[1], (String::from("y"), Some((1, 2))));
    assert_eq!(p.group_by_name(&m, &String::from("y")).unwrap(), Some((1, 2)));

    let m2 = p.match_at(b"a", 0, 1).unwrap().unwrap();
    let d2 = p.groupdict(&m2);
    assert_eq!(d2[1], (String::from("y"), None));
    assert!(matches!(
        p.group_by_name(&m2, &String::from("nope")),
        Err(Error::IndexOrNameError)
    ));
}

#[test]
fn unknown_group_index_is_refused() {
    let p = build(literal_a(), 0, 0);
    let m = p.match_at(b"a", 0, 1).unwrap().unwrap();
    assert_eq!(m.group_len(), 1);
    assert!(matches!(m.group(1), Err(Error::IndexOrNameError)));
    assert_eq!(m.group(0).unwrap(), Some((0, 1)));
}

#[test]
fn unknown_word_is_refused_at_run_time() {
    let p = build(vec![MAGIC, 999, OP_SUCCESS], 0, 0);
    assert!(matches!(p.match_at(b"a", 0, 1), Err(Error::MalformedPattern)));
}

#[test]
fn errors_describe_themselves() {
    assert_eq!(Error::MatchTooComplex.describe(), "step budget exceeded");
    assert_eq!(Error::InvalidRange.describe(), "position out of subject bounds");
}

#[test]
fn pattern_reports_flags_and_group_count() {
    let p = build(literal_a(), 5, 0);
    assert_eq!(p.flags(), 5);
    assert_eq!(p.group_count(), 0);
}
