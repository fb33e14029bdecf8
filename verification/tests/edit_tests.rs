use agents_rust::edit::{count_matches, replace_all, replace_first, plan_exact_edit, refuse_empty_search, EditPlan};
use agents_rust::fuzzy::{find_closest, highlight_diff, diff_displayable};
use agents_rust::tool::ToolContent;

#[test]
fn count_matches_is_non_overlapping() {
    assert_eq!(count_matches("aaaa", "aa"), 2);
    assert_eq!(count_matches("abcabc", "bc"), 2);
    assert_eq!(count_matches("abc", "x"), 0);
}

#[test]
fn replace_all_replaces_every_occurrence() {
    assert_eq!(replace_all("a-b-c", "-", "+"), "a+b+c");
    assert_eq!(replace_all("aaaa", "aa", "b"), "bb");
    assert_eq!(replace_all("none", "x", "y"), "none");
}

#[test]
fn replace_by_itself_keeps_text() {
    let t = "one two one";
    assert_eq!(replace_all(t, "one", "one"), t);
}

#[test]
fn replace_first_only_first() {
    assert_eq!(replace_first("x.x.x", ".", "!"), "x!x.x");
    assert_eq!(replace_first("abc", "z", "y"), "abc");
    assert_eq!(replace_first("abc", "", "y"), "yabc");
}

#[test]
fn exact_edit_applies_when_count_matches() {
    match plan_exact_edit("let a = 1;\nlet b = 2;\n", "a = 1", "a = 3", 1, "f.rs", 50) {
        EditPlan::Apply { new_content, report } => {
            assert_eq!(new_content, "let a = 3;\nlet b = 2;\n");
            assert_eq!(report, "Successfully replaced 1 occurrence(s) in f.rs");
        }
        _ => panic!("expected an edit"),
    }
}

#[test]
fn exact_edit_refuses_wrong_count() {
    match plan_exact_edit("x x x", "x", "y", 1, "f.txt", 50) {
        EditPlan::Refuse(m) => assert_eq!(
            m,
            "Expected 1 occurrences but found 3 in f.txt. Use expected_replacements=3 to replace all, or make the search string more unique."
        ),
        _ => panic!("expected a refusal"),
    }
}

#[test]
fn exact_edit_falls_through_without_match() {
    assert!(matches!(plan_exact_edit("abc", "zzz", "y", 1, "f", 50), EditPlan::NoExactMatch));
}

#[test]
fn exact_edit_previews_large_text() {
    let content = "l0\nl1\nl2\nl3\nTARGET\nl5\n";
    match plan_exact_edit(content, "TARGET", "NEW", 1, "f", 2) {
        EditPlan::Apply { new_content, report } => {
            assert_eq!(new_content, "l0\nl1\nl2\nl3\nNEW\nl5\n");
            assert_eq!(
                report,
                "[Reading 6 lines from line 0 (total: 6 lines, 0 remaining)]\n\nl0\nl1\nl2\nl3\nNEW\nl5"
            );
        }
        _ => panic!("expected an edit"),
    }
}

#[test]
fn empty_search_is_refused() {
    let r = refuse_empty_search("").expect("refused");
    assert_eq!(r.is_error, Some(true));
    match &r.content[0] {
        ToolContent::Text { text } => assert_eq!(text, "Empty search strings are not allowed."),
        _ => panic!("text expected"),
    }
    assert!(refuse_empty_search("x").is_none());
}

#[test]
fn highlight_diff_marks_the_middle() {
    assert_eq!(highlight_diff("hello world", "hello there"), "hello {-world-}{+there+}");
    assert_eq!(highlight_diff("abc", "abd"), "ab{-c-}{+d+}");
    assert_eq!(highlight_diff("xbc", "abc"), "{-x-}{+a+}bc");
}

#[test]
fn diff_displayable_detects_underflow() {
    assert!(diff_displayable("abc", "abd"));
    assert!(!diff_displayable("aa", "a"));
}

#[test]
fn closest_window_finds_exact_text() {
    let m = find_closest("hello world", "world");
    assert_eq!(m.start, 6);
    assert_eq!(m.end, 11);
    assert_eq!(m.value, "world");
    assert_eq!(m.distance, 0);
}

#[test]
fn closest_window_finds_near_text() {
    let m = find_closest("the quick brown fox", "quack");
    assert_eq!(m.value, "quick");
    assert_eq!(m.distance, 1);
}

#[test]
fn closest_window_edge_cases() {
    let m = find_closest("ab", "abc");
    assert_eq!((m.start, m.end, m.distance), (0, 0, 3));
    assert_eq!(m.value, "");
    let m = find_closest("abc", "");
    assert_eq!((m.start, m.end, m.distance), (0, 0, 0));
}

#[test]
fn diff_display_round_trip() {
    let e = "abcXdef";
    let a = "abcYYdef";
    let d = highlight_diff(e, a);
    assert_eq!(d, "abc{-X-}{+YY+}def");
    let removed_plus = d.replace("{+YY+}", "").replace("{-", "").replace("-}", "");
    assert_eq!(removed_plus, e);
    let removed_minus = d.replace("{-X-}", "").replace("{+", "").replace("+}", "");
    assert_eq!(removed_minus, a);
}

#[test]
fn diff_display_beyond_ascii() {
    assert_eq!(highlight_diff("xé", "yé"), "{-xé-}{+yé+}");
    assert_eq!(highlight_diff("éb", "b"), "{-éb-}{++}");
    assert!(diff_displayable("éb", "b"));
    assert!(!diff_displayable("same", "same"));
}
