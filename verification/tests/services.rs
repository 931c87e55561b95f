use vibewrite95::services::line_diff::{compute_lcs, diff_lines, DiffLine};
use vibewrite95::services::markdown_parser::extract_outline;
use vibewrite95::services::print_service::{classify_pdf_line, parse_inline_runs, PdfLine};
use vibewrite95::services::spell_check::{load_dict_from_str, user_dictionary_text, SpellChecker};
use vibewrite95::services::word_extractor::extract_words;
use vibewrite95::services::file_service::{completions_from, sort_strings, split_partial_path, str_le};

#[test]
fn test_diff_lines() {
    let current = "line1\nchanged line\nline3";
    let snapshot = "line1\noriginal line\nline3";
    let diff = diff_lines(current, snapshot);
    assert!(!diff.is_empty());
}

#[test]
fn diff_pairs_changed_lines_between_common_ones() {
    let diff = diff_lines("line1\nchanged line\nline3", "line1\noriginal line\nline3");
    assert_eq!(
        diff,
        vec![
            (DiffLine::Same("line1".to_string()), DiffLine::Same("line1".to_string())),
            (DiffLine::Removed("changed line".to_string()), DiffLine::Added("original line".to_string())),
            (DiffLine::Same("line3".to_string()), DiffLine::Same("line3".to_string())),
        ]
    );
}

#[test]
fn diff_of_identical_texts_is_all_same() {
    let diff = diff_lines("a\nb", "a\nb");
    assert_eq!(diff.len(), 2);
    assert!(diff.iter().all(|(l, r)| matches!(l, DiffLine::Same(_)) && matches!(r, DiffLine::Same(_))));
}

#[test]
fn diff_pads_the_shorter_side() {
    let diff = diff_lines("a", "a\nb\nc");
    assert_eq!(diff.len(), 3);
    assert_eq!(diff[1], (DiffLine::Removed(String::new()), DiffLine::Added("b".to_string())));
}

#[test]
fn lcs_of_two_line_lists() {
    let a: Vec<String> = vec!["x".into(), "a".into(), "b".into(), "c".into()];
    let b: Vec<String> = vec!["a".into(), "y".into(), "c".into()];
    assert_eq!(compute_lcs(&a, &b), vec![(1, 0), (3, 2)]);
}

#[test]
fn test_extract_outline() {
    let text = "# Hello\n\nSome text\n\n## World\n\n### Sub\n";
    let items = extract_outline(text, None);
    assert_eq!(items.len(), 3);
    assert_eq!(items[0].title, "Hello");
    assert_eq!(items[0].level, 1);
    assert_eq!(items[1].title, "World");
    assert_eq!(items[1].level, 2);
    assert_eq!(items[2].title, "Sub");
    assert_eq!(items[2].level, 3);
}

#[test]
fn outline_records_lines_and_source() {
    let items = extract_outline("intro\n## Two\n#### four\n# One", Some("ch.md"));
    assert_eq!(items.len(), 2);
    assert_eq!(items[0].line_number, 1);
    assert_eq!(items[1].line_number, 3);
    assert_eq!(items[1].source_file_path.as_deref(), Some("ch.md"));
}

#[test]
fn test_plain_text_is_single_run() {
    let runs = parse_inline_runs("This is a test.");
    assert_eq!(runs.len(), 1);
    assert_eq!(runs[0].text, "This is a test.");
    assert!(!runs[0].bold);
}

#[test]
fn test_bold_only_run() {
    let runs = parse_inline_runs("**This is another test.**");
    assert_eq!(runs.len(), 1);
    assert_eq!(runs[0].text, "This is another test.");
    assert!(runs[0].bold);
}

#[test]
fn test_mixed_plain_and_bold() {
    let runs = parse_inline_runs("Some **bold** words here.");
    assert_eq!(runs.len(), 3);
    assert_eq!(runs[0].text, "Some ");
    assert!(!runs[0].bold);
    assert_eq!(runs[1].text, "bold");
    assert!(runs[1].bold);
    assert_eq!(runs[2].text, " words here.");
    assert!(!runs[2].bold);
}

#[test]
fn test_italic_markers_stripped_as_plain() {
    let runs = parse_inline_runs("*italic text*");
    let combined: String = runs.iter().map(|r| r.text.as_str()).collect();
    assert_eq!(combined, "italic text");
    assert!(runs.iter().all(|r| !r.bold));
}

#[test]
fn test_double_underscore_bold() {
    let runs = parse_inline_runs("__bold via underscores__");
    assert_eq!(runs.len(), 1);
    assert_eq!(runs[0].text, "bold via underscores");
    assert!(runs[0].bold);
}

#[test]
fn test_empty_line_produces_no_runs() {
    let runs = parse_inline_runs("");
    assert!(runs.is_empty());
}

#[test]
fn test_h1_prefix_stripped() {
    let line = "# This is a test.";
    let trimmed = line.trim_start();
    assert!(trimmed.starts_with("# "));
    let text = trimmed.strip_prefix("# ").unwrap();
    assert_eq!(text, "This is a test.");
    assert!(matches!(classify_pdf_line(line), PdfLine::Heading(1, t) if t == "This is a test."));
}

#[test]
fn test_h2_prefix_stripped() {
    let line = "## Section";
    let trimmed = line.trim_start();
    let text = trimmed.strip_prefix("## ").unwrap();
    assert_eq!(text, "Section");
    assert!(matches!(classify_pdf_line(line), PdfLine::Heading(2, t) if t == "Section"));
}

#[test]
fn test_h3_prefix_stripped() {
    let line = "### Subsection";
    let trimmed = line.trim_start();
    let text = trimmed.strip_prefix("### ").unwrap();
    assert_eq!(text, "Subsection");
    assert!(matches!(classify_pdf_line(line), PdfLine::Heading(3, t) if t == "Subsection"));
}

#[test]
fn pdf_body_lines_become_runs() {
    match classify_pdf_line("  plain **bold**") {
        PdfLine::Body(runs) => {
            assert_eq!(runs.len(), 2);
            assert_eq!(runs[0].text, "  plain ");
            assert!(runs[1].bold);
        }
        PdfLine::Heading(..) => panic!("a body line was taken for a heading"),
    }
}

#[test]
fn test_spell_check() {
    let checker = SpellChecker::new();
    assert!(checker.is_correct("the"));
    assert!(checker.is_correct("hello"));
    assert!(!checker.is_correct("teh"));
}

#[test]
fn test_suggestions() {
    let checker = SpellChecker::new();
    let suggestions = checker.suggestions("teh", 5);
    assert!(suggestions.contains(&"the".to_string()) || !suggestions.is_empty());
}

#[test]
fn spell_check_ignores_case() {
    let checker = SpellChecker::new();
    assert!(checker.is_correct("The"));
    assert!(checker.is_correct("HELLO"));
}

#[test]
fn suggestions_come_nearest_first_and_are_limited() {
    let checker = SpellChecker::with_user_dictionary("");
    let s = checker.suggestions("hellp", 3);
    assert!(s.len() <= 3);
    assert_eq!(s[0], "hello");
    let none = checker.suggestions("zzzzzzzzzz", 8);
    assert!(none.is_empty());
}

#[test]
fn dictionary_lines_are_trimmed_lowered_and_deduplicated() {
    let words = load_dict_from_str("  Apple \napple\nA\n\nbanana\r\n");
    assert_eq!(words, vec!["apple".to_string(), "banana".to_string()]);
}

#[test]
fn user_dictionary_words_count_as_correct() {
    let mut checker = SpellChecker::with_user_dictionary("Zorblax\n");
    assert!(checker.is_correct("zorblax"));
    assert!(!checker.is_correct("qwertyuiop"));
    let added = checker.add_to_user_dictionary("QwertyUiop");
    assert_eq!(added, "qwertyuiop");
    assert!(checker.is_correct("qwertyuiop"));
    assert_eq!(user_dictionary_text("zorblax", &added), "zorblax\nqwertyuiop");
}

#[test]
fn check_text_groups_misspellings_in_order() {
    let checker = SpellChecker::new();
    let found = checker.check_text("teh cat and Teh dog xyzzy `teh`");
    assert_eq!(found.len(), 2);
    assert_eq!(found[0].word, "teh");
    assert_eq!(found[0].occurrence_count(), 2);
    assert_eq!(found[0].locations[0].offset, 0);
    assert_eq!(found[0].locations[1].offset, 12);
    assert_eq!(found[0].locations[1].length, 3);
    assert_eq!(found[1].word, "xyzzy");
    assert_eq!(found[0].suggestions, checker.suggestions("teh", 8));
    assert!(!found[0].suggestions.is_empty());
}

#[test]
fn words_are_extracted_with_offsets() {
    let words = extract_words("don't stop\n```\ncode here\n```\nafter [link](http://x) done");
    let texts: Vec<&str> = words.iter().map(|(_, w)| w.as_str()).collect();
    assert_eq!(texts, vec!["don't", "stop", "after", "link", "done"]);
    assert_eq!(words[1].0, 6);
}

#[test]
fn test_str_le_orders_like_str() {
    let a = String::from("abc");
    let b = String::from("abd");
    let p = String::from("ab");
    assert!(str_le(&a, &b));
    assert!(!str_le(&b, &a));
    assert!(str_le(&p, &a));
    assert!(!str_le(&a, &p));
    assert!(str_le(&a, &a));
    assert!(str_le(&String::from("Zed"), &String::from("apple")));
}

#[test]
fn test_sort_strings_matches_std_sort() {
    let v: Vec<String> = vec!["pear", "apple", "Banana", "apple", "ä", "app"]
        .into_iter()
        .map(String::from)
        .collect();
    let mut expected = v.clone();
    expected.sort();
    assert_eq!(sort_strings(v), expected);
}

#[test]
fn test_completions_from_filters_joins_and_sorts() {
    let entries = vec![
        (String::from("notes.md"), false),
        (String::from("drafts"), true),
        (String::from("novel.md"), false),
        (String::from("todo.txt"), false),
    ];
    let got = completions_from("docs", "no", &entries);
    assert_eq!(got, vec![String::from("docs/notes.md"), String::from("docs/novel.md")]);
    let all = completions_from("docs/", "", &entries);
    assert_eq!(
        all,
        vec![
            String::from("docs/drafts/"),
            String::from("docs/notes.md"),
            String::from("docs/novel.md"),
            String::from("docs/todo.txt"),
        ]
    );
    assert!(completions_from("docs", "zz", &entries).is_empty());
}

#[test]
fn added_word_is_no_longer_reported() {
    let mut checker = SpellChecker::new();
    let before = checker.check_text("Xyzzy and teh xyzzy");
    assert!(before.iter().any(|m| m.word == "xyzzy"));
    checker.add_to_user_dictionary("XYZZY");
    let after = checker.check_text("Xyzzy and teh xyzzy");
    assert!(after.iter().all(|m| m.word != "xyzzy"));
    assert_eq!(after.len(), before.len() - 1);
}

#[test]
fn outline_leaves_out_fenced_code() {
    let items = extract_outline("```\n# not a heading\n```\n# Real", None);
    assert_eq!(items.len(), 1);
    assert_eq!(items[0].title, "Real");
    assert_eq!(items[0].level, 1);
    assert_eq!(items[0].line_number, 3);
    assert!(items[0].source_file_path.is_none());
}

#[test]
fn html_tags_and_short_words_are_left_out() {
    let words = extract_words("see <span class=\"note\">this</span> a`b` \u{e9} ok 3 < 4");
    let texts: Vec<&str> = words.iter().map(|(_, w)| w.as_str()).collect();
    assert_eq!(texts, vec!["see", "this", "ok"]);
    assert_eq!(words[1].0, 23);
    let cut = extract_words("ab`cd` xy'`z`");
    let texts: Vec<&str> = cut.iter().map(|(_, w)| w.as_str()).collect();
    assert_eq!(texts, vec!["ab", "xy"]);
}

#[test]
fn typed_paths_split_into_directory_and_prefix() {
    let s = |p: &str| {
        let (d, f) = split_partial_path(p);
        (d, f)
    };
    assert_eq!(s("REA"), (".".to_string(), "REA".to_string()));
    assert_eq!(s("docs/no"), ("docs".to_string(), "no".to_string()));
    assert_eq!(s("docs/"), ("docs/".to_string(), String::new()));
    assert_eq!(s("/etc"), ("/".to_string(), "etc".to_string()));
    assert_eq!(s("a/b/c"), ("a/b".to_string(), "c".to_string()));
    assert_eq!(s(""), (".".to_string(), String::new()));
}

#[test]
fn diff_sides_give_back_both_texts() {
    let current = "a\nb\nc\nd";
    let snapshot = "a\nx\nc\ny\nz";
    let diff = diff_lines(current, snapshot);
    let text = |d: &DiffLine| match d {
        DiffLine::Same(s) | DiffLine::Added(s) | DiffLine::Removed(s) => s.clone(),
    };
    let left: Vec<String> = diff.iter().map(|p| text(&p.0)).filter(|s| !s.is_empty()).collect();
    let right: Vec<String> = diff.iter().map(|p| text(&p.1)).filter(|s| !s.is_empty()).collect();
    assert_eq!(left, vec!["a", "b", "c", "d"]);
    assert_eq!(right, vec!["a", "x", "c", "y", "z"]);
    let same: Vec<String> = diff
        .iter()
        .filter_map(|p| if let DiffLine::Same(s) = &p.0 { Some(s.clone()) } else { None })
        .collect();
    assert_eq!(same, vec!["a", "c"]);
}

#[test]
fn runs_give_back_the_text_without_markup() {
    let runs = parse_inline_runs("a **b** _c_ ++d++ `e`");
    let joined: String = runs.iter().map(|r| r.text.as_str()).collect();
    assert_eq!(joined, "a b c d e");
    assert!(runs.iter().any(|r| r.bold && r.text == "b"));
}

#[test]
fn report_follows_the_text() {
    let checker = SpellChecker::new();
    let found = checker.check_text("xyzzy teh Xyzzy teh");
    let words: Vec<&str> = found.iter().map(|m| m.word.as_str()).collect();
    assert_eq!(words, vec!["xyzzy", "teh"]);
    let places: Vec<Vec<usize>> = found.iter().map(|m| m.locations.iter().map(|l| l.offset).collect()).collect();
    assert_eq!(places, vec![vec![0, 10], vec![6, 16]]);
    assert!(found.iter().all(|m| m.suggestions.len() <= 8));
}
