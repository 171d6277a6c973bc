use comment_scan::scan::base_name;
use comment_scan::scan::scan_contents;
use comment_scan::scan::trim_str;
use comment_scan::scan::CheckedFile;
use comment_scan::style::str_to_comment_type;
use comment_scan::style::CommentType;

#[test]
fn python_file_scenario() {
    let contents = "# hello\nx = 1\n  # world  ";
    let style = str_to_comment_type("python");
    let file = CheckedFile::check_file(String::from("a.py"), contents, &style);
    assert_eq!(file.path, "a.py");
    assert_eq!(file.comment_lines.len(), 2);
    assert_eq!(file.comment_lines[0].number, 1);
    assert_eq!(file.comment_lines[0].contents, "# hello");
    assert_eq!(file.comment_lines[1].number, 3);
    assert_eq!(file.comment_lines[1].contents, "# world");
}

#[test]
fn js_file_scenario() {
    let contents = "// note\ncode();";
    let style = str_to_comment_type("js");
    let file = CheckedFile::check_file(String::from("b.js"), contents, &style);
    assert_eq!(file.comment_lines.len(), 1);
    assert_eq!(file.comment_lines[0].number, 1);
    assert_eq!(file.comment_lines[0].contents, "// note");
}

#[test]
fn unknown_style_scans_like_default() {
    let contents = "// kept\n# dropped\n; dropped too";
    let with_unknown = scan_contents(contents, "//");
    let style = str_to_comment_type("unknown");
    let file = CheckedFile::check_file(String::from("m.txt"), contents, &style);
    assert_eq!(file.comment_lines, with_unknown);
    assert_eq!(file.comment_lines.len(), 1);
    assert_eq!(file.comment_lines[0].contents, "// kept");
}

#[test]
fn lisp_style_matches_semicolon_lines() {
    let contents = ";; header\n(def x 1)\n ; note";
    let result = scan_contents(contents, ";");
    assert_eq!(result.len(), 2);
    assert_eq!(result[0].number, 1);
    assert_eq!(result[0].contents, ";; header");
    assert_eq!(result[1].number, 3);
    assert_eq!(result[1].contents, "; note");
}

#[test]
fn numbering_counts_every_split_segment() {
    let contents = "\n\n// first\ncode();\n// second\n";
    let result = scan_contents(contents, "//");
    assert_eq!(result.len(), 2);
    assert_eq!(result[0].number, 3);
    assert_eq!(result[1].number, 5);
}

#[test]
fn line_numbers_strictly_increase() {
    let contents = "// a\n// b\nx\n// c\n// d";
    let result = scan_contents(contents, "//");
    assert_eq!(result.len(), 4);
    for pair in result.windows(2) {
        assert!(pair[0].number < pair[1].number);
    }
}

#[test]
fn every_result_starts_with_marker() {
    let contents = "  # yes\n#also\nno # not this\n   plain";
    let result = scan_contents(contents, "#");
    assert_eq!(result.len(), 2);
    for line in &result {
        assert!(line.contents.starts_with('#'));
    }
}

#[test]
fn scanning_twice_gives_identical_results() {
    let contents = "// a\n  x\n\t// b\n";
    let first = scan_contents(contents, "//");
    let second = scan_contents(contents, "//");
    assert_eq!(first, second);
}

#[test]
fn empty_contents_match_nothing() {
    let result = scan_contents("", "//");
    assert!(result.is_empty());
}

#[test]
fn matched_text_is_trimmed() {
    let contents = "\t  // padded comment  \t";
    let result = scan_contents(contents, "//");
    assert_eq!(result.len(), 1);
    assert_eq!(result[0].contents, "// padded comment");
}

#[test]
fn trailing_newline_adds_no_match() {
    let with_trailing = scan_contents("// only\n", "//");
    let without_trailing = scan_contents("// only", "//");
    assert_eq!(with_trailing.len(), 1);
    assert_eq!(with_trailing.len(), without_trailing.len());
    assert_eq!(with_trailing[0].number, 1);
}

#[test]
fn comment_count_reports_matches() {
    let style = CommentType::PYTHON;
    let file = CheckedFile::check_file(String::from("c.py"), "# one\n# two\nthree", &style);
    assert_eq!(file.comment_count(), 2);
}

#[test]
fn trim_str_removes_surrounding_whitespace() {
    assert_eq!(trim_str("  # world  "), "# world");
    assert_eq!(trim_str("\t\r\n"), "");
    assert_eq!(trim_str("bare"), "bare");
    assert_eq!(trim_str("\u{00A0}wide\u{3000}"), "wide");
}

#[test]
fn base_name_takes_text_after_last_slash() {
    assert_eq!(base_name("dir/sub/file.py"), "file.py");
    assert_eq!(base_name("file.py"), "file.py");
    assert_eq!(base_name("dir/"), "");
}
