use comment_scan::style::comment_type_to_single_line_comment;
use comment_scan::style::str_to_comment_type;
use comment_scan::style::CommentType;

#[test]
fn c_tokens_select_c_style() {
    assert_eq!(str_to_comment_type("c"), CommentType::C);
    assert_eq!(str_to_comment_type("js"), CommentType::C);
}

#[test]
fn python_tokens_select_python_style() {
    assert_eq!(str_to_comment_type("python"), CommentType::PYTHON);
    assert_eq!(str_to_comment_type("py"), CommentType::PYTHON);
}

#[test]
fn lisp_tokens_select_lisp_style() {
    assert_eq!(str_to_comment_type("clj"), CommentType::LISP);
    assert_eq!(str_to_comment_type("lsp"), CommentType::LISP);
    assert_eq!(str_to_comment_type("lisp"), CommentType::LISP);
}

#[test]
fn token_matching_is_case_insensitive() {
    assert_eq!(str_to_comment_type("C"), CommentType::C);
    assert_eq!(str_to_comment_type("JS"), CommentType::C);
    assert_eq!(str_to_comment_type("Python"), CommentType::PYTHON);
    assert_eq!(str_to_comment_type("PY"), CommentType::PYTHON);
    assert_eq!(str_to_comment_type("Lisp"), CommentType::LISP);
    assert_eq!(str_to_comment_type("CLJ"), CommentType::LISP);
}

#[test]
fn unknown_tokens_select_default_style() {
    assert_eq!(str_to_comment_type("unknown"), CommentType::DEFAULT);
    assert_eq!(str_to_comment_type(""), CommentType::DEFAULT);
    assert_eq!(str_to_comment_type("rust"), CommentType::DEFAULT);
    assert_eq!(str_to_comment_type("./src"), CommentType::DEFAULT);
}

#[test]
fn markers_per_style() {
    assert_eq!(comment_type_to_single_line_comment(&CommentType::C), "//");
    assert_eq!(comment_type_to_single_line_comment(&CommentType::DEFAULT), "//");
    assert_eq!(comment_type_to_single_line_comment(&CommentType::LISP), ";");
    assert_eq!(comment_type_to_single_line_comment(&CommentType::PYTHON), "#");
}

#[test]
fn unknown_token_behaves_like_default() {
    let unknown = str_to_comment_type("unknown");
    let marker_unknown = comment_type_to_single_line_comment(&unknown);
    let marker_default = comment_type_to_single_line_comment(&CommentType::DEFAULT);
    assert_eq!(marker_unknown, marker_default);
    assert_eq!(marker_unknown, "//");
}
