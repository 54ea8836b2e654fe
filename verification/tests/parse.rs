use gloam::ir::Version;
use gloam::parse::{compute_ext_enum_value, parse_version, rewrite_line_comments};

// ---- rewrite_line_comments ----

#[test]
fn line_comment_becomes_block_comment() {
    assert_eq!(
        rewrite_line_comments("int x; // hello\nint y;"),
        "int x; /* hello */\nint y;"
    );
}

#[test]
fn line_comment_at_eof_without_newline() {
    assert_eq!(rewrite_line_comments("// end"), "/* end */\n");
}

#[test]
fn url_in_block_comment_is_untouched() {
    let s = "/* see https://registry.khronos.org for details */\nint x;";
    assert_eq!(rewrite_line_comments(s), s);
}

#[test]
fn double_slash_in_block_comment_is_untouched() {
    let s = "/* a // b */\nint x;";
    assert_eq!(rewrite_line_comments(s), s);
}

#[test]
fn url_in_plain_text_is_untouched() {
    let s = "#define SPEC_URL \"https://example.com/path\"";
    assert_eq!(rewrite_line_comments(s), s);
}

#[test]
fn text_without_comments_is_identity() {
    let s = "typedef unsigned int GLenum;\n";
    assert_eq!(rewrite_line_comments(s), s);
}

// ---- parse_version ----

#[test]
fn parse_version_accepts_major_minor() {
    assert_eq!(parse_version("3.3").unwrap(), Version::new(3, 3));
}

#[test]
fn parse_version_rejects_missing_minor() {
    assert!(parse_version("3").is_err());
}

#[test]
fn parse_version_error_message() {
    assert_eq!(
        parse_version("3").unwrap_err().message(),
        "invalid version '3', expected major.minor"
    );
    assert_eq!(
        parse_version("x.1").unwrap_err().message(),
        "invalid digit found in string"
    );
}

// ---- compute_ext_enum_value ----

#[test]
fn ext_enum_offset_formula() {
    assert_eq!(compute_ext_enum_value(1, 0, None), 1_000_000_000);
    assert_eq!(compute_ext_enum_value(2, 3, None), 1_000_001_003);
    assert_eq!(compute_ext_enum_value(2, 3, Some("-")), -1_000_001_003);
}

#[test]
fn ext_enum_other_direction_is_positive() {
    assert_eq!(compute_ext_enum_value(3, 1, Some("+")), 1_000_002_001);
}

#[test]
fn rewrite_is_idempotent_on_its_output() {
    let once = rewrite_line_comments("a // b\nc // d");
    assert_eq!(rewrite_line_comments(&once), once);
}

#[test]
fn rewriting_twice_changes_nothing_more() {
    let inputs = [
        "int a; // first\nint b; /* kept // as is */ // second",
        "see http://example.com // note\n",
        "//\n// \t spaced  \n/* open",
        "x /* a */// tail\ny",
    ];
    for s in inputs {
        let once = rewrite_line_comments(s);
        assert_eq!(rewrite_line_comments(&once), once, "input {:?}", s);
    }
    // A line comment holding `*/` ends its block early on the next pass.
    let once = rewrite_line_comments("// x */ // y");
    assert_eq!(once, "/* x */ // y */\n");
    assert_ne!(rewrite_line_comments(&once), once);
}
