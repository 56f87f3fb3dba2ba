use grlx_lsp::diagnostics::{
    generate_diagnostics, missing_file_diagnostic, missing_file_named, Diagnostic, Position,
    Range, Severity, MARKER_COLUMN,
};
use grlx_lsp::scanner::parse_includes_map;

fn expected(name: &str, line: u32) -> Diagnostic {
    let place = Position { line, character: 200 };
    Diagnostic {
        range: Range { start: place, end: place },
        severity: Severity::Error,
        source: "grlx-lsp".to_string(),
        message: format!("File {} does not exist", name),
    }
}

#[test]
fn marker_column_is_fixed() {
    assert_eq!(MARKER_COLUMN, 200);
}

#[test]
fn diagnostic_names_the_file() {
    assert_eq!(missing_file_named("apache.grlx", 3), expected("apache.grlx", 3));
    assert_eq!(missing_file_named("", 0).message, "File  does not exist");
}

#[test]
fn diagnostic_names_the_final_component_only() {
    let diagnostic = missing_file_diagnostic("/srv/recipes/../apache.grlx", 7).unwrap();
    assert_eq!(diagnostic, expected("apache.grlx", 7));
    assert_eq!(diagnostic.message, "File apache.grlx does not exist");
    assert_eq!(diagnostic.range.start, Position { line: 7, character: 200 });
    assert_eq!(diagnostic.range.end, Position { line: 7, character: 200 });
    assert_eq!(diagnostic.severity, Severity::Error);
    assert_eq!(diagnostic.source, "grlx-lsp");
}

#[test]
fn path_without_a_final_component_gives_no_diagnostic() {
    assert!(missing_file_diagnostic("/", 1).is_none());
    assert!(missing_file_diagnostic("/srv/..", 1).is_none());
    assert!(missing_file_diagnostic("", 1).is_none());
}

#[test]
fn present_paths_give_no_diagnostic() {
    let mapping = parse_includes_map("include:\n  - .a\n  - .b\n", "/srv");
    assert!(generate_diagnostics(&mapping, "file:///srv/x.grlx", &vec![true, true]).is_none());
}

#[test]
fn each_missing_path_gives_one_diagnostic() {
    let mapping = parse_includes_map("include:\n  - .a\n\n  - sub/b\n  - .c\n", "/srv");
    let published =
        generate_diagnostics(&mapping, "file:///srv/x.grlx", &vec![false, true, false]).unwrap();
    assert_eq!(published.uri, "file:///srv/x.grlx");
    assert_eq!(published.diagnostics, vec![expected("a.grlx", 1), expected("c.grlx", 4)]);
    let again =
        generate_diagnostics(&mapping, "file:///srv/x.grlx", &vec![false, false, false]).unwrap();
    assert_eq!(
        again.diagnostics,
        vec![expected("a.grlx", 1), expected("b.grlx", 3), expected("c.grlx", 4)]
    );
}

#[test]
fn removed_file_is_reported_on_the_next_run() {
    let mapping = parse_includes_map("include:\n  - .a\n", "/srv");
    assert!(generate_diagnostics(&mapping, "doc", &vec![true]).is_none());
    let published = generate_diagnostics(&mapping, "doc", &vec![false]).unwrap();
    assert_eq!(published.diagnostics, vec![expected("a.grlx", 1)]);
}

#[test]
fn entries_without_a_finding_are_not_reported() {
    let mapping = parse_includes_map("include:\n  - .a\n  - .b\n", "/srv");
    assert!(generate_diagnostics(&mapping, "doc", &vec![]).is_none());
    let published = generate_diagnostics(&mapping, "doc", &vec![false]).unwrap();
    assert_eq!(published.diagnostics, vec![expected("a.grlx", 1)]);
    let longer = generate_diagnostics(&mapping, "doc", &vec![true, false, false, false]).unwrap();
    assert_eq!(longer.diagnostics, vec![expected("b.grlx", 2)]);
}

#[test]
fn empty_mapping_publishes_nothing() {
    let mapping = parse_includes_map("steps:\n", "/srv");
    assert!(generate_diagnostics(&mapping, "doc", &vec![]).is_none());
    assert!(generate_diagnostics(&mapping, "doc", &vec![false]).is_none());
}
