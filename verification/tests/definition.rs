use grlx_lsp::definition::{
    choose_target, definition_location, directory_candidate_of, entry_file, start_of,
};
use grlx_lsp::diagnostics::Position;

#[test]
fn directory_candidate_lies_beside_the_file() {
    assert_eq!(directory_candidate_of("/srv/apache.grlx").unwrap(), "/srv/apache");
    assert_eq!(directory_candidate_of("/srv/../apache.grlx").unwrap(), "/srv/../apache");
    assert_eq!(directory_candidate_of("apache.grlx").unwrap(), "apache");
    assert_eq!(directory_candidate_of("/srv/a.b.grlx").unwrap(), "/srv/a.b");
    assert_eq!(directory_candidate_of("/srv/.grlx").unwrap(), "/srv/.grlx");
}

#[test]
fn directory_candidate_needs_a_directory_and_a_name() {
    assert!(directory_candidate_of("/").is_none());
    assert!(directory_candidate_of("").is_none());
    assert!(directory_candidate_of("/srv/..").is_none());
}

#[test]
fn existing_candidate_is_the_target() {
    let target = |c: bool, d: bool| {
        choose_target("/srv/a.grlx".to_string(), Some("/srv/a".to_string()), c, d)
    };
    assert_eq!(target(true, true).unwrap(), "/srv/a.grlx");
    assert_eq!(target(true, false).unwrap(), "/srv/a.grlx");
    assert_eq!(target(false, true).unwrap(), "/srv/a");
    assert!(target(false, false).is_none());
}

#[test]
fn missing_directory_candidate_is_never_the_target() {
    assert!(choose_target("/".to_string(), None, false, true).is_none());
    assert!(choose_target("/".to_string(), None, false, false).is_none());
    assert_eq!(choose_target("/".to_string(), None, true, false).unwrap(), "/");
}

#[test]
fn directory_is_entered_by_its_entry_file() {
    assert_eq!(entry_file("/srv/a".to_string(), true), "/srv/a/init.grlx");
    assert_eq!(entry_file("/srv/a/".to_string(), true), "/srv/a/init.grlx");
    assert_eq!(entry_file("/srv/a.grlx".to_string(), false), "/srv/a.grlx");
}

#[test]
fn location_is_the_start_of_the_file() {
    let location = definition_location("/srv/my recipes/a/init.grlx").unwrap();
    assert_eq!(location.uri, "file:///srv/my%20recipes/a/init.grlx");
    assert_eq!(location.range.start, Position { line: 0, character: 0 });
    assert_eq!(location.range.end, Position { line: 0, character: 0 });
    assert_eq!(location, start_of("file:///srv/my%20recipes/a/init.grlx".to_string()));
}

#[test]
fn relative_path_has_no_location() {
    assert!(definition_location("a/init.grlx").is_none());
    assert!(definition_location("").is_none());
}
