use grlx_lsp::index::{update_files, DocumentIndex};
use grlx_lsp::scanner::parse_includes_map;

#[test]
fn new_index_holds_no_document() {
    let index = DocumentIndex::new();
    assert!(index.get("file:///srv/a.grlx").is_none());
}

#[test]
fn update_scans_against_the_directory_of_the_document() {
    let mut index = DocumentIndex::new();
    let updated = update_files(
        &mut index,
        "file:///srv/recipes/web.grlx".to_string(),
        "include:\n  - .apache\n  - ../common\n",
    );
    assert!(updated);
    let mapping = index.get("file:///srv/recipes/web.grlx").unwrap();
    assert_eq!(mapping.len(), 2);
    assert_eq!(mapping.get(1).unwrap(), "/srv/recipes/apache.grlx");
    assert_eq!(mapping.get(2).unwrap(), "/srv/recipes/../common.grlx");
    assert!(index.get("file:///srv/recipes/other.grlx").is_none());
}

#[test]
fn update_without_a_directory_changes_nothing() {
    let mut index = DocumentIndex::new();
    for id in ["file:///", "untitled:Untitled-1", "file://far.example/srv/a.grlx", "a.grlx", ""] {
        assert!(!update_files(&mut index, id.to_string(), "include:\n  - .a\n"));
        assert!(index.get(id).is_none());
    }
}

#[test]
fn second_update_replaces_the_first() {
    let mut index = DocumentIndex::new();
    let id = "file:///srv/web.grlx";
    assert!(update_files(&mut index, id.to_string(), "include:\n  - .a\n  - .b\n  - .c\n"));
    assert!(update_files(&mut index, id.to_string(), "include:\n\n  - .d\n"));
    let mapping = index.get(id).unwrap();
    assert_eq!(mapping.len(), 1);
    assert!(mapping.get(1).is_none());
    assert_eq!(mapping.get(2).unwrap(), "/srv/d.grlx");
    assert!(mapping.get(3).is_none());
}

#[test]
fn identifier_is_decoded_into_a_path() {
    let mut index = DocumentIndex::new();
    let id = "file:///srv/my%20recipes/web.grlx";
    assert!(update_files(&mut index, id.to_string(), "include:\n  - .a\n"));
    assert_eq!(index.get(id).unwrap().get(1).unwrap(), "/srv/my recipes/a.grlx");
}

#[test]
fn documents_are_kept_apart() {
    let mut index = DocumentIndex::new();
    index.insert("one".to_string(), parse_includes_map("include:\n  - .a\n", "/x"));
    index.insert("two".to_string(), parse_includes_map("include:\n\n  - .b\n", "/y"));
    index.insert("one".to_string(), parse_includes_map("include:\n  - .c\n", "/z"));
    assert_eq!(index.get("one").unwrap().get(1).unwrap(), "/z/c.grlx");
    assert_eq!(index.get("two").unwrap().get(2).unwrap(), "/y/b.grlx");
    assert!(index.get("two").unwrap().get(1).is_none());
    assert!(index.get("three").is_none());
    assert!(index.get("on").is_none());
}
