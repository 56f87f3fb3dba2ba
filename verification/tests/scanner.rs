use grlx_lsp::mapping::DocumentMapping;
use grlx_lsp::scanner::parse_includes_map;
use grlx_lsp::text::{chars_of, find_line_break, starts_with, string_of};

fn entries(mapping: &DocumentMapping) -> Vec<(usize, String)> {
    let mut all = Vec::new();
    for i in 0..mapping.len() {
        let entry = mapping.entry(i);
        all.push((entry.line, entry.path.clone()));
    }
    all
}

fn entry(line: usize, path: &str) -> (usize, String) {
    (line, path.to_string())
}

#[test]
fn shorthand_reference_names_a_file_beside_the_document() {
    let mapping = parse_includes_map("include:\n  - .apache", "base");
    assert_eq!(entries(&mapping), vec![entry(1, "base/apache.grlx")]);
    assert_eq!(mapping.get(1).unwrap(), "base/apache.grlx");
}

#[test]
fn relative_reference_is_kept_whole() {
    let mapping = parse_includes_map("include:\n  - ../apache", "base");
    assert_eq!(entries(&mapping), vec![entry(1, "base/../apache.grlx")]);
}

#[test]
fn reference_line_without_a_section_gives_nothing() {
    assert_eq!(parse_includes_map("  - .apache", "base").len(), 0);
    assert_eq!(parse_includes_map("", "base").len(), 0);
    assert_eq!(parse_includes_map("\n\n", "base").len(), 0);
}

#[test]
fn lines_outside_the_section_give_nothing() {
    let text = "  - .before\nsteps:\n  - .early\ninclude:\n  - .one\n\n  - two/three\nsteps:\n  - .after\ninclude:\n  - .late\n";
    let mapping = parse_includes_map(text, "/srv/recipes");
    assert_eq!(
        entries(&mapping),
        vec![entry(4, "/srv/recipes/one.grlx"), entry(6, "/srv/recipes/two/three.grlx")]
    );
    assert!(mapping.get(0).is_none());
    assert!(mapping.get(2).is_none());
    assert!(mapping.get(3).is_none());
    assert!(mapping.get(5).is_none());
    assert!(mapping.get(7).is_none());
    assert!(mapping.get(8).is_none());
    assert!(mapping.get(10).is_none());
    assert!(mapping.get(11).is_none());
}

#[test]
fn section_without_an_end_runs_to_the_last_line() {
    let mapping = parse_includes_map("include:\n  - .a\nother: 1\n  - .b", "d");
    assert_eq!(entries(&mapping), vec![entry(1, "d/a.grlx"), entry(3, "d/b.grlx")]);
}

#[test]
fn markers_are_prefixes_of_their_lines() {
    let mapping = parse_includes_map("include: yes\n  - .a\nsteps:now\n  - .b", "d");
    assert_eq!(entries(&mapping), vec![entry(1, "d/a.grlx")]);
    let indented = parse_includes_map(" include:\n  - .a", "d");
    assert_eq!(indented.len(), 0);
    let open_ended = parse_includes_map("include:\n  - .a\n steps:\n  - .b", "d");
    assert_eq!(entries(&open_ended), vec![entry(1, "d/a.grlx"), entry(3, "d/b.grlx")]);
}

#[test]
fn malformed_lines_are_passed_over() {
    let mapping = parse_includes_map("include:\n - .a\n  -.b\n   - .c\n  - .d\n", "d");
    assert_eq!(entries(&mapping), vec![entry(4, "d/d.grlx")]);
}

#[test]
fn lone_dot_and_empty_reference_are_kept_as_they_stand() {
    let mapping = parse_includes_map("include:\n  - .\n  - \n  - ..\n", "d");
    assert_eq!(
        entries(&mapping),
        vec![entry(1, "d/..grlx"), entry(2, "d/.grlx"), entry(3, "d/...grlx")]
    );
}

#[test]
fn text_after_the_module_of_a_shorthand_is_dropped() {
    let mapping = parse_includes_map("include:\n  - .apache.conf # web\n", "d");
    assert_eq!(entries(&mapping), vec![entry(1, "d/apache.grlx")]);
}

#[test]
fn absolute_reference_replaces_the_directory() {
    let mapping = parse_includes_map("include:\n  - /etc/shared\n", "/srv");
    assert_eq!(entries(&mapping), vec![entry(1, "/etc/shared.grlx")]);
}

#[test]
fn carriage_return_before_a_line_feed_ends_the_line() {
    let mapping = parse_includes_map("include:\r\n  - .a\r\n  - b\r\nsteps:\r\n  - .c\r\n", "d");
    assert_eq!(entries(&mapping), vec![entry(1, "d/a.grlx"), entry(2, "d/b.grlx")]);
}

#[test]
fn carriage_return_at_the_end_of_the_text_stays_in_the_line() {
    let mapping = parse_includes_map("include:\n  - b\r", "d");
    assert_eq!(entries(&mapping), vec![entry(1, "d/b\r.grlx")]);
}

#[test]
fn scanning_twice_gives_the_same_mapping() {
    let text = "include:\n  - .a\n  - b/c\nsteps:\n";
    let first = parse_includes_map(text, "/srv");
    let second = parse_includes_map(text, "/srv");
    assert_eq!(entries(&first), entries(&second));
    assert_eq!(first.paths(), second.paths());
    assert_eq!(first.paths(), vec!["/srv/a.grlx".to_string(), "/srv/b/c.grlx".to_string()]);
}

#[test]
fn text_helpers() {
    let chars = chars_of("añb\nc");
    assert_eq!(chars, vec!['a', 'ñ', 'b', '\n', 'c']);
    assert_eq!(string_of(&chars), "añb\nc");
    assert_eq!(string_of(&chars[1..3]), "ñb");
    assert_eq!(find_line_break(&chars, 0), 3);
    assert_eq!(find_line_break(&chars, 3), 3);
    assert_eq!(find_line_break(&chars, 4), 5);
    assert_eq!(find_line_break(&chars, 5), 5);
    assert!(starts_with(&chars, &chars_of("añ")));
    assert!(starts_with(&chars, &[]));
    assert!(!starts_with(&chars, &chars_of("ab")));
    assert!(!starts_with(&chars_of("a"), &chars_of("ab")));
}

/// The scan written with the iterators of the standard library.
fn by_iterators(text: &str, base: &str) -> Vec<(usize, String)> {
    text.lines()
        .enumerate()
        .skip_while(|(_, line)| !line.starts_with("include:"))
        .take_while(|(_, line)| !line.starts_with("steps:"))
        .filter_map(|(number, line)| {
            let reference = grlx_lsp::grammar::parse_include_line(line)?;
            let module = grlx_lsp::grammar::parse_current(&reference).unwrap_or(reference);
            let file = std::path::Path::new(base).join(format!("{}.grlx", module));
            Some((number, file.to_string_lossy().into_owned()))
        })
        .collect()
}

#[test]
fn scan_agrees_with_the_iterators_on_all_short_texts() {
    let pieces =
        ["include:", "steps:", "  - .a", "  - b/c", "\n", "\r\n", "\r", " ", "x"];
    let mut texts = vec![String::new()];
    let mut from = 0;
    for _ in 0..5 {
        let upto = texts.len();
        for i in from..upto {
            for piece in pieces {
                let longer = format!("{}{}", texts[i], piece);
                texts.push(longer);
            }
        }
        from = upto;
    }
    assert_eq!(texts.len(), 1 + 9 + 81 + 729 + 6561 + 59049);
    for text in &texts {
        let mapping = parse_includes_map(text, "/srv");
        assert_eq!(entries(&mapping), by_iterators(text, "/srv"), "on {:?}", text);
    }
}
