use kodeck::domain::{AnnotationTagMapping, RepositoryId};
use kodeck::scan::searcher::{build_regex, lines_of, scan_files, search_file, SourceFile};

#[test]
fn configured_tags_are_case_insensitive_and_regex_escaped() {
    let content = "// todo: first\n// BUG+ second\n// TODO:\n// OTHER: no\n";
    let regex = build_regex(&vec!["TODO".to_owned(), "BUG+".to_owned()]).unwrap();

    let findings = search_file(content, "main.rs", &RepositoryId::new("repo"), &regex);

    assert_eq!(findings.len(), 2);
    assert_eq!(findings[0].tag, "TODO");
    assert_eq!(findings[1].tag, "BUG+");
}

#[test]
fn findings_carry_their_line_number_and_trimmed_message() {
    let content = "fn main() {}\r\n    // FIXME:   tidy this up   \r\n";
    let regex = build_regex(&vec!["FIXME".to_owned()]).unwrap();
    let findings = search_file(content, "src/lib.rs", &RepositoryId::new("repo"), &regex);
    assert_eq!(findings.len(), 1);
    assert_eq!(findings[0].line, 2);
    assert_eq!(findings[0].message, "tidy this up");
    assert_eq!(findings[0].path, "src/lib.rs");
}

#[test]
fn no_tags_means_no_pattern() {
    assert!(build_regex(&Vec::new()).is_none());
}

#[test]
fn lines_split_like_str_lines() {
    assert_eq!(lines_of("a\r\nb\n\nc"), vec!["a", "b", "", "c"]);
    assert_eq!(lines_of("a\n"), vec!["a"]);
    assert!(lines_of("").is_empty());
    assert_eq!(lines_of("x\ry"), vec!["x\ry"]);
}

#[test]
fn scanning_files_uses_the_mapped_tags() {
    let files = vec![
        SourceFile { relative_path: "a.rs".to_owned(), content: "// TODO: one".to_owned() },
        SourceFile { relative_path: "b.rs".to_owned(), content: "// BUG two\n// TODO three".to_owned() },
    ];
    let findings = scan_files(&files, &RepositoryId::new("repo"), &AnnotationTagMapping::defaults());
    assert_eq!(findings.len(), 3);
    assert_eq!(findings[1].path, "b.rs");
    assert_eq!(findings[1].tag, "BUG");
    assert_eq!(findings[2].line, 2);
    assert!(scan_files(&files, &RepositoryId::new("repo"), &Vec::new()).is_empty());
}
