use classlink_checker::MarkdownParser;

#[test]
fn test_parse_simple_class_link() {
    let parser = MarkdownParser::new();
    let content = "# MyClass\n\nThis class inherits from [BaseClass](BaseClass.md).\n";
    let links = parser.parse_file(content);

    assert_eq!(links.len(), 1);
    assert_eq!(links[0].from_class, "MyClass");
    assert_eq!(links[0].to_class, "BaseClass");
    assert_eq!(links[0].line_number, 3);
}

#[test]
fn test_extract_classes_from_headers() {
    let parser = MarkdownParser::new();
    let content = "# ClassA\n\n## Description\n\n# ClassB\n\n### Methods\n";
    let classes = parser.extract_classes(content);

    assert_eq!(classes.len(), 2);
    assert!(classes.contains("ClassA"));
    assert!(classes.contains("ClassB"));
}

#[test]
fn test_parse_multiple_links() {
    let parser = MarkdownParser::new();
    let content = "# MyClass\n\nThis class uses [HelperClass](HelperClass.md) and extends [BaseClass](BaseClass.md).\nIt also implements [Interface](Interface.md).\n";
    let links = parser.parse_file(content);

    assert_eq!(links.len(), 3);

    let link_pairs: Vec<(String, String)> = links
        .iter()
        .map(|l| (l.from_class.clone(), l.to_class.clone()))
        .collect();

    assert!(link_pairs.contains(&("MyClass".to_string(), "HelperClass".to_string())));
    assert!(link_pairs.contains(&("MyClass".to_string(), "BaseClass".to_string())));
    assert!(link_pairs.contains(&("MyClass".to_string(), "Interface".to_string())));
}

#[test]
fn test_parse_code_class_references() {
    let parser = MarkdownParser::new();
    let content = "# MyClass\n\n```rust\nstruct MyClass {\n    helper: HelperClass,\n}\n```\n\nThe `MyClass` uses `HelperClass` internally.\n";
    let links = parser.parse_file(content);

    assert_eq!(links.len(), 1);
    assert_eq!(links[0].from_class, "MyClass");
    assert_eq!(links[0].to_class, "HelperClass");
}

#[test]
fn test_header_extraction_ignores_deep_headers() {
    // only single-hash headers declare classes
    let parser = MarkdownParser::new();
    let content = "# ClassA\n## x\n# ClassB\n";
    let classes = parser.extract_classes(content);
    assert_eq!(classes.len(), 2);
    assert!(classes.contains("ClassA"));
    assert!(classes.contains("ClassB"));
    let links = parser.parse_file(content);
    assert_eq!(links.len(), 0);
}

#[test]
fn test_duplicate_link_recorded_once() {
    // the first occurrence of a pair fixes the line number
    let parser = MarkdownParser::new();
    let content = "# A\n[x](B.md)\n[y](B.md)\n";
    let links = parser.parse_file(content);
    assert_eq!(links.len(), 1);
    assert_eq!(links[0].to_class, "B");
    assert_eq!(links[0].line_number, 2);
}

#[test]
fn test_bracketed_mention_not_double_counted() {
    // a linked name on the same line is not also a bare mention
    let parser = MarkdownParser::new();
    let content = "# MyClass\n[HelperClass](HelperClass.md) and HelperClass text\n";
    let links = parser.parse_file(content);
    assert_eq!(links.len(), 1);
    assert_eq!(links[0].to_class, "HelperClass");
}

#[test]
fn test_link_target_trims_every_md_suffix() {
    let parser = MarkdownParser::new();
    let content = "# A\nsee [b](B.md.md)\n";
    let links = parser.parse_file(content);
    assert_eq!(links.len(), 1);
    assert_eq!(links[0].to_class, "B");
}

#[test]
fn test_text_before_first_header_is_ignored() {
    let parser = MarkdownParser::new();
    let content = "see [b](B.md) and SomeClass\n# A\n";
    let links = parser.parse_file(content);
    assert_eq!(links.len(), 0);
}
