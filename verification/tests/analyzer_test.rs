use classlink_checker::{ClassLink, LinkAnalyzer, NameSet};

fn name_set(names: &[&str]) -> NameSet {
    let mut s = NameSet::new();
    for n in names {
        s.insert(n.to_string());
    }
    s
}

fn link(from: &str, to: &str, line: usize) -> ClassLink {
    ClassLink { from_class: from.to_string(), to_class: to.to_string(), line_number: line }
}

#[test]
fn test_find_isolated_classes() {
    let analyzer = LinkAnalyzer::new();
    let classes = name_set(&["ClassA", "ClassB", "ClassC", "IsolatedClass"]);

    let links = vec![link("ClassA", "ClassB", 1), link("ClassB", "ClassC", 2)];

    let stats = analyzer.analyze(classes, links);

    assert_eq!(stats.total_classes, 4);
    assert_eq!(stats.isolated_classes.len(), 1);
    assert!(stats.isolated_classes.contains(&"IsolatedClass".to_string()));
}

#[test]
fn test_class_link_counts() {
    let analyzer = LinkAnalyzer::new();
    let classes = name_set(&["ClassA", "ClassB", "ClassC"]);

    let links = vec![
        link("ClassA", "ClassB", 1),
        link("ClassA", "ClassC", 2),
        link("ClassC", "ClassB", 3),
    ];

    let stats = analyzer.analyze(classes, links);

    assert_eq!(stats.count_for("ClassA").unwrap().outgoing_links, 2);
    assert_eq!(stats.count_for("ClassA").unwrap().incoming_links, 0);

    assert_eq!(stats.count_for("ClassB").unwrap().outgoing_links, 0);
    assert_eq!(stats.count_for("ClassB").unwrap().incoming_links, 2);

    assert_eq!(stats.count_for("ClassC").unwrap().outgoing_links, 1);
    assert_eq!(stats.count_for("ClassC").unwrap().incoming_links, 1);
}

#[test]
fn test_most_linked_and_linking_classes() {
    let analyzer = LinkAnalyzer::new();
    let classes = name_set(&["Hub", "Node1", "Node2", "Node3"]);

    let links = vec![
        link("Hub", "Node1", 1),
        link("Hub", "Node2", 2),
        link("Hub", "Node3", 3),
        link("Node1", "Hub", 4),
        link("Node2", "Hub", 5),
    ];

    let stats = analyzer.analyze(classes, links);

    assert_eq!(stats.most_linking_class, Some(("Hub".to_string(), 3)));
    assert_eq!(stats.most_linked_class, Some(("Hub".to_string(), 2)));
}

#[test]
fn test_degree_sums_match_edge_count() {
    // with every endpoint declared, outgoing and incoming degrees each sum
    // to the number of edges, duplicates included
    let analyzer = LinkAnalyzer::new();
    let classes = name_set(&["A", "B", "C"]);
    let links = vec![
        link("A", "B", 1),
        link("A", "B", 2),
        link("B", "C", 3),
        link("C", "A", 4),
    ];
    let stats = analyzer.analyze(classes, links);
    let mut out_sum = 0;
    let mut in_sum = 0;
    for n in ["A", "B", "C"] {
        out_sum += stats.count_for(n).unwrap().outgoing_links;
        in_sum += stats.count_for(n).unwrap().incoming_links;
    }
    assert_eq!(out_sum, 4);
    assert_eq!(in_sum, 4);
}

#[test]
fn test_zero_edge_graph() {
    // no edges: both hubs are absent and every declaration is isolated
    let analyzer = LinkAnalyzer::new();
    let classes = name_set(&["One", "Two", "Three"]);
    let stats = analyzer.analyze(classes, vec![]);
    assert_eq!(stats.total_classes, 3);
    assert_eq!(stats.most_linked_class, None);
    assert_eq!(stats.most_linking_class, None);
    assert_eq!(
        stats.isolated_classes,
        vec!["One".to_string(), "Two".to_string(), "Three".to_string()]
    );
}

#[test]
fn test_analyze_idempotent() {
    // identical inputs give identical statistics, field for field
    let analyzer = LinkAnalyzer::new();
    let mk_classes = || name_set(&["A", "B", "C", "Lone"]);
    let mk_links = || vec![link("A", "B", 1), link("B", "A", 2), link("C", "B", 7)];
    let s1 = analyzer.analyze(mk_classes(), mk_links());
    let s2 = analyzer.analyze(mk_classes(), mk_links());
    assert_eq!(s1.total_classes, s2.total_classes);
    assert_eq!(s1.isolated_classes, s2.isolated_classes);
    assert_eq!(s1.class_link_counts, s2.class_link_counts);
    assert_eq!(s1.most_linked_class, s2.most_linked_class);
    assert_eq!(s1.most_linking_class, s2.most_linking_class);
}

#[test]
fn test_tie_break_takes_earliest_declaration() {
    // two names share the maximum; the earlier declaration is reported
    let analyzer = LinkAnalyzer::new();
    let classes = name_set(&["First", "Second"]);
    let links = vec![link("First", "Second", 1), link("Second", "First", 2)];
    let stats = analyzer.analyze(classes, links);
    assert_eq!(stats.most_linked_class, Some(("First".to_string(), 1)));
    assert_eq!(stats.most_linking_class, Some(("First".to_string(), 1)));
}

#[test]
fn test_undeclared_endpoints_get_no_entry() {
    // an edge to an undeclared name counts for the declared side only
    let analyzer = LinkAnalyzer::new();
    let classes = name_set(&["Known"]);
    let links = vec![link("Known", "Stranger", 3)];
    let stats = analyzer.analyze(classes, links);
    assert_eq!(stats.total_classes, 1);
    assert!(stats.count_for("Stranger").is_none());
    assert_eq!(stats.count_for("Known").unwrap().outgoing_links, 1);
    assert_eq!(stats.count_for("Known").unwrap().incoming_links, 0);
    // Known appears in an edge, so it is not isolated
    assert_eq!(stats.isolated_classes.len(), 0);
    assert_eq!(stats.most_linking_class, Some(("Known".to_string(), 1)));
    assert_eq!(stats.most_linked_class, None);
}
