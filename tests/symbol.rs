use markdown_oxide::outline::{construct_tree, HeadingLevel, MDHeading, Node};

fn heading(level: usize, text: &str) -> MDHeading {
    MDHeading {
        level: HeadingLevel(level),
        heading_text: text.to_string(),
        range: Default::default(),
    }
}

fn leaf(level: usize, text: &str) -> Node {
    Node { heading: heading(level, text), children: None }
}

fn preorder(forest: &[Node], out: &mut Vec<(usize, String)>) {
    for node in forest {
        out.push((node.heading.level.0, node.heading.heading_text.clone()));
        if let Some(children) = &node.children {
            preorder(children, out);
        }
    }
}

#[test]
fn test_simple_tree() {
    let headings = vec![
        MDHeading { level: HeadingLevel(1), heading_text: "First".to_string(), range: Default::default() },
        MDHeading { level: HeadingLevel(2), heading_text: "Second".to_string(), range: Default::default() },
        MDHeading { level: HeadingLevel(3), heading_text: "Third".to_string(), range: Default::default() },
        MDHeading { level: HeadingLevel(2), heading_text: "Second".to_string(), range: Default::default() },
        MDHeading { level: HeadingLevel(1), heading_text: "First".to_string(), range: Default::default() },
        MDHeading { level: HeadingLevel(1), heading_text: "First".to_string(), range: Default::default() },
    ];

    let tree = construct_tree(&headings);

    let expected = vec![
        Node {
            heading: MDHeading { level: HeadingLevel(1), heading_text: "First".to_string(), range: Default::default() },
            children: Some(vec![
                Node {
                    heading: MDHeading { level: HeadingLevel(2), heading_text: "Second".to_string(), range: Default::default() },
                    children: Some(vec![Node {
                        heading: MDHeading { level: HeadingLevel(3), heading_text: "Third".to_string(), range: Default::default() },
                        children: None,
                    }]),
                },
                Node {
                    heading: MDHeading { level: HeadingLevel(2), heading_text: "Second".to_string(), range: Default::default() },
                    children: None,
                },
            ]),
        },
        Node {
            heading: MDHeading { level: HeadingLevel(1), heading_text: "First".to_string(), range: Default::default() },
            children: None,
        },
        Node {
            heading: MDHeading { level: HeadingLevel(1), heading_text: "First".to_string(), range: Default::default() },
            children: None,
        },
    ];

    assert_eq!(tree, Some(expected))
}

#[test]
fn test_simple_tree_different() {
    let headings = vec![
        MDHeading { level: HeadingLevel(1), heading_text: "First".to_string(), range: Default::default() },
        MDHeading { level: HeadingLevel(2), heading_text: "Second".to_string(), range: Default::default() },
        MDHeading { level: HeadingLevel(3), heading_text: "Third".to_string(), range: Default::default() },
        MDHeading { level: HeadingLevel(1), heading_text: "First".to_string(), range: Default::default() },
        MDHeading { level: HeadingLevel(1), heading_text: "First".to_string(), range: Default::default() },
    ];

    let tree = construct_tree(&headings);

    let expected = vec![
        Node {
            heading: MDHeading { level: HeadingLevel(1), heading_text: "First".to_string(), range: Default::default() },
            children: Some(vec![Node {
                heading: MDHeading { level: HeadingLevel(2), heading_text: "Second".to_string(), range: Default::default() },
                children: Some(vec![Node {
                    heading: MDHeading { level: HeadingLevel(3), heading_text: "Third".to_string(), range: Default::default() },
                    children: None,
                }]),
            }]),
        },
        Node {
            heading: MDHeading { level: HeadingLevel(1), heading_text: "First".to_string(), range: Default::default() },
            children: None,
        },
        Node {
            heading: MDHeading { level: HeadingLevel(1), heading_text: "First".to_string(), range: Default::default() },
            children: None,
        },
    ];

    assert_eq!(tree, Some(expected))
}

#[test]
fn empty_headings_have_no_tree() {
    let headings: Vec<MDHeading> = Vec::new();
    assert_eq!(construct_tree(&headings), None);
}

#[test]
fn single_heading_is_a_leaf() {
    assert_eq!(construct_tree(&[heading(2, "Only")]), Some(vec![leaf(2, "Only")]));
}

#[test]
fn level_gap_makes_direct_child() {
    let headings = vec![heading(1, "A"), heading(3, "B"), heading(2, "C")];
    let expected = vec![Node {
        heading: heading(1, "A"),
        children: Some(vec![leaf(3, "B"), leaf(2, "C")]),
    }];
    assert_eq!(construct_tree(&headings), Some(expected));
}

#[test]
fn equal_levels_are_siblings() {
    let headings = vec![heading(2, "A"), heading(2, "B"), heading(3, "C"), heading(2, "D")];
    let expected = vec![
        leaf(2, "A"),
        Node { heading: heading(2, "B"), children: Some(vec![leaf(3, "C")]) },
        leaf(2, "D"),
    ];
    assert_eq!(construct_tree(&headings), Some(expected));
}

#[test]
fn preorder_gives_back_the_headings() {
    let levels = [3usize, 1, 4, 1, 5, 2, 6, 2, 3, 5, 3, 5];
    let headings: Vec<MDHeading> =
        levels.iter().enumerate().map(|(i, l)| heading(*l, &format!("h{i}"))).collect();
    let tree = construct_tree(&headings).unwrap();
    let mut flat = Vec::new();
    preorder(&tree, &mut flat);
    let expected: Vec<(usize, String)> =
        headings.iter().map(|h| (h.level.0, h.heading_text.clone())).collect();
    assert_eq!(flat, expected);
}

use markdown_oxide::outline::{document_symbol, DocumentSymbolKind, Position, Range};

#[test]
fn document_symbols_follow_the_outline() {
    let r = Range { start: Position { line: 4, character: 0 }, end: Position { line: 4, character: 8 } };
    let headings = vec![
        heading(1, "Top"),
        MDHeading { level: HeadingLevel(2), heading_text: "Sub".to_string(), range: r },
        heading(1, "Next"),
    ];
    let symbols = document_symbol(&headings).unwrap();
    assert_eq!(symbols.len(), 2);
    assert_eq!(symbols[0].name, "Top");
    assert_eq!(symbols[0].kind, DocumentSymbolKind::Struct);
    let children = symbols[0].children.as_ref().unwrap();
    assert_eq!(children.len(), 1);
    assert_eq!(children[0].name, "Sub");
    assert_eq!(children[0].range, r);
    assert_eq!(children[0].selection_range, r);
    assert!(children[0].children.is_none());
    assert_eq!(symbols[1].name, "Next");
    assert!(symbols[1].children.is_none());
    assert!(document_symbol(&[]).is_none());
}
