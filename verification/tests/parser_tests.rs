use graph_core::edge::{Edge, EdgeHead, EdgeLine};
use graph_core::node::{Node, NodeShape};
use graph_core::parser::{GraphParser, ParsedStatement};

fn statements(input: &str) -> Vec<ParsedStatement> {
    GraphParser::parse_statements(input).expect("parse failed")
}

fn edge_of(input: &str) -> Edge {
    let stmts = statements(input);
    for s in stmts {
        if let ParsedStatement::EdgeDecl(_, _, e) = s {
            return e;
        }
    }
    panic!("expected an edge statement");
}

fn node_of(input: &str) -> Node {
    let stmts = statements(input);
    for s in stmts {
        if let ParsedStatement::NodeDecl(n) = s {
            return n;
        }
    }
    panic!("expected a node statement");
}

fn check_edge(
    input: &str,
    label: Option<&str>,
    line: EdgeLine,
    source_head: EdgeHead,
    target_head: EdgeHead,
) {
    let e = edge_of(input);
    assert_eq!(e.label, label.map(String::from), "label for {:?}", input);
    assert_eq!(e.line, line, "line for {:?}", input);
    assert_eq!(e.source_head, source_head, "source head for {:?}", input);
    assert_eq!(e.target_head, target_head, "target head for {:?}", input);
}

#[test]
fn test_edge_from_pair_whitespaces() {
    for input in ["a --> b", "a     --> b", "a -->     b", "a   -->   b"] {
        check_edge(input, None, EdgeLine::Thin, EdgeHead::Plain, EdgeHead::Right);
    }
}

#[test]
fn test_edge_from_pair() {
    check_edge("a --> b", None, EdgeLine::Thin, EdgeHead::Plain, EdgeHead::Right);
    check_edge("a <--> b", None, EdgeLine::Thin, EdgeHead::Left, EdgeHead::Right);
    check_edge("a == b", None, EdgeLine::Thick, EdgeHead::Plain, EdgeHead::Plain);
    check_edge("a ~~ b", None, EdgeLine::Wavy, EdgeHead::Plain, EdgeHead::Plain);
    check_edge("a <~~ b", None, EdgeLine::Wavy, EdgeHead::Left, EdgeHead::Plain);
    check_edge("a <-. b", None, EdgeLine::Dotted, EdgeHead::Left, EdgeHead::Plain);
    check_edge("a :--: b", None, EdgeLine::Thin, EdgeHead::Dot, EdgeHead::Dot);
    check_edge("a |--> b", None, EdgeLine::Thin, EdgeHead::Straight, EdgeHead::Right);
    check_edge(
        "a <-- |Edge Label| b",
        Some("Edge Label"),
        EdgeLine::Thin,
        EdgeHead::Left,
        EdgeHead::Plain,
    );
    check_edge(
        "a --> |Edge Label| b",
        Some("Edge Label"),
        EdgeLine::Thin,
        EdgeHead::Plain,
        EdgeHead::Right,
    );
}

#[test]
fn test_nodeshape_valid() {
    assert_eq!(NodeShape::from_delimiter('('), NodeShape::Rounded);
    assert_eq!(NodeShape::from_delimiter('['), NodeShape::Square);
    assert_eq!(NodeShape::from_delimiter('{'), NodeShape::Triangle);
    assert_eq!(NodeShape::from_delimiter(')'), NodeShape::Empty);
    assert_eq!(NodeShape::from_delimiter('x'), NodeShape::Empty);
}

#[test]
fn test_node_from_pair() {
    let cases: [(&str, &str, Option<&str>, NodeShape); 5] = [
        ("a", "a", None, NodeShape::Empty),
        ("a(A)", "a", Some("A"), NodeShape::Rounded),
        ("a (a)", "a", None, NodeShape::Empty),
        ("a[a]", "a", Some("a"), NodeShape::Square),
        ("a{}", "a", None, NodeShape::Triangle),
    ];
    for (input, id, label, shape) in cases {
        let n = node_of(input);
        assert_eq!(n.id, id, "id for {:?}", input);
        assert_eq!(n.label, label.map(String::from), "label for {:?}", input);
        assert_eq!(n.shape, shape, "shape for {:?}", input);
    }
}

#[test]
fn test_edge_head_markers() {
    assert_eq!(EdgeHead::from_marker('<'), EdgeHead::Left);
    assert_eq!(EdgeHead::from_marker('>'), EdgeHead::Right);
    assert_eq!(EdgeHead::from_marker('|'), EdgeHead::Straight);
    assert_eq!(EdgeHead::from_marker(':'), EdgeHead::Dot);
    assert_eq!(EdgeHead::from_marker('x'), EdgeHead::Plain);
    assert_eq!(EdgeHead::Left.into_id(), "url(#left-arrow)");
    assert_eq!(EdgeHead::Right.into_id(), "url(#right-arrow)");
    assert_eq!(EdgeHead::Dot.into_id(), "");
}

#[test]
fn test_edge_chain_expands() {
    let stmts = statements("a --> b --> c");
    let mut pairs = Vec::new();
    for s in stmts {
        if let ParsedStatement::EdgeDecl(src, tgt, _) = s {
            pairs.push((src.id, tgt.id));
        }
    }
    assert_eq!(
        pairs,
        vec![("a".to_string(), "b".to_string()), ("b".to_string(), "c".to_string())]
    );
}

#[test]
fn test_blank_lines_are_skipped() {
    let stmts = statements("\n   \n\ta\n\n");
    assert_eq!(stmts.len(), 1);
}
