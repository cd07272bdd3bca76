use graph_core::anchor::{isqrt, resolve_anchor};
use graph_core::edge::{EdgeHead, EdgeLine};
use graph_core::generate_graph;
use graph_core::node::NodeShape;
use graph_core::parser::parse_from_string;
use graph_core::render::{half_to_string, i64_to_string, u64_to_string};
use graph_core::CompileError;

fn no_font() -> Vec<u8> {
    Vec::new()
}

#[test]
fn scenario_single_edge() {
    let g = parse_from_string("a --> b", &no_font()).expect("compile failed");
    assert_eq!(g.nodes.len(), 2);
    assert_eq!(g.nodes[0].id, "a");
    assert_eq!(g.nodes[1].id, "b");
    assert_eq!(g.edges.len(), 1);
    assert_eq!(g.edges[0].line, EdgeLine::Thin);
    assert_eq!(g.edges[0].source_head, EdgeHead::Plain);
    assert_eq!(g.edges[0].target_head, EdgeHead::Right);
}

#[test]
fn scenario_double_headed_edge() {
    let g = parse_from_string("a <--> b", &no_font()).expect("compile failed");
    assert_eq!(g.edges.len(), 1);
    assert_eq!(g.edges[0].source_head, EdgeHead::Left);
    assert_eq!(g.edges[0].target_head, EdgeHead::Right);
}

#[test]
fn scenario_shaped_labelled_nodes() {
    let g = parse_from_string("a(Start) --> b[End]", &no_font()).expect("compile failed");
    assert_eq!(g.nodes.len(), 2);
    assert_eq!(g.nodes[0].id, "a");
    assert_eq!(g.nodes[0].shape, NodeShape::Rounded);
    assert_eq!(g.nodes[0].label, Some("Start".to_string()));
    assert_eq!(g.nodes[1].id, "b");
    assert_eq!(g.nodes[1].shape, NodeShape::Square);
    assert_eq!(g.nodes[1].label, Some("End".to_string()));
    assert_eq!(g.edges.len(), 1);
}

#[test]
fn scenario_edge_label_pipes_stripped() {
    let g = parse_from_string("a --> |go| b", &no_font()).expect("compile failed");
    assert_eq!(g.edges.len(), 1);
    assert_eq!(g.edges[0].label, Some("go".to_string()));
}

#[test]
fn scenario_missing_target_fails() {
    let r = generate_graph("a -->", &no_font());
    assert!(matches!(r, Err(CompileError::IncompleteEdgeError)));
}

#[test]
fn scenario_cycle_compiles() {
    let g = parse_from_string("a --> b --> c --> a", &no_font()).expect("compile failed");
    assert_eq!(g.nodes.len(), 3);
    assert_eq!(g.edges.len(), 3);
    let pa = g.nodes[0].position.unwrap();
    let pb = g.nodes[1].position.unwrap();
    let pc = g.nodes[2].position.unwrap();
    assert_ne!(pa, pb);
    assert_ne!(pb, pc);
    assert_ne!(pa, pc);
    // arrows keep their declared direction
    for e in &g.edges {
        assert_eq!(e.source_head, EdgeHead::Plain);
        assert_eq!(e.target_head, EdgeHead::Right);
    }
}

#[test]
fn compile_is_deterministic() {
    let text = "a(Start) --> |go| b[End]\nb --> c\nc ~~ a\n";
    let font = vec![1u8, 2, 3, 4];
    let d1 = generate_graph(text, &font).expect("compile failed");
    let d2 = generate_graph(text, &font).expect("compile failed");
    assert_eq!(d1, d2);
}

#[test]
fn explicit_declaration_wins_over_implicit() {
    let g = parse_from_string("a --> b\na[Label A]", &no_font()).expect("compile failed");
    assert_eq!(g.nodes.len(), 2);
    assert_eq!(g.nodes[0].id, "a");
    assert_eq!(g.nodes[0].shape, NodeShape::Square);
    assert_eq!(g.nodes[0].label, Some("Label A".to_string()));
}

#[test]
fn explicit_declaration_survives_later_implicit() {
    let g = parse_from_string("a[Label A]\na --> b", &no_font()).expect("compile failed");
    assert_eq!(g.nodes[0].shape, NodeShape::Square);
    assert_eq!(g.nodes[0].label, Some("Label A".to_string()));
}

#[test]
fn edge_redeclaration_replaces_by_key() {
    let g = parse_from_string("a --> b\na ~~ b", &no_font()).expect("compile failed");
    assert_eq!(g.edges.len(), 1);
    assert_eq!(g.edges[0].line, EdgeLine::Wavy);
    assert_eq!(g.edges[0].target_head, EdgeHead::Plain);
}

#[test]
fn nodes_in_one_rank_do_not_overlap() {
    // without fonts every node box is 20 by 10; spacing stays at least 75
    let g = parse_from_string("a\nb", &no_font()).expect("compile failed");
    assert_eq!(g.nodes[0].position, Some((0, 0)));
    assert_eq!(g.nodes[1].position, Some((75, 0)));
    assert_eq!(g.nodes[0].size, Some((20, 10)));
    assert_eq!(g.nodes[1].size, Some((20, 10)));
}

#[test]
fn chain_descends_rank_by_rank() {
    let g = parse_from_string("a --> b --> c", &no_font()).expect("compile failed");
    assert_eq!(g.nodes[0].position, Some((0, 0)));
    assert_eq!(g.nodes[1].position, Some((0, 40)));
    assert_eq!(g.nodes[2].position, Some((0, 80)));
}

#[test]
fn syntax_error_carries_line_number() {
    let r = generate_graph("a --> b\n(oops)", &no_font());
    assert!(matches!(r, Err(CompileError::SyntaxError(1))));
}

#[test]
fn measurement_failure_is_fatal() {
    // a label holding a markup character has no measurement
    let r = generate_graph("a(x<y) --> b", &no_font());
    assert!(matches!(r, Err(CompileError::MeasurementFailure)));
    let r = generate_graph("a(x&y) --> b", &no_font());
    assert!(matches!(r, Err(CompileError::MeasurementFailure)));
}

#[test]
fn non_markup_punctuation_measures_fine() {
    // '>' and quotes are plain character data; such labels compile
    let g = parse_from_string("a(x>y) --> b", &no_font()).expect("compile failed");
    assert_eq!(g.nodes[0].label, Some("x>y".to_string()));
}

#[test]
fn empty_input_yields_minimal_document() {
    let doc = generate_graph("", &no_font()).expect("compile failed");
    assert!(doc.starts_with("<svg xmlns=\"http://www.w3.org/2000/svg\" viewBox=\"0 0 140 140\">"));
    assert!(doc.ends_with("</svg>"));
}

#[test]
fn font_bytes_are_embedded_as_base64() {
    let font = vec![0u8, 0, 0];
    let doc = generate_graph("a", &font).expect("compile failed");
    assert!(doc.contains("base64,AAAA)"));
}

#[test]
fn arrow_markers_present_for_arrowed_heads() {
    let doc = generate_graph("a <--> b", &no_font()).expect("compile failed");
    assert!(doc.contains("marker-start=\"url(#left-arrow)\""));
    assert!(doc.contains("marker-end=\"url(#right-arrow)\""));
    let plain = generate_graph("a -- b", &no_font()).expect("compile failed");
    assert!(!plain.contains("marker-start"));
    assert!(!plain.contains("marker-end"));
}

#[test]
fn decimal_formatting_exact() {
    assert_eq!(u64_to_string(0), "0");
    assert_eq!(u64_to_string(7), "7");
    assert_eq!(u64_to_string(1234), "1234");
    assert_eq!(i64_to_string(-5), "-5");
    assert_eq!(i64_to_string(0), "0");
    assert_eq!(half_to_string(15), "7.5");
    assert_eq!(half_to_string(-1), "-0.5");
    assert_eq!(half_to_string(40), "20");
    assert_eq!(half_to_string(-40), "-20");
}

#[test]
fn integer_square_root_exact() {
    assert_eq!(isqrt(0), 0);
    assert_eq!(isqrt(1), 1);
    assert_eq!(isqrt(10), 3);
    assert_eq!(isqrt(144), 12);
    assert_eq!(isqrt(u64::MAX as u128), 4294967295);
}

#[test]
fn node_group_markup_exact() {
    // a lone unmeasurable node sits centred at the origin in a 20 by 10 box
    let doc = generate_graph("a", &no_font()).expect("compile failed");
    assert!(doc.contains("<g id=\"a\" transform=\"translate(-10, -5)\">"));
}

#[test]
fn edge_line_markup_exact() {
    // nodes 20 by 10 at centres (0,0) and (0,40); the line retreats by the
    // half-height plus 3 at the plain end and plus 7.5 at the arrowed end
    let doc = generate_graph("a --> b", &no_font()).expect("compile failed");
    assert!(doc.contains(
        "<line x1=\"0\" y1=\"8\" x2=\"0\" y2=\"27.5\" stroke=\"#5d5b5d\" stroke-width=\"1\" marker-end=\"url(#right-arrow)\"/>"
    ));
}

#[test]
fn anchor_fallback_for_coincident_centres() {
    let a = resolve_anchor(10, 10, 20, 20, 10, 10, 20, 20, EdgeHead::Plain, EdgeHead::Plain);
    assert_eq!(a, (20, 46, 20, -6));
}

#[test]
fn anchor_horizontal_edge_exact() {
    let a = resolve_anchor(0, 0, 10, 10, 100, 0, 10, 10, EdgeHead::Right, EdgeHead::Right);
    assert_eq!(a, (25, 0, 175, 0));
}
