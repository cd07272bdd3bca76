use vstd::prelude::*;

pub mod anchor;
pub mod edge;
pub mod node;
pub mod graph;
pub mod laws;
pub mod layout;
pub mod parser;
pub mod ranking;
pub mod render;

use crate::graph::{spec_graph_size, spec_graph_svg, GraphM};
use crate::parser::spec_compile;
use crate::render::{base64_of, int_str, i64_to_string, to_base64};

verus! {

/// The ways a compile can fail.  Every failure aborts the compile: no
/// partial document is ever produced.
#[derive(Debug, PartialEq, Eq, Structural, Clone, Copy)]
pub enum CompileError {
    /// The text does not match the statement grammar; carries the index
    /// (0-based) of the offending line.
    SyntaxError(usize),
    /// An edge statement lacks a resolvable source or target node.
    IncompleteEdgeError,
    /// The text-metrics collaborator could not measure a node's text.
    MeasurementFailure,
    /// The diagram holds more nodes than the layout can place distinctly.
    CapacityExceeded,
}

impl CompileError {
    /// A short message naming the failure.
    pub fn to_message(&self) -> (r: String)
        ensures
            r@ == match *self {
                CompileError::SyntaxError(_) => "syntax error"@,
                CompileError::IncompleteEdgeError => "incomplete edge"@,
                CompileError::MeasurementFailure => "measurement failure"@,
                CompileError::CapacityExceeded => "diagram too large"@,
            },
    {
        match self {
            CompileError::SyntaxError(_) => String::from_str("syntax error"),
            CompileError::IncompleteEdgeError => String::from_str("incomplete edge"),
            CompileError::MeasurementFailure => String::from_str("measurement failure"),
            CompileError::CapacityExceeded => String::from_str("diagram too large"),
        }
    }
}

/// The margin around the content: three fortieths (7.5 percent) of the
/// larger content dimension, but at least 20 pixels.
pub open spec fn spec_margin(w: int, h: int) -> int {
    let mx = if w > h {
        w
    } else {
        h
    };
    let m = mx * 3 / 40;
    if m < 20 {
        20
    } else {
        m
    }
}

/// The complete document: a viewBox fitting the content plus margin,
/// marker definitions for the two arrow heads, the font embedded as
/// base64, and the diagram group.
pub open spec fn spec_document(g: GraphM, font: Seq<u8>) -> Seq<char> {
    let (w, h) = spec_graph_size(g);
    let m = spec_margin(w, h);
    "<svg xmlns=\"http://www.w3.org/2000/svg\" viewBox=\"0 0 "@ + int_str(w + 2 * m) + " "@
        + int_str(h + 2 * m)
        + "\"><defs><marker id=\"left-arrow\" markerWidth=\"5\" markerHeight=\"5\" refX=\"5\" refY=\"2.5\" orient=\"auto\" fill=\"#5d5b5d\"><polygon points=\"5 0, 0 2.5, 5 5\"/></marker><marker id=\"right-arrow\" markerWidth=\"5\" markerHeight=\"5\" refX=\"0\" refY=\"2.5\" orient=\"auto\" fill=\"#5d5b5d\"><polygon points=\"0 0, 5 2.5, 0 5\"/></marker><style>@font-face { font-family: 'JetBrains Mono'; src: url(data:font/ttf;base64,"@
        + base64_of(font)
        + ") format('truetype'); } text { font-family: 'JetBrains Mono'; }</style></defs>"@
        + spec_graph_svg(g, font, m) + "</svg>"@
}

/// What a compile yields: the document of the built diagram, or the first
/// error on the way; never partial output.
pub open spec fn spec_generate(text: Seq<char>, font: Seq<u8>) -> Result<Seq<char>, CompileError> {
    match spec_compile(text, font) {
        Result::Err(e) => Result::Err(e),
        Result::Ok(g) => Result::Ok(spec_document(g, font)),
    }
}

/// Compile diagram text into a self-contained vector document, measuring
/// and embedding the font faces of `font`.  The output is a function of
/// the text and the font bytes alone; on failure no document is produced.
pub fn generate_graph(contents: &str, font: &Vec<u8>) -> (r: Result<String, CompileError>)
    requires
        font@.len() < 0x4000_0000_0000_0000,
    ensures
        match spec_generate(contents@, font@) {
            Result::Ok(doc) => r matches Result::Ok(s) && s@ == doc,
            Result::Err(e) => r matches Result::Err(e2) && e2 == e,
        },
{
    let g = match parser::parse_from_string(contents, font) {
        Result::Ok(g) => g,
        Result::Err(e) => {
            return Result::Err(e);
        },
    };
    let (w, h) = g.get_size();
    let mx: i64 = if w > h {
        w
    } else {
        h
    };
    let m3: i64 = mx * 3 / 40;
    let margin: i64 = if m3 < 20 {
        20
    } else {
        m3
    };
    let b64 = to_base64(font);
    let mut out = String::from_str("<svg xmlns=\"http://www.w3.org/2000/svg\" viewBox=\"0 0 ");
    out.append(i64_to_string(w + 2 * margin).as_str());
    out.append(" ");
    out.append(i64_to_string(h + 2 * margin).as_str());
    out.append(
        "\"><defs><marker id=\"left-arrow\" markerWidth=\"5\" markerHeight=\"5\" refX=\"5\" refY=\"2.5\" orient=\"auto\" fill=\"#5d5b5d\"><polygon points=\"5 0, 0 2.5, 5 5\"/></marker><marker id=\"right-arrow\" markerWidth=\"5\" markerHeight=\"5\" refX=\"0\" refY=\"2.5\" orient=\"auto\" fill=\"#5d5b5d\"><polygon points=\"0 0, 5 2.5, 0 5\"/></marker><style>@font-face { font-family: 'JetBrains Mono'; src: url(data:font/ttf;base64,",
    );
    out.append(b64.as_str());
    out.append(") format('truetype'); } text { font-family: 'JetBrains Mono'; }</style></defs>");
    out.append(g.to_svg(font, margin).as_str());
    out.append("</svg>");
    Result::Ok(out)
}

} // verus!
