use vstd::prelude::*;

verus! {

/// Shape of a node's box, chosen by the delimiter that opens its label.
#[derive(Debug, PartialEq, Eq, Structural, Clone, Copy)]
pub enum NodeShape {
    Rounded,
    Square,
    Triangle,
    Empty,
}

/// The shape denoted by a label's opening delimiter; any other character
/// (or no delimiter at all) leaves the node without a drawn shape.
pub open spec fn shape_of_char(c: char) -> NodeShape {
    if c == '(' {
        NodeShape::Rounded
    } else if c == '[' {
        NodeShape::Square
    } else if c == '{' {
        NodeShape::Triangle
    } else {
        NodeShape::Empty
    }
}

impl NodeShape {
    /// The shape for a label's opening delimiter character.
    pub fn from_delimiter(c: char) -> (r: NodeShape)
        ensures
            r == shape_of_char(c),
    {
        if c == '(' {
            NodeShape::Rounded
        } else if c == '[' {
            NodeShape::Square
        } else if c == '{' {
            NodeShape::Triangle
        } else {
            NodeShape::Empty
        }
    }
}

impl Default for NodeShape {
    fn default() -> (r: NodeShape)
        ensures
            r == NodeShape::Empty,
    {
        NodeShape::Empty
    }
}

/// Mathematical model of a [`Node`]: the same data with strings and
/// coordinates replaced by their spec views.
pub ghost struct NodeM {
    pub id: Seq<char>,
    pub label: Option<Seq<char>>,
    pub shape: NodeShape,
    pub position: Option<(int, int)>,
    pub size: Option<(int, int)>,
}

/// A declared or implied node of the diagram.
///
/// `size` is `(width, height)` in pixel units, set once by the sizing pass.
/// `position` is the node's centre `(x, y)` in pixel units, set once by the
/// layout pass; the y axis grows downwards, so rank 0 renders at the top.
#[derive(Debug)]
pub struct Node {
    pub id: String,
    pub label: Option<String>,
    pub shape: NodeShape,
    pub position: Option<(i64, i64)>,
    pub size: Option<(i64, i64)>,
}

impl View for Node {
    type V = NodeM;

    open spec fn view(&self) -> NodeM {
        NodeM {
            id: self.id@,
            label: match self.label {
                Option::Some(ref l) => Option::Some(l@),
                Option::None => Option::None,
            },
            shape: self.shape,
            position: match self.position {
                Option::Some((x, y)) => Option::Some((x as int, y as int)),
                Option::None => Option::None,
            },
            size: match self.size {
                Option::Some((w, h)) => Option::Some((w as int, h as int)),
                Option::None => Option::None,
            },
        }
    }
}

/// The model of a freshly constructed node: empty id, no label, no shape,
/// not yet sized or placed.
pub open spec fn empty_node() -> NodeM {
    NodeM {
        id: Seq::empty(),
        label: Option::None,
        shape: NodeShape::Empty,
        position: Option::None,
        size: Option::None,
    }
}

impl Clone for Node {
    /// A clone carries the same model as the original.
    fn clone(&self) -> (r: Node)
        ensures
            r@ == self@,
    {
        Node {
            id: self.id.clone(),
            label: match &self.label {
                Option::Some(l) => Option::Some(l.clone()),
                Option::None => Option::None,
            },
            shape: self.shape,
            position: self.position,
            size: self.size,
        }
    }
}

/// Geometry a node may carry: a centre inside the coordinate range the
/// layout produces and a size inside the sizing cap, so that rendering
/// arithmetic stays in bounds.
pub open spec fn node_geometry_bounded(n: NodeM) -> bool {
    &&& match n.position {
        Option::Some(p) => 0 <= p.0 <= 0x1000_0000_0000_0000 && 0 <= p.1 <= 0x1000_0000_0000_0000,
        Option::None => true,
    }
    &&& match n.size {
        Option::Some(sz) => 0 <= sz.0 <= 0x10_0000 && 0 <= sz.1 <= 0x10_0000,
        Option::None => true,
    }
}

impl Node {
    /// A blank node, to be filled in by the parser.
    pub fn new() -> (r: Node)
        ensures
            r@ == empty_node(),
    {
        Node {
            id: String::new(),
            label: Option::None,
            shape: NodeShape::Empty,
            position: Option::None,
            size: Option::None,
        }
    }
}

} // verus!
