use vstd::prelude::*;

verus! {

/// Line style of an edge, chosen by the two-character operator token.
#[derive(Debug, PartialEq, Eq, Structural, Clone, Copy)]
pub enum EdgeLine {
    Thin,
    Dotted,
    Thick,
    Wavy,
}

/// Decoration drawn at one end of an edge line.
#[derive(Debug, PartialEq, Eq, Structural, Clone, Copy)]
pub enum EdgeHead {
    Left,
    Right,
    Straight,
    Dot,
    Plain,
}

/// Mathematical model of an [`Edge`]: the same data with strings and
/// coordinates replaced by their spec views.  Anchor coordinates are in
/// half-pixel units (see `anchor`).
pub ghost struct EdgeM {
    pub label: Option<Seq<char>>,
    pub line: EdgeLine,
    pub source_head: EdgeHead,
    pub target_head: EdgeHead,
    pub anchor: Option<(int, int, int, int)>,
}

/// A directed edge's style and, once resolved, its line-segment anchor.
///
/// The endpoints are not stored here: the model keys edges by their
/// `(source id, target id)` pair (see `GraphBuilder`).
/// `anchor` holds `(x1, y1, x2, y2)` in half-pixel units, set once by the
/// anchor-resolution pass.
#[derive(Debug)]
pub struct Edge {
    pub label: Option<String>,
    pub line: EdgeLine,
    pub source_head: EdgeHead,
    pub target_head: EdgeHead,
    pub anchor: Option<(i64, i64, i64, i64)>,
}

impl View for Edge {
    type V = EdgeM;

    open spec fn view(&self) -> EdgeM {
        EdgeM {
            label: match self.label {
                Option::Some(ref l) => Option::Some(l@),
                Option::None => Option::None,
            },
            line: self.line,
            source_head: self.source_head,
            target_head: self.target_head,
            anchor: match self.anchor {
                Option::Some((a, b, c, d)) => Option::Some((a as int, b as int, c as int, d as int)),
                Option::None => Option::None,
            },
        }
    }
}

/// The head denoted by a single marker character; any other text means no head.
pub open spec fn head_of_char(c: char) -> EdgeHead {
    if c == '<' {
        EdgeHead::Left
    } else if c == '>' {
        EdgeHead::Right
    } else if c == '|' {
        EdgeHead::Straight
    } else if c == ':' {
        EdgeHead::Dot
    } else {
        EdgeHead::Plain
    }
}

/// The line style denoted by a two-character operator token; anything
/// unrecognised falls back to a thin line.
pub open spec fn line_of_chars(a: char, b: char) -> EdgeLine {
    if a == '-' && b == '.' {
        EdgeLine::Dotted
    } else if a == '~' && b == '~' {
        EdgeLine::Wavy
    } else if a == '=' && b == '=' {
        EdgeLine::Thick
    } else {
        EdgeLine::Thin
    }
}

impl EdgeHead {
    /// The head drawn for a one-character marker token.
    pub fn from_marker(c: char) -> (r: EdgeHead)
        ensures
            r == head_of_char(c),
    {
        if c == '<' {
            EdgeHead::Left
        } else if c == '>' {
            EdgeHead::Right
        } else if c == '|' {
            EdgeHead::Straight
        } else if c == ':' {
            EdgeHead::Dot
        } else {
            EdgeHead::Plain
        }
    }

    /// Whether this head is drawn as an arrow, which reserves extra
    /// clearance between the node border and the line end.
    pub open spec fn is_arrow(self) -> bool {
        self == EdgeHead::Left || self == EdgeHead::Right
    }

    /// The marker-reference attribute value used when this head is rendered.
    pub fn into_id(&self) -> (r: &'static str)
        ensures
            r@ == head_marker_ref(*self),
    {
        match self {
            EdgeHead::Left => "url(#left-arrow)",
            EdgeHead::Right => "url(#right-arrow)",
            EdgeHead::Straight => "",
            EdgeHead::Dot => "",
            EdgeHead::Plain => "",
        }
    }
}

/// The marker reference each head kind renders as: only arrowed heads
/// point at a marker definition.
pub open spec fn head_marker_ref(h: EdgeHead) -> Seq<char> {
    match h {
        EdgeHead::Left => "url(#left-arrow)"@,
        EdgeHead::Right => "url(#right-arrow)"@,
        _ => ""@,
    }
}

impl EdgeLine {
    /// The line style for a two-character operator token.
    pub fn from_token(a: char, b: char) -> (r: EdgeLine)
        ensures
            r == line_of_chars(a, b),
    {
        if a == '-' && b == '.' {
            EdgeLine::Dotted
        } else if a == '~' && b == '~' {
            EdgeLine::Wavy
        } else if a == '=' && b == '=' {
            EdgeLine::Thick
        } else {
            EdgeLine::Thin
        }
    }
}

/// The model of a freshly constructed edge: thin line, no heads, no label,
/// no anchor.
pub open spec fn empty_edge() -> EdgeM {
    EdgeM {
        label: Option::None,
        line: EdgeLine::Thin,
        source_head: EdgeHead::Plain,
        target_head: EdgeHead::Plain,
        anchor: Option::None,
    }
}

impl Clone for Edge {
    /// A clone carries the same model as the original.
    fn clone(&self) -> (r: Edge)
        ensures
            r@ == self@,
    {
        Edge {
            label: match &self.label {
                Option::Some(l) => Option::Some(l.clone()),
                Option::None => Option::None,
            },
            line: self.line,
            source_head: self.source_head,
            target_head: self.target_head,
            anchor: self.anchor,
        }
    }
}

/// An edge's anchor, when resolved, stays strictly inside the range the
/// anchor arithmetic guarantees.
pub open spec fn edge_anchor_bounded(e: EdgeM) -> bool {
    match e.anchor {
        Option::Some(a) => -0x4000_0000_0000_0000 < a.0 < 0x4000_0000_0000_0000
            && -0x4000_0000_0000_0000 < a.1 < 0x4000_0000_0000_0000 && -0x4000_0000_0000_0000
            < a.2 < 0x4000_0000_0000_0000 && -0x4000_0000_0000_0000 < a.3 < 0x4000_0000_0000_0000,
        Option::None => true,
    }
}

impl Edge {
    /// A default edge: thin line, no heads, no label, no anchor yet.
    pub fn new() -> (r: Edge)
        ensures
            r@ == empty_edge(),
    {
        Edge {
            label: Option::None,
            line: EdgeLine::Thin,
            source_head: EdgeHead::Plain,
            target_head: EdgeHead::Plain,
            anchor: Option::None,
        }
    }
}

} // verus!
