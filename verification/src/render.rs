use vstd::prelude::*;

use crate::anchor::div_trunc;
use crate::edge::{edge_anchor_bounded, head_marker_ref, Edge, EdgeHead, EdgeM};
use crate::node::{node_geometry_bounded, Node, NodeM, NodeShape};

verus! {

// ---------------------------------------------------------------------------
// Text metrics
// ---------------------------------------------------------------------------

/// Text the measuring document can hold as plain character data: free of
/// the two XML markup characters.  Embedded markup could make the
/// document reference the world outside its own bytes, so such text is
/// never handed to the metrics library.
pub open spec fn text_markup_free(s: Seq<char>) -> bool {
    forall|i: int| 0 <= i < s.len() ==> (#[trigger] s[i]) != '<' && s[i] != '&'
}

/// What measuring `text` at `size` with the font faces loaded from `font`
/// yields: the rendered bounding box in whole pixels, or nothing when the
/// measuring document cannot be built from this text.  The name is only
/// ever applied to markup-free text, for which the result is a function
/// of the three arguments alone.
pub uninterp spec fn text_extent(font: Seq<u8>, text: Seq<char>, size: u32) -> Option<(u32, u32)>;

/// Relies on usvg::Tree::from_str: parsing a fixed measuring document
/// that embeds `text`, set in the first face loaded from `font`, and
/// taking the root group's bounding box.  Markup characters are excluded,
/// so the text stands as plain character data and the document references
/// nothing outside its own bytes; given the same font bytes, text and
/// size the library then computes the same box, which `text_extent`
/// names.
#[verifier::external_body]
pub(crate) fn measure_text(font: &Vec<u8>, content: &str, font_size: u32) -> (r: Option<(u32, u32)>)
    requires
        text_markup_free(content@),
    ensures
        r == text_extent(font@, content@, font_size),
{
    let mut opt = usvg::Options::default();
    opt.fontdb_mut().load_font_data(font.clone());
    if let Some(fam) = opt.fontdb.faces().next().and_then(|f| f.families.first()) {
        opt.font_family = fam.0.clone();
    }
    let doc = format!(
        "<svg xmlns=\"http://www.w3.org/2000/svg\" viewBox=\"0 0 128 64\"><g><text font-size=\"{}px\">{}</text></g></svg>",
        font_size, content,
    );
    match usvg::Tree::from_str(&doc, &opt) {
        Ok(t) => Some((t.root().bounding_box().width() as u32, t.root().bounding_box().height() as u32)),
        Err(_) => None,
    }
}

/// Measure markup-free text; text holding a markup character has no
/// measurement, and a compile that needs one fails.
pub open spec fn spec_measure(font: Seq<u8>, text: Seq<char>, size: u32) -> Option<(u32, u32)> {
    if text_markup_free(text) {
        text_extent(font, text, size)
    } else {
        Option::None
    }
}

/// Measure a text against the font faces of `font`: nothing when the
/// text holds a markup character or when the metrics library cannot
/// measure it.
pub(crate) fn measure_checked(font: &Vec<u8>, text: &str, size: u32) -> (r: Option<(u32, u32)>)
    ensures
        r == spec_measure(font@, text@, size),
{
    let n = text.unicode_len();
    let mut i: usize = 0;
    while i < n
        invariant
            n == text@.len(),
            i <= n,
            forall|j: int| 0 <= j < i ==> (#[trigger] text@[j]) != '<' && text@[j] != '&',
        decreases n - i,
    {
        let c = text.get_char(i);
        if c == '<' || c == '&' {
            proof {
                assert(!text_markup_free(text@));
            }
            return Option::None;
        }
        i = i + 1;
    }
    measure_text(font, text, size)
}

/// A measured extent, capped so that spacing arithmetic stays in bounds.
pub open spec fn clamp_extent(v: u32) -> int {
    if v > 0x1_0000 {
        0x1_0000
    } else {
        v as int
    }
}

/// The capped extent of a text, or zero by zero when measuring fails: the
/// renderer positions texts best-effort, it never fails a compile.
pub open spec fn ext_or_zero(font: Seq<u8>, text: Seq<char>, size: u32) -> (int, int) {
    match spec_measure(font, text, size) {
        Option::Some((w, h)) => (clamp_extent(w), clamp_extent(h)),
        Option::None => (0, 0),
    }
}

/// The capped extent of a text, or zero by zero when measuring fails.
fn measure_or_zero(font: &Vec<u8>, text: &str, size: u32) -> (r: (i64, i64))
    ensures
        (r.0 as int, r.1 as int) == ext_or_zero(font@, text@, size),
        0 <= r.0 <= 0x1_0000,
        0 <= r.1 <= 0x1_0000,
{
    match measure_checked(font, text, size) {
        Option::Some((w, h)) => {
            let wc: i64 = if w > 0x1_0000 {
                0x1_0000
            } else {
                w as i64
            };
            let hc: i64 = if h > 0x1_0000 {
                0x1_0000
            } else {
                h as i64
            };
            (wc, hc)
        },
        Option::None => (0, 0),
    }
}

// ---------------------------------------------------------------------------
// Font embedding
// ---------------------------------------------------------------------------

/// The standard padded base64 encoding of a byte string; a function of the
/// bytes alone.
pub uninterp spec fn base64_of(bytes: Seq<u8>) -> Seq<char>;

/// Relies on base64::Engine::encode with the standard padded alphabet: the
/// encoding is a function of the input bytes, and the padded output holds
/// four characters for every three input bytes begun.
#[verifier::external_body]
pub(crate) fn to_base64(bytes: &Vec<u8>) -> (r: String)
    requires
        bytes@.len() < 0x4000_0000_0000_0000,
    ensures
        r@ == base64_of(bytes@),
        r@.len() == 4 * ((bytes@.len() + 2) / 3),
{
    base64::Engine::encode(&base64::engine::general_purpose::STANDARD, bytes)
}

// ---------------------------------------------------------------------------
// Decimal formatting
// ---------------------------------------------------------------------------

/// The character of one decimal digit.
pub open spec fn digit_char(d: nat) -> char {
    if d == 0 {
        '0'
    } else if d == 1 {
        '1'
    } else if d == 2 {
        '2'
    } else if d == 3 {
        '3'
    } else if d == 4 {
        '4'
    } else if d == 5 {
        '5'
    } else if d == 6 {
        '6'
    } else if d == 7 {
        '7'
    } else if d == 8 {
        '8'
    } else {
        '9'
    }
}

/// The decimal digits of a natural number, most significant first.
pub open spec fn dec_str(n: nat) -> Seq<char>
    decreases n,
{
    if n < 10 {
        seq![digit_char(n)]
    } else {
        dec_str(n / 10).push(digit_char(n % 10))
    }
}

/// The decimal rendering of an integer: a minus sign before the digits of
/// its magnitude.
pub open spec fn int_str(i: int) -> Seq<char> {
    if i < 0 {
        seq!['-'] + dec_str((-i) as nat)
    } else {
        dec_str(i as nat)
    }
}

/// The decimal rendering of a count of half pixels: the whole part, and
/// `.5` when the count is odd.  `half_str(15) == "7.5"`, `half_str(-1) ==
/// "-0.5"`.
pub open spec fn half_str(h: int) -> Seq<char> {
    let m = (if h >= 0 {
        h
    } else {
        -h
    }) as nat;
    let base = if h < 0 {
        seq!['-'] + dec_str(m / 2)
    } else {
        dec_str(m / 2)
    };
    if m % 2 == 0 {
        base
    } else {
        base + ".5"@
    }
}

/// Relies on std's String::push: appending one character to the string.
pub assume_specification[ String::push ](s: &mut String, c: char)
    ensures
        final(s)@ == old(s)@.push(c),
;

fn digit_to_char(d: u64) -> (r: char)
    requires
        d < 10,
    ensures
        r == digit_char(d as nat),
{
    if d == 0 {
        '0'
    } else if d == 1 {
        '1'
    } else if d == 2 {
        '2'
    } else if d == 3 {
        '3'
    } else if d == 4 {
        '4'
    } else if d == 5 {
        '5'
    } else if d == 6 {
        '6'
    } else if d == 7 {
        '7'
    } else if d == 8 {
        '8'
    } else {
        '9'
    }
}

/// The decimal digits of `n`.
pub fn u64_to_string(n: u64) -> (r: String)
    ensures
        r@ == dec_str(n as nat),
    decreases n,
{
    if n < 10 {
        let mut s = String::new();
        s.push(digit_to_char(n));
        proof {
            assert(s@ =~= seq![digit_char(n as nat)]);
        }
        s
    } else {
        let mut s = u64_to_string(n / 10);
        s.push(digit_to_char(n % 10));
        s
    }
}

/// The decimal rendering of `v`, with a minus sign when negative.
pub fn i64_to_string(v: i64) -> (r: String)
    requires
        v > i64::MIN,
    ensures
        r@ == int_str(v as int),
{
    if v < 0 {
        let mut s = String::new();
        s.append("-");
        let digits = u64_to_string((-v) as u64);
        s.append(digits.as_str());
        proof {
            reveal_strlit("-");
            assert(s@ =~= seq!['-'] + dec_str((-(v as int)) as nat));
        }
        s
    } else {
        u64_to_string(v as u64)
    }
}

// ---------------------------------------------------------------------------
// SVG emission
// ---------------------------------------------------------------------------

/// The markup of a node's box.  Rounded and square boxes draw an outer
/// rectangle, an inner fill clipped half a stroke in, and a header line
/// under the id text; triangle and plain nodes draw nothing.
pub open spec fn spec_shape_svg(
    shape: NodeShape,
    id: Seq<char>,
    w: int,
    h: int,
    stroke: int,
    header: int,
) -> Seq<char> {
    match shape {
        NodeShape::Rounded | NodeShape::Square => {
            let rx: int = if shape == NodeShape::Rounded {
                12
            } else {
                4
            };
            "<defs><clipPath id=\"clip_path_"@ + id + "\"><rect width=\""@ + half_str(
                2 * w - 2 * stroke,
            ) + "\" height=\""@ + half_str(2 * h - 2 * stroke) + "\" x=\""@ + half_str(stroke)
                + "\" y=\""@ + half_str(stroke) + "\" rx=\""@ + half_str(2 * rx - stroke)
                + "\"/></clipPath></defs><rect width=\""@ + int_str(w) + "\" height=\""@ + int_str(
                h,
            ) + "\" stroke-width=\""@ + int_str(stroke) + "\" rx=\""@ + int_str(rx)
                + "\" fill=\"#fcf9fa\" stroke=\"#cecace\"/><rect width=\""@ + half_str(
                2 * w - 2 * stroke,
            ) + "\" height=\""@ + half_str(2 * h - 2 * stroke) + "\" x=\""@ + half_str(stroke)
                + "\" y=\""@ + half_str(stroke) + "\" rx=\""@ + half_str(2 * rx - stroke)
                + "\" fill=\"#fcf9fa\" clip-path=\"url(#clip_path_"@ + id + ")\"/><line x1=\"0\" y1=\""@
                + int_str(header) + "\" x2=\""@ + int_str(w) + "\" y2=\""@ + int_str(header)
                + "\" stroke=\"#cecace\" stroke-width=\"1\"/>"@
        },
        _ => ""@,
    }
}

impl NodeShape {
    /// The markup of a node's box of this shape, `w` by `h` pixels with
    /// the given stroke width and header-line height.
    pub fn to_svg(&self, id: &str, w: i64, h: i64, stroke: i64, header: i64) -> (r: String)
        requires
            0 <= w <= 0x20_0000,
            0 <= h <= 0x20_0000,
            0 <= stroke <= 16,
            0 <= header <= 0x20_0000,
        ensures
            r@ == spec_shape_svg(*self, id@, w as int, h as int, stroke as int, header as int),
    {
        match self {
            NodeShape::Rounded | NodeShape::Square => {
                let rx: i64 = if *self == NodeShape::Rounded {
                    12
                } else {
                    4
                };
                let mut out = String::from_str("<defs><clipPath id=\"clip_path_");
                out.append(id);
                out.append("\"><rect width=\"");
                out.append(half_to_string(2 * w - 2 * stroke).as_str());
                out.append("\" height=\"");
                out.append(half_to_string(2 * h - 2 * stroke).as_str());
                out.append("\" x=\"");
                out.append(half_to_string(stroke).as_str());
                out.append("\" y=\"");
                out.append(half_to_string(stroke).as_str());
                out.append("\" rx=\"");
                out.append(half_to_string(2 * rx - stroke).as_str());
                out.append("\"/></clipPath></defs><rect width=\"");
                out.append(i64_to_string(w).as_str());
                out.append("\" height=\"");
                out.append(i64_to_string(h).as_str());
                out.append("\" stroke-width=\"");
                out.append(i64_to_string(stroke).as_str());
                out.append("\" rx=\"");
                out.append(i64_to_string(rx).as_str());
                out.append("\" fill=\"#fcf9fa\" stroke=\"#cecace\"/><rect width=\"");
                out.append(half_to_string(2 * w - 2 * stroke).as_str());
                out.append("\" height=\"");
                out.append(half_to_string(2 * h - 2 * stroke).as_str());
                out.append("\" x=\"");
                out.append(half_to_string(stroke).as_str());
                out.append("\" y=\"");
                out.append(half_to_string(stroke).as_str());
                out.append("\" rx=\"");
                out.append(half_to_string(2 * rx - stroke).as_str());
                out.append("\" fill=\"#fcf9fa\" clip-path=\"url(#clip_path_");
                out.append(id);
                out.append(")\"/><line x1=\"0\" y1=\"");
                out.append(i64_to_string(header).as_str());
                out.append("\" x2=\"");
                out.append(i64_to_string(w).as_str());
                out.append("\" y2=\"");
                out.append(i64_to_string(header).as_str());
                out.append("\" stroke=\"#cecace\" stroke-width=\"1\"/>");
                out
            },
            _ => String::from_str(""),
        }
    }
}

/// The markup of a node's label text, when it has one.
pub open spec fn spec_node_label_svg(label: Option<Seq<char>>, ih: int, lh: int) -> Seq<char> {
    match label {
        Option::Some(l) => "<text font-size=\"8px\" x=\"10\" y=\""@ + int_str(ih + lh + 5) + "\">"@
            + l + "</text>"@,
        Option::None => Seq::empty(),
    }
}

/// The markup of a node: a group translated to the box's top-left corner,
/// holding the shape, the id text, and the label text when present.
pub open spec fn spec_node_svg(font: Seq<u8>, n: NodeM) -> Seq<char> {
    let (x, y) = match n.position {
        Option::Some(p) => p,
        Option::None => (0int, 0int),
    };
    let (w, h) = match n.size {
        Option::Some(s) => s,
        Option::None => (0int, 0int),
    };
    let (iw, ih) = ext_or_zero(font, n.id, 6);
    let (lw, lh) = match n.label {
        Option::Some(l) => ext_or_zero(font, l, 8),
        Option::None => (0int, 0int),
    };
    "<g id=\""@ + n.id + "\" transform=\"translate("@ + half_str(2 * x - w) + ", "@ + half_str(
        2 * y - h,
    ) + ")\">"@ + spec_shape_svg(n.shape, n.id, w, h, 1, ih + 5) + "<text font-size=\"6px\" x=\"10\" y=\""@
        + int_str(ih) + "\">"@ + n.id + "</text>"@ + spec_node_label_svg(n.label, ih, lh) + "</g>"@
}

fn node_label_part(label: &Option<String>, ih: i64, lh: i64) -> (r: String)
    requires
        0 <= ih <= 0x1_0000,
        0 <= lh <= 0x1_0000,
    ensures
        r@ == spec_node_label_svg(
            match label {
                Option::Some(l) => Option::Some(l@),
                Option::None => Option::None,
            },
            ih as int,
            lh as int,
        ),
{
    match label {
        Option::Some(l) => {
            let mut out = String::from_str("<text font-size=\"8px\" x=\"10\" y=\"");
            out.append(i64_to_string(ih + lh + 5).as_str());
            out.append("\">");
            out.append(l.as_str());
            out.append("</text>");
            out
        },
        Option::None => String::new(),
    }
}

/// The wider of a node's two texts: its id measured at the id font size
/// and its label, when present, at the label font size.
pub open spec fn spec_max_text_width(font: Seq<u8>, n: NodeM) -> int {
    let (iw, _ih) = ext_or_zero(font, n.id, 6);
    let (lw, _lh) = match n.label {
        Option::Some(l) => ext_or_zero(font, l, 8),
        Option::None => (0int, 0int),
    };
    if iw > lw {
        iw
    } else {
        lw
    }
}

impl Node {
    /// The width of the node's widest text, measured against `font`.
    pub fn max_text_width(&self, font: &Vec<u8>) -> (r: i64)
        ensures
            r as int == spec_max_text_width(font@, self@),
            0 <= r <= 0x1_0000,
    {
        let (iw, _ih) = measure_or_zero(font, self.id.as_str(), 6);
        let (lw, _lh) = match &self.label {
            Option::Some(l) => measure_or_zero(font, l.as_str(), 8),
            Option::None => (0i64, 0i64),
        };
        if iw > lw {
            iw
        } else {
            lw
        }
    }

    /// The markup of this node, with its texts measured against `font`.
    pub fn to_svg(&self, font: &Vec<u8>) -> (r: String)
        requires
            node_geometry_bounded(self@),
        ensures
            r@ == spec_node_svg(font@, self@),
    {
        let (x, y) = match self.position {
            Option::Some(p) => p,
            Option::None => (0i64, 0i64),
        };
        let (w, h) = match self.size {
            Option::Some(s) => s,
            Option::None => (0i64, 0i64),
        };
        let (_iw, ih) = measure_or_zero(font, self.id.as_str(), 6);
        let (_lw, lh) = match &self.label {
            Option::Some(l) => measure_or_zero(font, l.as_str(), 8),
            Option::None => (0i64, 0i64),
        };
        let mut out = String::from_str("<g id=\"");
        out.append(self.id.as_str());
        out.append("\" transform=\"translate(");
        out.append(half_to_string(2 * x - w).as_str());
        out.append(", ");
        out.append(half_to_string(2 * y - h).as_str());
        out.append(")\">");
        out.append(self.shape.to_svg(self.id.as_str(), w, h, 1, ih + 5).as_str());
        out.append("<text font-size=\"6px\" x=\"10\" y=\"");
        out.append(i64_to_string(ih).as_str());
        out.append("\">");
        out.append(self.id.as_str());
        out.append("</text>");
        out.append(node_label_part(&self.label, ih, lh).as_str());
        out.append("</g>");
        out
    }
}

/// The marker attribute drawn at an edge's source end: only arrowed heads
/// reference a marker.
pub open spec fn spec_marker_start(h: EdgeHead) -> Seq<char> {
    if h == EdgeHead::Left || h == EdgeHead::Right {
        " marker-start=\""@ + head_marker_ref(h) + "\""@
    } else {
        Seq::empty()
    }
}

/// The marker attribute drawn at an edge's target end.
pub open spec fn spec_marker_end(h: EdgeHead) -> Seq<char> {
    if h == EdgeHead::Left || h == EdgeHead::Right {
        " marker-end=\""@ + head_marker_ref(h) + "\""@
    } else {
        Seq::empty()
    }
}

/// The markup of an edge's label, when it has one: text at the midpoint
/// of the anchor segment.
pub open spec fn spec_edge_label_svg(label: Option<Seq<char>>, a: (int, int, int, int)) -> Seq<
    char,
> {
    match label {
        Option::Some(l) => "<text font-size=\"8px\" x=\""@ + half_str(
            div_trunc(a.0, 2) + div_trunc(a.2, 2),
        ) + "\" y=\""@ + half_str(div_trunc(a.1, 2) + div_trunc(a.3, 2)) + "\">"@ + l + "</text>"@,
        Option::None => Seq::empty(),
    }
}

/// The markup of an edge: a group holding its line at the resolved anchor,
/// marker references for arrowed heads, and the label at the midpoint.
pub open spec fn spec_edge_svg(e: EdgeM) -> Seq<char> {
    let a = match e.anchor {
        Option::Some(a) => a,
        Option::None => (0int, 0int, 0int, 0int),
    };
    "<g class=\"edge\"><line x1=\""@ + half_str(a.0) + "\" y1=\""@ + half_str(a.1) + "\" x2=\""@
        + half_str(a.2) + "\" y2=\""@ + half_str(a.3)
        + "\" stroke=\"#5d5b5d\" stroke-width=\"1\""@ + spec_marker_start(e.source_head)
        + spec_marker_end(e.target_head) + "/>"@ + spec_edge_label_svg(e.label, a) + "</g>"@
}

fn div2_trunc(v: i64) -> (r: i64)
    requires
        -0x4000_0000_0000_0000 < v < 0x4000_0000_0000_0000,
    ensures
        r as int == div_trunc(v as int, 2),
        -0x2000_0000_0000_0000 <= r <= 0x2000_0000_0000_0000,
{
    if v >= 0 {
        v / 2
    } else {
        -((-v) / 2)
    }
}

fn marker_start_attr(h: EdgeHead) -> (r: String)
    ensures
        r@ == spec_marker_start(h),
{
    match h {
        EdgeHead::Left | EdgeHead::Right => {
            let mut out = String::from_str(" marker-start=\"");
            out.append(h.into_id());
            out.append("\"");
            out
        },
        _ => String::new(),
    }
}

fn marker_end_attr(h: EdgeHead) -> (r: String)
    ensures
        r@ == spec_marker_end(h),
{
    match h {
        EdgeHead::Left | EdgeHead::Right => {
            let mut out = String::from_str(" marker-end=\"");
            out.append(h.into_id());
            out.append("\"");
            out
        },
        _ => String::new(),
    }
}

fn edge_label_part(label: &Option<String>, a: (i64, i64, i64, i64)) -> (r: String)
    requires
        -0x4000_0000_0000_0000 < a.0 < 0x4000_0000_0000_0000,
        -0x4000_0000_0000_0000 < a.1 < 0x4000_0000_0000_0000,
        -0x4000_0000_0000_0000 < a.2 < 0x4000_0000_0000_0000,
        -0x4000_0000_0000_0000 < a.3 < 0x4000_0000_0000_0000,
    ensures
        r@ == spec_edge_label_svg(
            match label {
                Option::Some(l) => Option::Some(l@),
                Option::None => Option::None,
            },
            (a.0 as int, a.1 as int, a.2 as int, a.3 as int),
        ),
{
    match label {
        Option::Some(l) => {
            let mut out = String::from_str("<text font-size=\"8px\" x=\"");
            out.append(half_to_string(div2_trunc(a.0) + div2_trunc(a.2)).as_str());
            out.append("\" y=\"");
            out.append(half_to_string(div2_trunc(a.1) + div2_trunc(a.3)).as_str());
            out.append("\">");
            out.append(l.as_str());
            out.append("</text>");
            out
        },
        Option::None => String::new(),
    }
}

impl Edge {
    /// The markup of this edge.
    pub fn to_svg(&self) -> (r: String)
        requires
            edge_anchor_bounded(self@),
        ensures
            r@ == spec_edge_svg(self@),
    {
        let a: (i64, i64, i64, i64) = match self.anchor {
            Option::Some(a) => a,
            Option::None => (0, 0, 0, 0),
        };
        let mut out = String::from_str("<g class=\"edge\"><line x1=\"");
        out.append(half_to_string(a.0).as_str());
        out.append("\" y1=\"");
        out.append(half_to_string(a.1).as_str());
        out.append("\" x2=\"");
        out.append(half_to_string(a.2).as_str());
        out.append("\" y2=\"");
        out.append(half_to_string(a.3).as_str());
        out.append("\" stroke=\"#5d5b5d\" stroke-width=\"1\"");
        out.append(marker_start_attr(self.source_head).as_str());
        out.append(marker_end_attr(self.target_head).as_str());
        out.append("/>");
        out.append(edge_label_part(&self.label, a).as_str());
        out.append("</g>");
        out
    }
}

/// The decimal rendering of a count `h` of half pixels.
pub fn half_to_string(h: i64) -> (r: String)
    requires
        h > i64::MIN,
    ensures
        r@ == half_str(h as int),
{
    let m: u64 = if h >= 0 {
        h as u64
    } else {
        (-h) as u64
    };
    let mut s = String::new();
    if h < 0 {
        s.append("-");
        proof {
            reveal_strlit("-");
            assert(s@ =~= seq!['-']);
        }
    }
    let digits = u64_to_string(m / 2);
    s.append(digits.as_str());
    if m % 2 == 1 {
        s.append(".5");
        proof {
            reveal_strlit(".5");
            assert(s@ =~= half_str(h as int));
        }
    } else {
        proof {
            assert(s@ =~= half_str(h as int));
        }
    }
    s
}

} // verus!
