use vstd::prelude::*;

use crate::edge::{head_of_char, line_of_chars, Edge, EdgeHead, EdgeLine, EdgeM};
use crate::graph::{
    empty_model, spec_add_edge, spec_build, spec_insert_node, spec_upsert_node, Graph,
    GraphBuilder, GraphM, ModelM,
};
use crate::node::{shape_of_char, Node, NodeM, NodeShape};
use crate::CompileError;

verus! {

/// The statement-oriented front end: turns diagram text into a list of
/// parsed statements.
///
/// The grammar, statement per line:
/// - a node declaration is an identifier optionally followed, with no
///   space in between, by a delimited label: `(`…`)` rounded, `[`…`]`
///   square, `{`…`}` triangle; text after the declaration is ignored;
/// - an edge declaration is `source <op> target`, where `<op>` is a line
///   token from `--`, `-.`, `==`, `~~` with an optional head marker from
///   `<`, `>`, `|`, `:` on either side, optionally followed by a `|`-
///   delimited label; further `<op> target` segments chain;
/// - whitespace around tokens is insignificant, blank lines are skipped.
pub struct GraphParser;

/// Mathematical model of a [`ParsedStatement`].
pub ghost enum StmtM {
    NodeDecl(NodeM),
    EdgeDecl(NodeM, NodeM, EdgeM),
}

/// One statement of the diagram text, as the parser hands it to the
/// model builder: a node declaration, or one source-target segment of an
/// edge declaration.
pub enum ParsedStatement {
    NodeDecl(Node),
    EdgeDecl(Node, Node, Edge),
}

impl View for ParsedStatement {
    type V = StmtM;

    open spec fn view(&self) -> StmtM {
        match self {
            ParsedStatement::NodeDecl(n) => StmtM::NodeDecl(n@),
            ParsedStatement::EdgeDecl(s, t, e) => StmtM::EdgeDecl(s@, t@, e@),
        }
    }
}

/// The models of a list of parsed statements.
pub open spec fn stmts_view(v: Seq<ParsedStatement>) -> Seq<StmtM> {
    v.map_values(|s: ParsedStatement| s@)
}

/// How a single line fails to parse.
#[derive(Debug, PartialEq, Eq, Structural, Clone, Copy)]
pub enum LineError {
    /// The line does not match the statement grammar.
    Syntax,
    /// The line declares an edge but its source or target is missing.
    Incomplete,
}

// ---------------------------------------------------------------------------
// Character classes
// ---------------------------------------------------------------------------

/// Insignificant whitespace inside a line.
pub open spec fn is_ws(c: char) -> bool {
    c == ' ' || c == '\t' || c == '\r'
}

/// Characters an identifier is made of.
pub open spec fn is_id_char(c: char) -> bool {
    ((c as u32) >= 97 && (c as u32) <= 122)  // a-z
    || ((c as u32) >= 65 && (c as u32) <= 90)  // A-Z
    || ((c as u32) >= 48 && (c as u32) <= 57)  // 0-9
    || c == '_'
}

/// Characters that mark an edge head.
pub open spec fn is_head_char(c: char) -> bool {
    c == '<' || c == '>' || c == '|' || c == ':'
}

/// Characters that open a node label, each implying a shape.
pub open spec fn is_open_delim(c: char) -> bool {
    c == '(' || c == '[' || c == '{'
}

/// The closing delimiter matching an opening one.
pub open spec fn close_of(c: char) -> char {
    if c == '(' {
        ')'
    } else if c == '[' {
        ']'
    } else {
        '}'
    }
}

fn is_ws_c(c: char) -> (r: bool)
    ensures
        r == is_ws(c),
{
    c == ' ' || c == '\t' || c == '\r'
}

fn is_id_char_c(c: char) -> (r: bool)
    ensures
        r == is_id_char(c),
{
    ((c as u32) >= 97 && (c as u32) <= 122) || ((c as u32) >= 65 && (c as u32) <= 90) || ((
    c as u32) >= 48 && (c as u32) <= 57) || c == '_'
}

fn is_head_char_c(c: char) -> (r: bool)
    ensures
        r == is_head_char(c),
{
    c == '<' || c == '>' || c == '|' || c == ':'
}

fn is_open_delim_c(c: char) -> (r: bool)
    ensures
        r == is_open_delim(c),
{
    c == '(' || c == '[' || c == '{'
}

fn close_of_c(c: char) -> (r: char)
    ensures
        r == close_of(c),
{
    if c == '(' {
        ')'
    } else if c == '[' {
        ']'
    } else {
        '}'
    }
}

// ---------------------------------------------------------------------------
// Scanners
// ---------------------------------------------------------------------------

/// First index at or after `i` holding a non-whitespace character, or the
/// end of the text.
pub open spec fn skip_ws(s: Seq<char>, i: int) -> int
    decreases s.len() - i when 0 <= i <= s.len()
{
    if i >= s.len() {
        i
    } else if is_ws(s[i]) {
        skip_ws(s, i + 1)
    } else {
        i
    }
}

/// First index at or after `i` holding a non-identifier character, or the
/// end of the text.
pub open spec fn scan_id(s: Seq<char>, i: int) -> int
    decreases s.len() - i when 0 <= i <= s.len()
{
    if i >= s.len() {
        i
    } else if is_id_char(s[i]) {
        scan_id(s, i + 1)
    } else {
        i
    }
}

/// First index at or after `i` holding character `c`, or the end of the
/// text.
pub open spec fn find_char(s: Seq<char>, i: int, c: char) -> int
    decreases s.len() - i when 0 <= i <= s.len()
{
    if i >= s.len() {
        i
    } else if s[i] == c {
        i
    } else {
        find_char(s, i + 1, c)
    }
}

fn skip_ws_at(s: &str, n: usize, i: usize) -> (r: usize)
    requires
        n == s@.len(),
        i <= n,
    ensures
        r == skip_ws(s@, i as int),
        i <= r <= n,
    decreases n - i,
{
    if i >= n {
        i
    } else if is_ws_c(s.get_char(i)) {
        skip_ws_at(s, n, i + 1)
    } else {
        i
    }
}

fn scan_id_at(s: &str, n: usize, i: usize) -> (r: usize)
    requires
        n == s@.len(),
        i <= n,
    ensures
        r == scan_id(s@, i as int),
        i <= r <= n,
    decreases n - i,
{
    if i >= n {
        i
    } else if is_id_char_c(s.get_char(i)) {
        scan_id_at(s, n, i + 1)
    } else {
        i
    }
}

fn find_char_at(s: &str, n: usize, i: usize, c: char) -> (r: usize)
    requires
        n == s@.len(),
        i <= n,
    ensures
        r == find_char(s@, i as int, c),
        i <= r <= n,
    decreases n - i,
{
    if i >= n {
        i
    } else if s.get_char(i) == c {
        i
    } else {
        find_char_at(s, n, i + 1, c)
    }
}

// ---------------------------------------------------------------------------
// Node declarations
// ---------------------------------------------------------------------------

/// Parse a node declaration starting at `i`: an identifier, optionally
/// followed directly by a delimited label.  Yields the node and the index
/// just past what was consumed, or nothing if no identifier starts at `i`
/// or a label is left unclosed.
pub open spec fn spec_parse_node(s: Seq<char>, i: int) -> Option<(NodeM, int)>
    recommends
        0 <= i <= s.len(),
{
    let j = scan_id(s, i);
    if j == i {
        Option::None
    } else {
        let id = s.subrange(i, j);
        if j < s.len() && is_open_delim(s[j]) {
            let k = find_char(s, j + 1, close_of(s[j]));
            if k >= s.len() {
                Option::None
            } else {
                let label = s.subrange(j + 1, k);
                Option::Some(
                    (
                        NodeM {
                            id: id,
                            label: if label.len() == 0 {
                                Option::None
                            } else {
                                Option::Some(label)
                            },
                            shape: shape_of_char(s[j]),
                            position: Option::None,
                            size: Option::None,
                        },
                        k + 1,
                    ),
                )
            }
        } else {
            Option::Some(
                (
                    NodeM {
                        id: id,
                        label: Option::None,
                        shape: NodeShape::Empty,
                        position: Option::None,
                        size: Option::None,
                    },
                    j,
                ),
            )
        }
    }
}

fn parse_node_at(s: &str, n: usize, i: usize) -> (r: Option<(Node, usize)>)
    requires
        n == s@.len(),
        i <= n,
    ensures
        match spec_parse_node(s@, i as int) {
            Option::Some((nm, j)) => r matches Option::Some(p) && p.0@ == nm && p.1 == j && i
                < p.1 <= n,
            Option::None => r is None,
        },
{
    let j = scan_id_at(s, n, i);
    if j == i {
        Option::None
    } else {
        let id = s.substring_char(i, j).to_owned();
        if j < n && is_open_delim_c(s.get_char(j)) {
            let open = s.get_char(j);
            let k = find_char_at(s, n, j + 1, close_of_c(open));
            if k >= n {
                Option::None
            } else {
                let label = s.substring_char(j + 1, k).to_owned();
                let node = Node {
                    id,
                    label: if label.as_str().is_empty() {
                        Option::None
                    } else {
                        Option::Some(label)
                    },
                    shape: NodeShape::from_delimiter(open),
                    position: Option::None,
                    size: Option::None,
                };
                Option::Some((node, k + 1))
            }
        } else {
            let node = Node {
                id,
                label: Option::None,
                shape: NodeShape::Empty,
                position: Option::None,
                size: Option::None,
            };
            Option::Some((node, j))
        }
    }
}

// ---------------------------------------------------------------------------
// Edge operators
// ---------------------------------------------------------------------------

/// Whether a line token (`--`, `-.`, `==`, `~~`) starts at `i`.
pub open spec fn line_tok_at(s: Seq<char>, i: int) -> bool {
    0 <= i && i + 2 <= s.len() && ((s[i] == '-' && (s[i + 1] == '-' || s[i + 1] == '.')) || (s[i]
        == '=' && s[i + 1] == '=') || (s[i] == '~' && s[i + 1] == '~'))
}

/// Whether an edge operator starts at `i`: a line token, possibly preceded
/// by a source head marker.
pub open spec fn op_starts_at(s: Seq<char>, i: int) -> bool {
    line_tok_at(s, i) || (0 <= i < s.len() && is_head_char(s[i]) && line_tok_at(s, i + 1))
}

/// A target-side `|` directly after the line token is a head marker only
/// when nothing follows it on the line but whitespace; otherwise it opens
/// an edge label.
pub open spec fn bar_is_head(s: Seq<char>, q: int) -> bool {
    q + 1 >= s.len() || is_ws(s[q + 1])
}

/// Parse an edge operator starting at `i`: optional source head, line
/// token, optional target head.  Yields the heads, the line style and the
/// index just past the operator.
pub open spec fn spec_parse_op(s: Seq<char>, i: int) -> Option<(EdgeHead, EdgeLine, EdgeHead, int)>
    recommends
        0 <= i <= s.len(),
{
    let (sh, p) = if i < s.len() && is_head_char(s[i]) && line_tok_at(s, i + 1) {
        (head_of_char(s[i]), i + 1)
    } else {
        (EdgeHead::Plain, i)
    };
    if !line_tok_at(s, p) {
        Option::None
    } else {
        let style = line_of_chars(s[p], s[p + 1]);
        let q = p + 2;
        if q < s.len() && is_head_char(s[q]) && (s[q] != '|' || bar_is_head(s, q)) {
            Option::Some((sh, style, head_of_char(s[q]), q + 1))
        } else {
            Option::Some((sh, style, EdgeHead::Plain, q))
        }
    }
}

fn line_tok_at_c(s: &str, n: usize, i: usize) -> (r: bool)
    requires
        n == s@.len(),
        i <= n,
    ensures
        r == line_tok_at(s@, i as int),
{
    if i < n && i + 1 < n {
        let a = s.get_char(i);
        let b = s.get_char(i + 1);
        (a == '-' && (b == '-' || b == '.')) || (a == '=' && b == '=') || (a == '~' && b == '~')
    } else {
        false
    }
}

fn op_starts_at_c(s: &str, n: usize, i: usize) -> (r: bool)
    requires
        n == s@.len(),
        i <= n,
    ensures
        r == op_starts_at(s@, i as int),
{
    line_tok_at_c(s, n, i) || (i < n && is_head_char_c(s.get_char(i)) && line_tok_at_c(
        s,
        n,
        i + 1,
    ))
}

fn parse_op_at(s: &str, n: usize, i: usize) -> (r: Option<(EdgeHead, EdgeLine, EdgeHead, usize)>)
    requires
        n == s@.len(),
        i <= n,
    ensures
        match spec_parse_op(s@, i as int) {
            Option::Some((sh, style, th, m)) => r matches Option::Some(p) && p.0 == sh && p.1
                == style && p.2 == th && p.3 == m && i < m <= n,
            Option::None => r is None,
        },
{
    let (sh, p) = if i < n && is_head_char_c(s.get_char(i)) && line_tok_at_c(s, n, i + 1) {
        (EdgeHead::from_marker(s.get_char(i)), i + 1)
    } else {
        (EdgeHead::Plain, i)
    };
    if !line_tok_at_c(s, n, p) {
        Option::None
    } else {
        let style = EdgeLine::from_token(s.get_char(p), s.get_char(p + 1));
        let q = p + 2;
        if q < n && is_head_char_c(s.get_char(q)) && (s.get_char(q) != '|' || q + 1 >= n
            || is_ws_c(s.get_char(q + 1))) {
            Option::Some((sh, style, EdgeHead::from_marker(s.get_char(q)), q + 1))
        } else {
            Option::Some((sh, style, EdgeHead::Plain, q))
        }
    }
}

// ---------------------------------------------------------------------------
// Lines
// ---------------------------------------------------------------------------

/// Parse the chain of `<op> target` segments that continues an edge
/// statement at `i`, with `prev` the node to the left of the operator.
/// Each segment contributes one edge-declaration statement.  `fuel` bounds
/// the recursion by the line length.
pub open spec fn spec_parse_chain(s: Seq<char>, i: int, prev: NodeM, fuel: nat) -> Result<
    Seq<StmtM>,
    LineError,
>
    recommends
        0 <= i <= s.len(),
    decreases fuel,
{
    if fuel == 0 {
        Result::Err(LineError::Syntax)
    } else {
        match spec_parse_op(s, i) {
            Option::None => Result::Err(LineError::Syntax),
            Option::Some((sh, style, th, m)) => {
                let m2 = skip_ws(s, m);
                let lbl = if m2 < s.len() && s[m2] == '|' {
                    let k = find_char(s, m2 + 1, '|');
                    if k >= s.len() {
                        Option::None
                    } else {
                        Option::Some((s.subrange(m2 + 1, k), k + 1))
                    }
                } else {
                    Option::Some((Seq::<char>::empty(), m2))
                };
                match lbl {
                    Option::None => Result::Err(LineError::Syntax),
                    Option::Some((label, m3)) => {
                        let m4 = skip_ws(s, m3);
                        if m4 >= s.len() {
                            Result::Err(LineError::Incomplete)
                        } else {
                            match spec_parse_node(s, m4) {
                                Option::None => Result::Err(LineError::Incomplete),
                                Option::Some((tgt, j2)) => {
                                    let e = EdgeM {
                                        label: if label.len() == 0 {
                                            Option::None
                                        } else {
                                            Option::Some(label)
                                        },
                                        line: style,
                                        source_head: sh,
                                        target_head: th,
                                        anchor: Option::None,
                                    };
                                    let stmt = StmtM::EdgeDecl(prev, tgt, e);
                                    let k2 = skip_ws(s, j2);
                                    if k2 >= s.len() {
                                        Result::Ok(seq![stmt])
                                    } else if op_starts_at(s, k2) {
                                        match spec_parse_chain(s, k2, tgt, (fuel - 1) as nat) {
                                            Result::Ok(rest) => Result::Ok(seq![stmt] + rest),
                                            Result::Err(e2) => Result::Err(e2),
                                        }
                                    } else {
                                        Result::Err(LineError::Syntax)
                                    }
                                },
                            }
                        }
                    },
                }
            },
        }
    }
}

/// Move every statement of `rest` to the end of `v`, in order.
fn append_statements(v: &mut Vec<ParsedStatement>, rest: Vec<ParsedStatement>)
    ensures
        stmts_view(final(v)@) == stmts_view(old(v)@) + stmts_view(rest@),
{
    let mut rest = rest;
    let ghost total = stmts_view(old(v)@) + stmts_view(rest@);
    while rest.len() > 0
        invariant
            stmts_view(v@) + stmts_view(rest@) =~= total,
        decreases rest@.len(),
    {
        let ghost prev_v = v@;
        let ghost prev_rest = rest@;
        let x = rest.remove(0);
        v.push(x);
        proof {
            assert(stmts_view(v@) =~= stmts_view(prev_v).push(x@));
            assert(stmts_view(prev_rest) =~= seq![x@] + stmts_view(rest@));
            assert(stmts_view(v@) + stmts_view(rest@) =~= stmts_view(prev_v) + stmts_view(
                prev_rest,
            ));
        }
    }
    proof {
        assert(stmts_view(rest@) =~= Seq::<StmtM>::empty());
        assert(stmts_view(v@) =~= total);
    }
}

fn parse_chain_at(s: &str, n: usize, i: usize, prev: &Node, fuel: usize) -> (r: Result<
    Vec<ParsedStatement>,
    LineError,
>)
    requires
        n == s@.len(),
        i <= n,
    ensures
        match spec_parse_chain(s@, i as int, prev@, fuel as nat) {
            Result::Ok(stmts) => r matches Result::Ok(v) && stmts_view(v@) == stmts,
            Result::Err(e) => r matches Result::Err(e2) && e2 == e,
        },
    decreases fuel,
{
    if fuel == 0 {
        Result::Err(LineError::Syntax)
    } else {
        match parse_op_at(s, n, i) {
            Option::None => Result::Err(LineError::Syntax),
            Option::Some((sh, style, th, m)) => {
                let m2 = skip_ws_at(s, n, m);
                let lbl: Option<(String, usize)> = if m2 < n && s.get_char(m2) == '|' {
                    let k = find_char_at(s, n, m2 + 1, '|');
                    if k >= n {
                        Option::None
                    } else {
                        Option::Some((s.substring_char(m2 + 1, k).to_owned(), k + 1))
                    }
                } else {
                    Option::Some((String::new(), m2))
                };
                match lbl {
                    Option::None => Result::Err(LineError::Syntax),
                    Option::Some((label, m3)) => {
                        let m4 = skip_ws_at(s, n, m3);
                        if m4 >= n {
                            Result::Err(LineError::Incomplete)
                        } else {
                            match parse_node_at(s, n, m4) {
                                Option::None => Result::Err(LineError::Incomplete),
                                Option::Some((tgt, j2)) => {
                                    let e = Edge {
                                        label: if label.as_str().is_empty() {
                                            Option::None
                                        } else {
                                            Option::Some(label)
                                        },
                                        line: style,
                                        source_head: sh,
                                        target_head: th,
                                        anchor: Option::None,
                                    };
                                    let stmt = ParsedStatement::EdgeDecl(
                                        prev.clone(),
                                        tgt.clone(),
                                        e,
                                    );
                                    let k2 = skip_ws_at(s, n, j2);
                                    if k2 >= n {
                                        let mut v: Vec<ParsedStatement> = Vec::new();
                                        v.push(stmt);
                                        proof {
                                            assert(stmts_view(v@) =~= seq![stmt@]);
                                        }
                                        Result::Ok(v)
                                    } else if op_starts_at_c(s, n, k2) {
                                        match parse_chain_at(s, n, k2, &tgt, fuel - 1) {
                                            Result::Ok(rest) => {
                                                let ghost stmt_m = stmt@;
                                                let mut v: Vec<ParsedStatement> = Vec::new();
                                                v.push(stmt);
                                                proof {
                                                    assert(stmts_view(v@) =~= seq![stmt_m]);
                                                }
                                                append_statements(&mut v, rest);
                                                Result::Ok(v)
                                            },
                                            Result::Err(e2) => Result::Err(e2),
                                        }
                                    } else {
                                        Result::Err(LineError::Syntax)
                                    }
                                },
                            }
                        }
                    },
                }
            },
        }
    }
}

/// Parse one line.  A blank line holds no statement; a line whose first
/// token is an edge operator lacks its source; a node declaration followed
/// by an operator opens an edge chain; any other text after a node
/// declaration is ignored.
pub open spec fn spec_parse_line(line: Seq<char>) -> Result<Seq<StmtM>, LineError> {
    let i = skip_ws(line, 0);
    if i >= line.len() {
        Result::Ok(Seq::empty())
    } else if op_starts_at(line, i) {
        Result::Err(LineError::Incomplete)
    } else {
        match spec_parse_node(line, i) {
            Option::None => Result::Err(LineError::Syntax),
            Option::Some((nm, j)) => {
                let k = skip_ws(line, j);
                if op_starts_at(line, k) {
                    spec_parse_chain(line, k, nm, line.len())
                } else {
                    Result::Ok(seq![StmtM::NodeDecl(nm)])
                }
            },
        }
    }
}

fn parse_line_at(line: &str) -> (r: Result<Vec<ParsedStatement>, LineError>)
    ensures
        match spec_parse_line(line@) {
            Result::Ok(stmts) => r matches Result::Ok(v) && stmts_view(v@) == stmts,
            Result::Err(e) => r matches Result::Err(e2) && e2 == e,
        },
{
    let n = line.unicode_len();
    let i = skip_ws_at(line, n, 0);
    if i >= n {
        let v: Vec<ParsedStatement> = Vec::new();
        proof {
            assert(stmts_view(v@) =~= Seq::<StmtM>::empty());
        }
        Result::Ok(v)
    } else if op_starts_at_c(line, n, i) {
        Result::Err(LineError::Incomplete)
    } else {
        match parse_node_at(line, n, i) {
            Option::None => Result::Err(LineError::Syntax),
            Option::Some((nm, j)) => {
                let k = skip_ws_at(line, n, j);
                if op_starts_at_c(line, n, k) {
                    parse_chain_at(line, n, k, &nm, n)
                } else {
                    let mut v: Vec<ParsedStatement> = Vec::new();
                    let ghost nmm = nm@;
                    v.push(ParsedStatement::NodeDecl(nm));
                    proof {
                        assert(stmts_view(v@) =~= seq![StmtM::NodeDecl(nmm)]);
                    }
                    Result::Ok(v)
                }
            },
        }
    }
}

/// Parse a text, line by line, numbering lines from `lineno`; the
/// statements of all lines are concatenated in order, and the first
/// failing line decides the error.
pub open spec fn spec_parse_lines(s: Seq<char>, lineno: usize) -> Result<Seq<StmtM>, CompileError>
    decreases s.len(),
    via spec_parse_lines_decreases
{
    let e = find_char(s, 0, '\n');
    let line = s.subrange(0, if e > s.len() { s.len() as int } else { e });
    match spec_parse_line(line) {
        Result::Err(LineError::Syntax) => Result::Err(CompileError::SyntaxError(lineno)),
        Result::Err(LineError::Incomplete) => Result::Err(CompileError::IncompleteEdgeError),
        Result::Ok(stmts) => {
            if e >= s.len() {
                Result::Ok(stmts)
            } else {
                let next = if lineno == usize::MAX {
                    lineno
                } else {
                    (lineno + 1) as usize
                };
                match spec_parse_lines(s.subrange(e + 1, s.len() as int), next) {
                    Result::Ok(rest) => Result::Ok(stmts + rest),
                    Result::Err(err) => Result::Err(err),
                }
            }
        },
    }
}

#[via_fn]
proof fn spec_parse_lines_decreases(s: Seq<char>, lineno: usize) {
    lemma_find_char_bounds(s, 0, '\n');
}

/// `find_char` never moves backwards nor past the end of the text.
pub proof fn lemma_find_char_bounds(s: Seq<char>, i: int, c: char)
    requires
        0 <= i <= s.len(),
    ensures
        i <= find_char(s, i, c) <= s.len(),
    decreases s.len() - i,
{
    if i < s.len() && s[i] != c {
        lemma_find_char_bounds(s, i + 1, c);
    }
}

fn parse_lines_at(s: &str, lineno: usize) -> (r: Result<Vec<ParsedStatement>, CompileError>)
    ensures
        match spec_parse_lines(s@, lineno) {
            Result::Ok(stmts) => r matches Result::Ok(v) && stmts_view(v@) == stmts,
            Result::Err(e) => r matches Result::Err(e2) && e2 == e,
        },
    decreases s@.len(),
{
    let n = s.unicode_len();
    let e = find_char_at(s, n, 0, '\n');
    let line = s.substring_char(0, e);
    match parse_line_at(line) {
        Result::Err(LineError::Syntax) => Result::Err(CompileError::SyntaxError(lineno)),
        Result::Err(LineError::Incomplete) => Result::Err(CompileError::IncompleteEdgeError),
        Result::Ok(stmts) => {
            if e >= n {
                Result::Ok(stmts)
            } else {
                let next = if lineno == usize::MAX {
                    lineno
                } else {
                    lineno + 1
                };
                let rest = s.substring_char(e + 1, n);
                match parse_lines_at(rest, next) {
                    Result::Ok(rest_stmts) => {
                        let mut v = stmts;
                        append_statements(&mut v, rest_stmts);
                        Result::Ok(v)
                    },
                    Result::Err(err) => Result::Err(err),
                }
            }
        },
    }
}

/// What parsing a whole text yields: the statements of every line, or the
/// first error.
pub open spec fn spec_parse(s: Seq<char>) -> Result<Seq<StmtM>, CompileError> {
    spec_parse_lines(s, 0)
}

impl GraphParser {
    /// Parse diagram text into its statements.  The result is a function
    /// of the text alone: the statements of every line in order, or the
    /// error of the first line that fails.
    pub fn parse_statements(contents: &str) -> (r: Result<Vec<ParsedStatement>, CompileError>)
        ensures
            match spec_parse(contents@) {
                Result::Ok(stmts) => r matches Result::Ok(v) && stmts_view(v@) == stmts,
                Result::Err(e) => r matches Result::Err(e2) && e2 == e,
            },
    {
        parse_lines_at(contents, 0)
    }
}


// ---------------------------------------------------------------------------
// From statements to a model
// ---------------------------------------------------------------------------

/// How one statement changes the model.  A node declaration always wins
/// over what is there; an edge declaration implies its endpoints, without
/// overwriting, and then inserts or replaces the edge keyed by them.
pub open spec fn apply_stmt(m: ModelM, s: StmtM) -> ModelM {
    match s {
        StmtM::NodeDecl(n) => spec_upsert_node(m, n),
        StmtM::EdgeDecl(src, tgt, e) => spec_add_edge(
            spec_insert_node(spec_insert_node(m, src), tgt),
            src.id,
            tgt.id,
            e,
        ),
    }
}

/// The model after applying the first `i` statements to `m`.
pub open spec fn build_model_from(m: ModelM, stmts: Seq<StmtM>, i: int) -> ModelM
    decreases i when 0 <= i <= stmts.len()
{
    if i <= 0 {
        m
    } else {
        apply_stmt(build_model_from(m, stmts, i - 1), stmts[i - 1])
    }
}

/// The model of a statement list: every statement applied in order to the
/// empty model.
pub open spec fn spec_model(stmts: Seq<StmtM>) -> ModelM {
    build_model_from(empty_model(), stmts, stmts.len() as int)
}

/// Apply every statement to the builder, in order.
pub fn apply_statements(b: &mut GraphBuilder, stmts: &Vec<ParsedStatement>)
    requires
        old(b).wf(),
    ensures
        final(b)@ == build_model_from(old(b)@, stmts_view(stmts@), stmts@.len() as int),
        final(b).wf(),
{
    let mut k: usize = 0;
    while k < stmts.len()
        invariant
            k <= stmts@.len(),
            b@ == build_model_from(old(b)@, stmts_view(stmts@), k as int),
            b.wf(),
        decreases stmts@.len() - k,
    {
        proof {
            assert(stmts_view(stmts@)[k as int] == stmts@[k as int]@);
        }
        match &stmts[k] {
            ParsedStatement::NodeDecl(n) => {
                b.insert_or_update_node(n.clone());
            },
            ParsedStatement::EdgeDecl(src, tgt, e) => {
                b.insert_node(src.clone());
                b.insert_node(tgt.clone());
                b.add_edge(src.id.clone(), tgt.id.clone(), e.clone());
            },
        }
        k = k + 1;
    }
}

/// What compiling a text against a font yields: the statements parsed,
/// folded into a model, and built into a finished diagram; or the first
/// error on the way.
pub open spec fn spec_compile(text: Seq<char>, font: Seq<u8>) -> Result<GraphM, CompileError> {
    match spec_parse(text) {
        Result::Err(e) => Result::Err(e),
        Result::Ok(stmts) => spec_build(spec_model(stmts), font),
    }
}

/// Parse diagram text and build the finished diagram from it, measuring
/// node texts against the font faces of `font`.
pub fn parse_from_string(contents: &str, font: &Vec<u8>) -> (r: Result<Graph, CompileError>)
    ensures
        match spec_compile(contents@, font@) {
            Result::Ok(gm) => r matches Result::Ok(g) && g@ == gm && g.wf(),
            Result::Err(e) => r matches Result::Err(e2) && e2 == e,
        },
{
    let stmts = match GraphParser::parse_statements(contents) {
        Result::Ok(v) => v,
        Result::Err(e) => {
            return Result::Err(e);
        },
    };
    let mut builder = GraphBuilder::new();
    apply_statements(&mut builder, &stmts);
    builder.build(font)
}

} // verus!
