//! The tokenizer: the tree-sitter grammar of R, and the outline read off
//! the tree it builds.

use crate::kind::RSyntaxKind;
use crate::outline::{open_spans, well_nested_outline, NodeSyntaxKind, SyntaxSpan, WalkEvent};
use crate::strings::str_eq;
use vstd::prelude::*;

verus! {

/// A node of the tokenizer's tree, copied out of it.
#[derive(Clone, PartialEq, Eq, Debug)]
pub struct SourceNode {
    /// The name of the node's type in the grammar.
    pub name: String,
    /// The offset of the node's first byte.
    pub start: usize,
    /// The offset after the node's last byte.
    pub end: usize,
    /// How many nodes lie above the node; the root has none.
    pub depth: usize,
}

impl SourceNode {
    /// The node as plain values: the name of its type, the offsets where it
    /// starts and ends, and its depth.
    pub open spec fn facts(&self) -> (Seq<char>, int, int, int) {
        (self.name@, self.start as int, self.end as int, self.depth as int)
    }
}

/// The nodes as plain values, in their order.
pub open spec fn node_facts(nodes: Seq<SourceNode>) -> Seq<(Seq<char>, int, int, int)> {
    Seq::new(nodes.len(), |i: int| nodes[i].facts())
}

/// What the tree-sitter grammar of R makes of `text`, parsed from scratch:
/// whether the tree holds an error, and the nodes of the tree in pre-order,
/// each with the name of its type, the offsets where it starts and ends,
/// and its depth below the root. `None` where the parser builds no tree.
pub uninterp spec fn tokenized(text: Seq<char>) -> Option<(bool, Seq<(Seq<char>, int, int, int)>)>;

/// Parses `text` with a new tree-sitter parser for the grammar of R
/// (`Parser::new`, `Parser::set_language` with `tree_sitter_r::LANGUAGE`,
/// `Parser::parse` without an old tree) and copies the tree out: the
/// error flag of its root (`Node::has_error`), and its nodes one by one
/// in pre-order (`TreeCursor::goto_descendant` for each index below
/// `Node::descendant_count`), each with `Node::kind`, `Node::start_byte`,
/// `Node::end_byte` and `TreeCursor::depth`. The result is what the name
/// `tokenized` stands for; nothing else is claimed of it.
#[verifier::external_body]
pub(crate) fn tokenize(text: &str) -> (r: Option<(bool, Vec<SourceNode>)>)
    ensures
        r is None ==> tokenized(text@) is None,
        r is Some ==> tokenized(text@) == Some((r.unwrap().0, node_facts(r.unwrap().1@))),
{
    let mut parser = tree_sitter::Parser::new();
    parser.set_language(&tree_sitter_r::LANGUAGE.into()).ok()?;
    let tree = parser.parse(text, None)?;
    let mut cursor = tree.walk();
    let mut nodes = Vec::new();
    for index in 0..tree.root_node().descendant_count() {
        cursor.goto_descendant(index);
        let (node, depth) = (cursor.node(), cursor.depth() as usize);
        let (name, start, end) = (node.kind().to_string(), node.start_byte(), node.end_byte());
        nodes.push(SourceNode { name, start, end, depth });
    }
    Some((tree.root_node().has_error(), nodes))
}

/// What a node type of the grammar stands for; `None` for the types that
/// have no counterpart among the syntax kinds.
pub open spec fn syntax_kind_of(name: Seq<char>) -> Option<NodeSyntaxKind> {
    if name == "program"@ {
        Some(NodeSyntaxKind::Node(RSyntaxKind::R_ROOT))
    } else if name == "binary_operator"@ {
        Some(NodeSyntaxKind::Node(RSyntaxKind::R_BINARY_EXPRESSION))
    } else if name == "function_definition"@ {
        Some(NodeSyntaxKind::Node(RSyntaxKind::R_FUNCTION_DEFINITION))
    } else if name == "parameters"@ {
        Some(NodeSyntaxKind::Node(RSyntaxKind::R_PARAMETERS))
    } else if name == "parameter"@ {
        Some(NodeSyntaxKind::Node(RSyntaxKind::R_PARAMETER))
    } else if name == "identifier"@ {
        Some(NodeSyntaxKind::Value(RSyntaxKind::R_IDENTIFIER, RSyntaxKind::IDENT))
    } else if name == "integer"@ {
        Some(NodeSyntaxKind::Value(RSyntaxKind::R_INTEGER_VALUE, RSyntaxKind::R_INTEGER_LITERAL))
    } else if name == "float"@ {
        Some(NodeSyntaxKind::Value(RSyntaxKind::R_DOUBLE_VALUE, RSyntaxKind::R_DOUBLE_LITERAL))
    } else if name == "string"@ {
        Some(NodeSyntaxKind::Value(RSyntaxKind::R_STRING_VALUE, RSyntaxKind::R_STRING_LITERAL))
    } else if name == "true"@ || name == "false"@ {
        Some(NodeSyntaxKind::Value(RSyntaxKind::R_LOGICAL_VALUE, RSyntaxKind::R_LOGICAL_LITERAL))
    } else if name == "null"@ {
        Some(NodeSyntaxKind::Value(RSyntaxKind::R_NULL_VALUE, RSyntaxKind::R_NULL_LITERAL))
    } else if name == "comment"@ {
        Some(NodeSyntaxKind::Comment)
    } else if name == "function"@ {
        Some(NodeSyntaxKind::Token(RSyntaxKind::FUNCTION_KW))
    } else if name == "+"@ {
        Some(NodeSyntaxKind::Token(RSyntaxKind::PLUS))
    } else if name == ","@ || name == "comma"@ {
        Some(NodeSyntaxKind::Token(RSyntaxKind::COMMA))
    } else if name == ";"@ {
        Some(NodeSyntaxKind::Token(RSyntaxKind::SEMICOLON))
    } else if name == "("@ {
        Some(NodeSyntaxKind::Token(RSyntaxKind::L_PAREN))
    } else if name == ")"@ {
        Some(NodeSyntaxKind::Token(RSyntaxKind::R_PAREN))
    } else if name == "{"@ {
        Some(NodeSyntaxKind::Token(RSyntaxKind::L_CURLY))
    } else if name == "}"@ {
        Some(NodeSyntaxKind::Token(RSyntaxKind::R_CURLY))
    } else if name == "["@ {
        Some(NodeSyntaxKind::Token(RSyntaxKind::L_BRACK))
    } else if name == "]"@ {
        Some(NodeSyntaxKind::Token(RSyntaxKind::R_BRACK))
    } else {
        None
    }
}

/// What the node type `name` stands for.
pub fn syntax_kind(name: &str) -> (r: Option<NodeSyntaxKind>)
    ensures
        r == syntax_kind_of(name@),
{
    if str_eq(name, "program") {
        Some(NodeSyntaxKind::Node(RSyntaxKind::R_ROOT))
    } else if str_eq(name, "binary_operator") {
        Some(NodeSyntaxKind::Node(RSyntaxKind::R_BINARY_EXPRESSION))
    } else if str_eq(name, "function_definition") {
        Some(NodeSyntaxKind::Node(RSyntaxKind::R_FUNCTION_DEFINITION))
    } else if str_eq(name, "parameters") {
        Some(NodeSyntaxKind::Node(RSyntaxKind::R_PARAMETERS))
    } else if str_eq(name, "parameter") {
        Some(NodeSyntaxKind::Node(RSyntaxKind::R_PARAMETER))
    } else if str_eq(name, "identifier") {
        Some(NodeSyntaxKind::Value(RSyntaxKind::R_IDENTIFIER, RSyntaxKind::IDENT))
    } else if str_eq(name, "integer") {
        Some(NodeSyntaxKind::Value(RSyntaxKind::R_INTEGER_VALUE, RSyntaxKind::R_INTEGER_LITERAL))
    } else if str_eq(name, "float") {
        Some(NodeSyntaxKind::Value(RSyntaxKind::R_DOUBLE_VALUE, RSyntaxKind::R_DOUBLE_LITERAL))
    } else if str_eq(name, "string") {
        Some(NodeSyntaxKind::Value(RSyntaxKind::R_STRING_VALUE, RSyntaxKind::R_STRING_LITERAL))
    } else if str_eq(name, "true") || str_eq(name, "false") {
        Some(NodeSyntaxKind::Value(RSyntaxKind::R_LOGICAL_VALUE, RSyntaxKind::R_LOGICAL_LITERAL))
    } else if str_eq(name, "null") {
        Some(NodeSyntaxKind::Value(RSyntaxKind::R_NULL_VALUE, RSyntaxKind::R_NULL_LITERAL))
    } else if str_eq(name, "comment") {
        Some(NodeSyntaxKind::Comment)
    } else if str_eq(name, "function") {
        Some(NodeSyntaxKind::Token(RSyntaxKind::FUNCTION_KW))
    } else if str_eq(name, "+") {
        Some(NodeSyntaxKind::Token(RSyntaxKind::PLUS))
    } else if str_eq(name, ",") || str_eq(name, "comma") {
        Some(NodeSyntaxKind::Token(RSyntaxKind::COMMA))
    } else if str_eq(name, ";") {
        Some(NodeSyntaxKind::Token(RSyntaxKind::SEMICOLON))
    } else if str_eq(name, "(") {
        Some(NodeSyntaxKind::Token(RSyntaxKind::L_PAREN))
    } else if str_eq(name, ")") {
        Some(NodeSyntaxKind::Token(RSyntaxKind::R_PAREN))
    } else if str_eq(name, "{") {
        Some(NodeSyntaxKind::Token(RSyntaxKind::L_CURLY))
    } else if str_eq(name, "}") {
        Some(NodeSyntaxKind::Token(RSyntaxKind::R_CURLY))
    } else if str_eq(name, "[") {
        Some(NodeSyntaxKind::Token(RSyntaxKind::L_BRACK))
    } else if str_eq(name, "]") {
        Some(NodeSyntaxKind::Token(RSyntaxKind::R_BRACK))
    } else {
        None
    }
}

/// The span of a node with the given type and byte offsets: `None` where
/// the type stands for nothing or an offset does not fit 32 bits.
pub open spec fn span_of(name: Seq<char>, start: int, end: int) -> Option<SyntaxSpan> {
    match syntax_kind_of(name) {
        Some(kind) => if 0 <= start <= u32::MAX && 0 <= end <= u32::MAX {
            Some(SyntaxSpan { kind, start: start as u32, end: end as u32 })
        } else {
            None
        },
        None => None,
    }
}

/// The span of a node with the given type and byte offsets.
pub fn syntax_span(name: &str, start: usize, end: usize) -> (r: Option<SyntaxSpan>)
    ensures
        r == span_of(name@, start as int, end as int),
{
    match syntax_kind(name) {
        Some(kind) => {
            if start <= 0xFFFF_FFFF && end <= 0xFFFF_FFFF {
                Some(SyntaxSpan { kind, start: start as u32, end: end as u32 })
            } else {
                None
            }
        },
        None => None,
    }
}

/// A node that was entered and not yet left, with its depth in the tree.
pub struct OpenNode {
    pub span: SyntaxSpan,
    pub depth: int,
}

/// How far an outline has come: the steps so far, the nodes that are open,
/// outermost first, and, after a leaf, the depth below which nodes are
/// passed over.
pub struct Outlining {
    pub steps: Seq<WalkEvent>,
    pub open: Seq<OpenNode>,
    pub skip: Option<int>,
}

/// Leaves the open nodes that lie at `depth` or deeper, innermost first.
pub open spec fn close_open(steps: Seq<WalkEvent>, open: Seq<OpenNode>, depth: int) -> (
    Seq<WalkEvent>,
    Seq<OpenNode>,
)
    decreases open.len(),
{
    if open.len() > 0 && open.last().depth >= depth {
        close_open(steps.push(WalkEvent::Leave(open.last().span)), open.drop_last(), depth)
    } else {
        (steps, open)
    }
}

/// Leaves all open nodes, innermost first.
pub open spec fn close_all(steps: Seq<WalkEvent>, open: Seq<OpenNode>) -> Seq<WalkEvent>
    decreases open.len(),
{
    if open.len() > 0 {
        close_all(steps.push(WalkEvent::Leave(open.last().span)), open.drop_last())
    } else {
        steps
    }
}

/// Takes the next node of the tree into the outline.
///
/// A node below a value, a token or a comment is passed over. Before any
/// other node the open nodes that are not above it are left. Then the node
/// is entered; a value, a token or a comment is left at once. There is no
/// outline where the type of the node stands for nothing, an offset does
/// not fit 32 bits, the first node is no root, or a later node is a root or
/// lies beside the root.
pub open spec fn outline_step(state: Outlining, node: (Seq<char>, int, int, int)) -> Option<
    Outlining,
> {
    if state.skip is Some && node.3 > state.skip.unwrap() {
        Some(state)
    } else {
        let (steps, open) = close_open(state.steps, state.open, node.3);
        match span_of(node.0, node.1, node.2) {
            None => None,
            Some(span) => if span.kind.is_root() != (steps.len() == 0) {
                None
            } else if !span.kind.is_root() && open.len() == 0 {
                None
            } else if span.kind is Node {
                Some(
                    Outlining {
                        steps: steps.push(WalkEvent::Enter(span)),
                        open: open.push(OpenNode { span, depth: node.3 }),
                        skip: None,
                    },
                )
            } else {
                Some(
                    Outlining {
                        steps: steps.push(WalkEvent::Enter(span)).push(WalkEvent::Leave(span)),
                        open,
                        skip: Some(node.3),
                    },
                )
            },
        }
    }
}

/// How far the outline has come after the first `n` nodes.
pub open spec fn outlining(nodes: Seq<(Seq<char>, int, int, int)>, n: int) -> Option<Outlining>
    decreases n,
{
    if n <= 0 {
        Some(Outlining { steps: Seq::empty(), open: Seq::empty(), skip: None })
    } else {
        match outlining(nodes, n - 1) {
            None => None,
            Some(state) => outline_step(state, nodes[n - 1]),
        }
    }
}

/// The outline of a tree whose nodes are given in pre-order: every node is
/// entered and left, where the nodes below values, tokens and comments are
/// passed over. A tree without nodes has none.
pub open spec fn outline_spec(nodes: Seq<(Seq<char>, int, int, int)>) -> Option<Seq<WalkEvent>> {
    match outlining(nodes, nodes.len() as int) {
        None => None,
        Some(state) => if state.steps.len() == 0 {
            None
        } else {
            Some(close_all(state.steps, state.open))
        },
    }
}

/// Once there is no outline, more nodes make none.
pub proof fn lemma_outlining_stays_none(nodes: Seq<(Seq<char>, int, int, int)>, k: int, n: int)
    requires
        0 <= k <= n,
        outlining(nodes, k) is None,
    ensures
        outlining(nodes, n) is None,
    decreases n - k,
{
    if k < n {
        lemma_outlining_stays_none(nodes, k, n - 1);
    }
}

/// The spans of the open nodes, outermost first.
pub open spec fn spans_of_open(open: Seq<OpenNode>) -> Seq<SyntaxSpan> {
    Seq::new(open.len(), |i: int| open[i].span)
}

/// What holds of an outline while it is made: nothing was entered yet; or
/// the root was entered first, and what was entered since and not left is
/// open below it; or the root was left last, and all is well nested.
pub open spec fn outline_nests(steps: Seq<WalkEvent>, open: Seq<OpenNode>) -> bool {
    if steps.len() == 0 {
        open.len() == 0
    } else if open.len() == 0 {
        well_nested_outline(steps)
    } else {
        &&& steps[0] == WalkEvent::Enter(open[0].span)
        &&& open[0].span.kind.is_root()
        &&& open_spans(steps.subrange(1, steps.len() as int)) == Some(
            spans_of_open(open).subrange(1, open.len() as int),
        )
    }
}

/// Leaving the innermost open node keeps the outline nested.
proof fn lemma_leave_nests(steps: Seq<WalkEvent>, open: Seq<OpenNode>)
    requires
        outline_nests(steps, open),
        open.len() > 0,
        steps.len() > 0,
    ensures
        outline_nests(steps.push(WalkEvent::Leave(open.last().span)), open.drop_last()),
{
    let span = open.last().span;
    let after = steps.push(WalkEvent::Leave(span));
    let inner = steps.subrange(1, steps.len() as int);
    let stack = spans_of_open(open).subrange(1, open.len() as int);
    if open.len() == 1 {
        assert(stack =~= Seq::<SyntaxSpan>::empty());
        assert(after.subrange(1, after.len() - 1) =~= inner);
        assert(after[0] == steps[0]);
    } else {
        let left = after.subrange(1, after.len() as int);
        assert(left.drop_last() =~= inner);
        assert(left.last() == WalkEvent::Leave(span));
        assert(stack.last() == span);
        assert(spans_of_open(open.drop_last()).subrange(1, open.len() - 1) =~= stack.drop_last());
        assert(after[0] == steps[0]);
    }
}

/// Leaving open nodes keeps the outline nested.
proof fn lemma_close_open_nests(steps: Seq<WalkEvent>, open: Seq<OpenNode>, depth: int)
    requires
        outline_nests(steps, open),
    ensures
        outline_nests(close_open(steps, open, depth).0, close_open(steps, open, depth).1),
        steps.len() > 0 ==> close_open(steps, open, depth).0.len() > 0,
        steps.len() == 0 ==> close_open(steps, open, depth) == (steps, open),
    decreases open.len(),
{
    if open.len() > 0 && open.last().depth >= depth {
        lemma_leave_nests(steps, open);
        lemma_close_open_nests(
            steps.push(WalkEvent::Leave(open.last().span)),
            open.drop_last(),
            depth,
        );
    }
}

/// Leaving all open nodes makes the outline well nested.
proof fn lemma_close_all_nests(steps: Seq<WalkEvent>, open: Seq<OpenNode>)
    requires
        outline_nests(steps, open),
        steps.len() > 0,
    ensures
        well_nested_outline(close_all(steps, open)),
    decreases open.len(),
{
    if open.len() > 0 {
        lemma_leave_nests(steps, open);
        lemma_close_all_nests(steps.push(WalkEvent::Leave(open.last().span)), open.drop_last());
    }
}

/// Taking a node into the outline keeps the outline nested.
proof fn lemma_outline_step_nests(state: Outlining, node: (Seq<char>, int, int, int))
    requires
        outline_nests(state.steps, state.open),
        outline_step(state, node) is Some,
    ensures
        outline_nests(outline_step(state, node).unwrap().steps, outline_step(state, node).unwrap().open),
{
    if !(state.skip is Some && node.3 > state.skip.unwrap()) {
        let (steps, open) = close_open(state.steps, state.open, node.3);
        lemma_close_open_nests(state.steps, state.open, node.3);
        let span = span_of(node.0, node.1, node.2).unwrap();
        let entered = steps.push(WalkEvent::Enter(span));
        if steps.len() == 0 {
            // The root is entered, and nothing else yet.
            let root = open.push(OpenNode { span, depth: node.3 });
            assert(open.len() == 0);
            assert(span.kind.is_root());
            assert(entered.subrange(1, 1) =~= Seq::<WalkEvent>::empty());
            assert(spans_of_open(root).subrange(1, 1) =~= Seq::<SyntaxSpan>::empty());
            assert(root[0].span == span);
            assert(outline_nests(entered, root));
        } else {
            let inner = steps.subrange(1, steps.len() as int);
            let stack = spans_of_open(open).subrange(1, open.len() as int);
            let inner_entered = entered.subrange(1, entered.len() as int);
            assert(!span.kind.is_root());
            assert(open.len() > 0);
            assert(inner_entered.drop_last() =~= inner);
            assert(inner_entered.last() == WalkEvent::Enter(span));
            assert(entered[0] == steps[0]);
            assert(open_spans(inner_entered) == Some(stack.push(span)));
            if span.kind is Node {
                let pushed = open.push(OpenNode { span, depth: node.3 });
                assert(spans_of_open(pushed).subrange(1, pushed.len() as int) =~= stack.push(span));
                assert(pushed[0] == open[0]);
                assert(outline_nests(entered, pushed));
            } else {
                let left = entered.push(WalkEvent::Leave(span));
                let inner_left = left.subrange(1, left.len() as int);
                assert(inner_left.drop_last() =~= inner_entered);
                assert(inner_left.last() == WalkEvent::Leave(span));
                assert(stack.push(span).drop_last() =~= stack);
                assert(left[0] == steps[0]);
                assert(open_spans(inner_left) == Some(stack));
                assert(outline_nests(left, open));
            }
        }
    }
}

/// The outline stays nested while it is made.
proof fn lemma_outlining_nests(nodes: Seq<(Seq<char>, int, int, int)>, n: int)
    requires
        outlining(nodes, n) is Some,
    ensures
        outline_nests(outlining(nodes, n).unwrap().steps, outlining(nodes, n).unwrap().open),
    decreases n,
{
    if n > 0 {
        lemma_outlining_nests(nodes, n - 1);
        lemma_outline_step_nests(outlining(nodes, n - 1).unwrap(), nodes[n - 1]);
    }
}

/// Whatever the nodes are, an outline that is made of them is well nested:
/// the root is entered first and left last, and between the two every
/// node that is entered is left again, innermost first.
pub proof fn lemma_outline_is_well_nested(nodes: Seq<(Seq<char>, int, int, int)>)
    requires
        outline_spec(nodes) is Some,
    ensures
        well_nested_outline(outline_spec(nodes).unwrap()),
{
    let state = outlining(nodes, nodes.len() as int).unwrap();
    lemma_outlining_nests(nodes, nodes.len() as int);
    lemma_close_all_nests(state.steps, state.open);
}

/// The open nodes as the two stacks of the outline hold them.
pub open spec fn open_nodes(spans: Seq<SyntaxSpan>, depths: Seq<usize>) -> Seq<OpenNode> {
    Seq::new(spans.len(), |i: int| OpenNode { span: spans[i], depth: depths[i] as int })
}

/// Makes the outline of a tree from its nodes in pre-order.
pub fn outline_of(nodes: &Vec<SourceNode>) -> (r: Option<Vec<WalkEvent>>)
    ensures
        match outline_spec(node_facts(nodes@)) {
            Some(outline) => r is Some && r.unwrap()@ == outline,
            None => r is None,
        },
{
    let ghost facts = node_facts(nodes@);
    let mut outline: Vec<WalkEvent> = Vec::new();
    let mut spans: Vec<SyntaxSpan> = Vec::new();
    let mut depths: Vec<usize> = Vec::new();
    let mut skip: Option<usize> = None;
    let mut index: usize = 0;
    proof {
        assert(outline@ =~= Seq::<WalkEvent>::empty());
        assert(open_nodes(spans@, depths@) =~= Seq::<OpenNode>::empty());
    }
    while index < nodes.len()
        invariant
            index <= nodes@.len(),
            facts == node_facts(nodes@),
            spans@.len() == depths@.len(),
            outlining(facts, index as int) == Some(
                Outlining {
                    steps: outline@,
                    open: open_nodes(spans@, depths@),
                    skip: match skip {
                        Some(depth) => Some(depth as int),
                        None => None,
                    },
                },
            ),
        decreases nodes@.len() - index,
    {
        let node = &nodes[index];
        let ghost before = outlining(facts, index as int).unwrap();
        proof {
            assert(facts[index as int] == node.facts());
        }
        index += 1;
        let passed_over = match skip {
            Some(depth) => node.depth > depth,
            None => false,
        };
        if !passed_over {
            while spans.len() > 0 && depths[depths.len() - 1] >= node.depth
                invariant
                    spans@.len() == depths@.len(),
                    close_open(outline@, open_nodes(spans@, depths@), node.depth as int)
                        == close_open(before.steps, before.open, node.depth as int),
                decreases spans@.len(),
            {
                let ghost open = open_nodes(spans@, depths@);
                let span = match spans.pop() {
                    Some(span) => span,
                    None => {
                        return None;
                    },
                };
                depths.pop();
                outline.push(WalkEvent::Leave(span));
                proof {
                    assert(open.last().span == span);
                    assert(open_nodes(spans@, depths@) =~= open.drop_last());
                }
            }
            let ghost open = open_nodes(spans@, depths@);
            let ghost closed = outline@;
            proof {
                if open.len() > 0 {
                    assert(open.last().depth == depths@[depths@.len() - 1]);
                }
                assert(close_open(before.steps, before.open, node.depth as int) == (closed, open));
            }
            let span = match syntax_span(node.name.as_str(), node.start, node.end) {
                Some(span) => span,
                None => {
                    proof {
                        assert(outlining(facts, index as int) is None);
                        lemma_outlining_stays_none(facts, index as int, nodes@.len() as int);
                    }
                    return None;
                },
            };
            let is_root = match span.kind {
                NodeSyntaxKind::Node(RSyntaxKind::R_ROOT) => true,
                _ => false,
            };
            if is_root != (outline.len() == 0) || (!is_root && spans.len() == 0) {
                proof {
                    assert(outlining(facts, index as int) is None);
                    lemma_outlining_stays_none(facts, index as int, nodes@.len() as int);
                }
                return None;
            }
            outline.push(WalkEvent::Enter(span));
            match span.kind {
                NodeSyntaxKind::Node(_) => {
                    spans.push(span);
                    depths.push(node.depth);
                    skip = None;
                    proof {
                        assert(open_nodes(spans@, depths@) =~= open.push(
                            OpenNode { span, depth: node.depth as int },
                        ));
                    }
                },
                _ => {
                    outline.push(WalkEvent::Leave(span));
                    skip = Some(node.depth);
                },
            }
        }
    }
    if outline.len() == 0 {
        return None;
    }
    let ghost reached = outlining(facts, nodes@.len() as int).unwrap();
    while spans.len() > 0
        invariant
            spans@.len() == depths@.len(),
            outline@.len() > 0,
            close_all(outline@, open_nodes(spans@, depths@)) == close_all(
                reached.steps,
                reached.open,
            ),
        decreases spans@.len(),
    {
        let ghost open = open_nodes(spans@, depths@);
        let span = match spans.pop() {
            Some(span) => span,
            None => {
                return None;
            },
        };
        depths.pop();
        outline.push(WalkEvent::Leave(span));
        proof {
            assert(open.last().span == span);
            assert(open_nodes(spans@, depths@) =~= open.drop_last());
        }
    }
    Some(outline)
}

} // verus!
