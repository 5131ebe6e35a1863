use vstd::prelude::*;

use crate::position::Point;
use crate::position::Range;

use tree_sitter::StreamingIterator;

verus! {

#[verifier::external_type_specification]
#[verifier::external_body]
pub struct ExTree(tree_sitter::Tree);

#[verifier::external_type_specification]
#[verifier::external_body]
pub struct ExQuery(tree_sitter::Query);

#[verifier::external_type_specification]
#[verifier::external_body]
pub struct ExQueryError(tree_sitter::QueryError);

/// A node of a parsed syntax tree, with its neighbours as indices into the
/// tree's node list.
#[derive(Debug)]
pub struct SyntaxNode {
    /// The parser's handle of the node: distinct for the nodes of one tree,
    /// but not the same from one parse to the next.
    pub id: usize,
    /// The node's grammar kind, such as `comment`.
    pub kind: String,
    /// Where the node lies in the source.
    pub range: Range,
    /// The node's parent, if it is not the root.
    pub parent: Option<usize>,
    /// The node's previous sibling, if it has one.
    pub prev_sibling: Option<usize>,
}

/// What a node of a syntax tree is, as a mathematical value: its kind, its
/// range, and the positions of its parent and previous sibling in the
/// tree's pre-order.
pub struct NodeView {
    pub kind: Seq<char>,
    pub range: Range,
    pub parent: Option<usize>,
    pub prev_sibling: Option<usize>,
}

impl View for SyntaxNode {
    type V = NodeView;

    open spec fn view(&self) -> NodeView {
        NodeView {
            kind: self.kind@,
            range: self.range,
            parent: self.parent,
            prev_sibling: self.prev_sibling,
        }
    }
}

/// A parsed syntax tree, as a list of nodes in which every node comes after
/// its parent and after its previous sibling.
#[derive(Debug)]
pub struct SyntaxTree {
    pub nodes: Vec<SyntaxNode>,
}

impl View for SyntaxTree {
    type V = Seq<NodeView>;

    open spec fn view(&self) -> Seq<NodeView> {
        self.nodes@.map_values(|n: SyntaxNode| n@)
    }
}

/// Every link of a node points to an earlier node.
pub open spec fn tree_wf(t: Seq<NodeView>) -> bool {
    forall|i: int|
        0 <= i < t.len() ==> {
            &&& (#[trigger] t[i]).parent matches Some(p) ==> p < i
            &&& t[i].prev_sibling matches Some(s) ==> s < i
        }
}

impl SyntaxTree {
    /// Every link points to an earlier node.
    pub open spec fn wf(&self) -> bool {
        tree_wf(self@)
    }

    /// The position of the last node among the first `limit` ones that has
    /// parser handle `id`.
    pub fn nearest_with_id(&self, id: usize, limit: usize) -> (r: Option<usize>)
        requires
            limit <= self.nodes@.len(),
        ensures
            r matches Some(j) ==> j < limit && self.nodes@[j as int].id == id,
            r is None ==> forall|j: int| 0 <= j < limit ==> self.nodes@[j].id != id,
    {
        let mut j: usize = limit;
        while j > 0
            invariant
                j <= limit <= self.nodes@.len(),
                forall|k: int| j <= k < limit ==> self.nodes@[k].id != id,
            decreases j,
        {
            if self.nodes[j - 1].id == id {
                return Some(j - 1);
            }
            j = j - 1;
        }
        None
    }
}

/// Source code together with the syntax tree parsed from it.
pub struct ParsedSource {
    tree: tree_sitter::Tree,
    code: Vec<u8>,
}

impl ParsedSource {
    /// The source code that the tree was parsed from.
    pub closed spec fn source(&self) -> Seq<u8> {
        self.code@
    }
}

/// The number of nodes of the tree that the parser builds from `code`.
pub uninterp spec fn node_count_of(code: Seq<u8>) -> usize;

/// The kind and range of the node at position `index`, in pre-order, of the
/// tree that the parser builds from `code`.
pub uninterp spec fn node_of(code: Seq<u8>, index: int) -> (Seq<char>, Range);

/// The pre-order position of the parent of the node at position `index` of
/// the tree that the parser builds from `code`.
pub uninterp spec fn parent_of(code: Seq<u8>, index: int) -> Option<usize>;

/// Relies on `tree_sitter::Parser` with the `tree_sitter_bpf_c` grammar:
/// `Parser::parse` gives no tree only where no language is set or parsing is
/// cancelled, and `set_language` fails only for a grammar of another ABI
/// version, which is fixed when the crate is built.
#[verifier::external_body]
pub(crate) fn parse_tree(code: &[u8]) -> (r: Option<ParsedSource>)
    ensures
        r is Some,
        r matches Some(p) ==> p.source() == code@,
{
    let mut parser = tree_sitter::Parser::new();
    parser.set_language(&tree_sitter_bpf_c::LANGUAGE.into()).ok()?;
    let tree = parser.parse(code, None)?;
    Some(ParsedSource { tree, code: code.to_vec() })
}

/// Relies on `tree_sitter::Node::descendant_count`: the number of nodes in the
/// tree, the root included.
#[verifier::external_body]
fn node_count(p: &ParsedSource) -> (r: usize)
    ensures
        r == node_count_of(p.source()),
{
    p.tree.root_node().descendant_count()
}

/// Relies on `tree_sitter::TreeCursor::goto_descendant`: the kind and range of
/// the node at position `index` of the tree in pre-order, and its handle
/// (`Node::id`, a memory address, of which nothing is stated).
#[verifier::external_body]
fn node_at(p: &ParsedSource, index: usize) -> (r: (String, Range, usize))
    requires
        index < node_count_of(p.source()),
    ensures
        (r.0@, r.1) == node_of(p.source(), index as int),
{
    let mut cursor = p.tree.walk();
    cursor.goto_descendant(index);
    let node = cursor.node();
    let r = node.range();
    let start_point = Point { row: r.start_point.row, col: r.start_point.column };
    let end_point = Point { row: r.end_point.row, col: r.end_point.column };
    (node.kind().to_string(), Range { bytes: r.start_byte..r.end_byte, start_point, end_point }, node.id())
}

/// Relies on `tree_sitter::TreeCursor::goto_parent` and `descendant_index`:
/// the pre-order position of the parent of the node at position `index`.
#[verifier::external_body]
fn parent_at(p: &ParsedSource, index: usize) -> (r: Option<usize>)
    requires
        index < node_count_of(p.source()),
    ensures
        r == parent_of(p.source(), index as int),
{
    let mut cursor = p.tree.walk();
    cursor.goto_descendant(index);
    match cursor.goto_parent() {
        true => Some(cursor.descendant_index()),
        false => None,
    }
}

/// A link kept only where it points to one of the first `limit` nodes.
pub open spec fn link_before(link: Option<usize>, limit: int) -> Option<usize> {
    match link {
        Some(j) => if j < limit { Some(j) } else { None },
        None => None,
    }
}

/// The last of the first `limit` nodes whose parent is node `p`.
pub open spec fn last_child_of(t: Seq<NodeView>, p: usize, limit: int) -> Option<usize>
    decreases limit,
{
    if limit <= 0 {
        None
    } else if t[limit - 1].parent == Some(p) {
        Some((limit - 1) as usize)
    } else {
        last_child_of(t, p, limit - 1)
    }
}

pub proof fn lemma_last_child_bound(t: Seq<NodeView>, p: usize, limit: int)
    ensures
        last_child_of(t, p, limit) matches Some(j) ==> j < limit,
    decreases limit,
{
    if limit > 0 && t[limit - 1].parent != Some(p) {
        lemma_last_child_bound(t, p, limit - 1);
    }
}

proof fn lemma_last_child_prefix(t: Seq<NodeView>, x: NodeView, p: usize, limit: int)
    requires
        limit <= t.len(),
    ensures
        last_child_of(t.push(x), p, limit) == last_child_of(t, p, limit),
    decreases limit,
{
    if limit > 0 {
        assert(t.push(x)[limit - 1] == t[limit - 1]);
        lemma_last_child_prefix(t, x, p, limit - 1);
    }
}

proof fn lemma_no_child_yet(t: Seq<NodeView>, p: usize, limit: int)
    requires
        tree_wf(t),
        limit <= t.len(),
        limit <= p + 1,
    ensures
        last_child_of(t, p, limit) is None,
    decreases limit,
{
    if limit > 0 {
        assert(t[limit - 1].parent != Some(p));
        lemma_no_child_yet(t, p, limit - 1);
    }
}

/// The first `n` nodes of the tree parsed from `code`, keeping the parent
/// links that point to earlier nodes. In pre-order, the previous sibling of a
/// node is the last earlier node with the same parent.
pub open spec fn syntax_prefix(code: Seq<u8>, n: nat) -> Seq<NodeView>
    decreases n,
{
    if n == 0 {
        Seq::empty()
    } else {
        let t = syntax_prefix(code, (n - 1) as nat);
        let (kind, range) = node_of(code, n - 1);
        t.push(
            NodeView {
                kind,
                range,
                parent: link_before(parent_of(code, n - 1), n - 1),
                prev_sibling: match link_before(parent_of(code, n - 1), n - 1) {
                    Some(p) => last_child_of(t, p, n - 1),
                    None => None,
                },
            },
        )
    }
}

/// The node list of the tree that the parser builds from `code`.
pub open spec fn syntax_of(code: Seq<u8>) -> Seq<NodeView> {
    syntax_prefix(code, node_count_of(code) as nat)
}

pub proof fn lemma_syntax_prefix_wf(code: Seq<u8>, n: nat)
    ensures
        tree_wf(syntax_prefix(code, n)),
        syntax_prefix(code, n).len() == n,
    decreases n,
{
    if n > 0 {
        let t = syntax_prefix(code, (n - 1) as nat);
        lemma_syntax_prefix_wf(code, (n - 1) as nat);
        let parent = link_before(parent_of(code, n - 1), n - 1);
        if let Some(q) = parent {
            lemma_last_child_bound(t, q, n - 1);
        }
        let s = syntax_prefix(code, n);
        assert forall|i: int| 0 <= i < s.len() implies {
            &&& (#[trigger] s[i]).parent matches Some(p) ==> p < i
            &&& s[i].prev_sibling matches Some(q) ==> q < i
        } by {
            if i < n - 1 {
                assert(s[i] == t[i]);
            }
        }
    }
}

/// Builds the node list of a parsed tree, in pre-order.
pub(crate) fn syntax_tree(p: &ParsedSource) -> (r: SyntaxTree)
    ensures
        r@ == syntax_of(p.source()),
        r.wf(),
{
    let n = node_count(p);
    let mut t = SyntaxTree { nodes: Vec::new() };
    // The last child seen so far of each node.
    let mut last: Vec<Option<usize>> = Vec::new();
    let mut i: usize = 0;
    while i < n
        invariant
            i <= n == node_count_of(p.source()),
            t@ == syntax_prefix(p.source(), i as nat),
            last@.len() == i,
            forall|q: int| 0 <= q < i ==> #[trigger] last@[q] == last_child_of(t@, q as usize, i as int),
        decreases n - i,
    {
        proof { lemma_syntax_prefix_wf(p.source(), i as nat); }
        let (kind, range, id) = node_at(p, i);
        let parent = match parent_at(p, i) {
            Some(j) => if j < i { Some(j) } else { None },
            None => None,
        };
        let prev_sibling = match parent {
            Some(q) => last[q],
            None => None,
        };
        let ghost before = t@;
        let node = SyntaxNode { id, kind, range, parent, prev_sibling };
        let ghost x = node@;
        t.nodes.push(node);
        assert(t@ =~= before.push(x));
        assert(t@ =~= syntax_prefix(p.source(), (i + 1) as nat));
        if let Some(q) = parent {
            last.set(q, Some(i));
        }
        last.push(None);
        proof {
            lemma_syntax_prefix_wf(p.source(), (i + 1) as nat);
            assert forall|q: int| 0 <= q < i + 1 implies #[trigger] last@[q] == last_child_of(t@, q as usize, i + 1) by {
                if q == i {
                    lemma_no_child_yet(t@, q as usize, i + 1);
                } else {
                    lemma_last_child_prefix(before, x, q as usize, i as int);
                }
            }
        }
        i = i + 1;
    }
    proof { lemma_syntax_prefix_wf(p.source(), n as nat); }
    t
}

/// A query compiled for the BPF C grammar, with the text it was compiled from.
pub struct CompiledQuery {
    query: tree_sitter::Query,
    source: String,
}

impl CompiledQuery {
    /// The text that the query was compiled from.
    pub closed spec fn source(&self) -> Seq<char> {
        self.source@
    }
}

/// Whether `source` compiles as a query for the BPF C grammar.
pub uninterp spec fn query_compiles(source: Seq<char>) -> bool;

/// The names of the captures of the query compiled from `source`, by capture
/// index.
pub uninterp spec fn capture_names_of(source: Seq<char>) -> Seq<Seq<char>>;

/// Relies on `tree_sitter::Query::new` with the `tree_sitter_bpf_c` grammar:
/// compiles the query `source`, or reports why it cannot.
#[verifier::external_body]
pub(crate) fn compile_query(source: &str) -> (r: Result<CompiledQuery, tree_sitter::QueryError>)
    ensures
        r is Ok == query_compiles(source@),
        r matches Ok(q) ==> q.source() == source@,
{
    tree_sitter::Query::new(&tree_sitter_bpf_c::LANGUAGE.into(), source)
        .map(|query| CompiledQuery { query, source: source.to_string() })
}

/// Relies on `tree_sitter::Query::capture_names`: the names of the query's
/// captures, by capture index.
#[verifier::external_body]
pub(crate) fn capture_names(q: &CompiledQuery) -> (r: Vec<String>)
    ensures
        r@.map_values(|s: String| s@) == capture_names_of(q.source()),
{
    q.query.capture_names().iter().map(|n| n.to_string()).collect()
}

/// Whether running the query compiled from `source` on the tree parsed from
/// `code` exceeds the query cursor's limit of in-progress matches.
pub uninterp spec fn match_limit_exceeded(source: Seq<char>, code: Seq<u8>) -> bool;

/// Relies on `tree_sitter::QueryCursor::matches`: every capture of every match
/// of the query in the parsed tree, in the order the cursor yields them, as
/// pairs of a capture index and the captured node's handle (`Node::id`, a
/// memory address, so nothing is stated of these). The cursor reads the node
/// texts from the code the tree was parsed from. Then relies on
/// `QueryCursor::did_exceed_match_limit`.
#[verifier::external_body]
pub(crate) fn run_query(q: &CompiledQuery, p: &ParsedSource) -> (r: (Vec<(usize, usize)>, bool))
    ensures
        r.1 == match_limit_exceeded(q.source(), p.source()),
{
    let mut cursor = tree_sitter::QueryCursor::new();
    let mut found = Vec::new();
    let mut matches = cursor.matches(&q.query, p.tree.root_node(), p.code.as_slice());
    while let Some(m) = matches.next() {
        found.extend(m.captures().iter().map(|c| (c.index as usize, c.node.id())));
    }
    (found, cursor.did_exceed_match_limit())
}

} // verus!
