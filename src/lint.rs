use vstd::prelude::*;

use crate::directive::directive_disables;
use crate::directive::disables;
use crate::position::range_le;
use crate::position::Range;
use crate::syntax::capture_names;
use crate::syntax::compile_query;
use crate::syntax::parse_tree;
use crate::syntax::run_query;
use crate::syntax::syntax_tree;
use crate::syntax::capture_names_of;
use crate::syntax::match_limit_exceeded;
use crate::syntax::query_compiles;
use crate::syntax::syntax_of;
use crate::syntax::tree_wf;
use crate::syntax::NodeView;
use crate::syntax::SyntaxTree;

verus! {

/// A lint.
#[derive(Clone, Debug)]
pub struct Lint {
    /// The lint's name.
    pub name: String,
    /// The lint's source code, in the form of a tree-sitter query.
    pub code: String,
    /// The message reported in a [`LintMatch`].
    pub message: String,
}

/// Details about a lint match.
#[derive(Clone, Debug)]
pub struct LintMatch {
    /// The name of the lint that matched.
    pub lint_name: String,
    /// The lint's message.
    pub message: String,
    /// The code range that triggered the lint.
    pub range: Range,
}

/// What a lint is: its name, its query and its message.
pub struct LintView {
    pub name: Seq<char>,
    pub code: Seq<char>,
    pub message: Seq<char>,
}

impl View for Lint {
    type V = LintView;

    open spec fn view(&self) -> LintView {
        LintView { name: self.name@, code: self.code@, message: self.message@ }
    }
}

pub open spec fn lint_views(s: Seq<Lint>) -> Seq<LintView> {
    s.map_values(|l: Lint| l@)
}

/// What a match is: the lint's name, its message and the range.
pub type FindingView = (Seq<char>, Seq<char>, Range);

impl View for LintMatch {
    type V = FindingView;

    open spec fn view(&self) -> FindingView {
        (self.lint_name@, self.message@, self.range)
    }
}

/// Why linting failed.
#[derive(Clone, Debug)]
pub enum LintError {
    /// The query of the named lint does not compile.
    Query(String),
}

/// One capture of a lint's query: the capture's name and the captured node,
/// as an index into a [`SyntaxTree`].
#[derive(Clone, Debug)]
pub struct Capture {
    pub name: String,
    pub node: usize,
}

/// What a capture is: its name and the captured node's position.
pub struct CaptureView {
    pub name: Seq<char>,
    pub node: usize,
}

impl View for Capture {
    type V = CaptureView;

    open spec fn view(&self) -> CaptureView {
        CaptureView { name: self.name@, node: self.node }
    }
}

pub open spec fn capture_views(c: Seq<Vec<Capture>>) -> Seq<Seq<CaptureView>> {
    c.map_values(|v: Vec<Capture>| v@.map_values(|x: Capture| x@))
}

/// Captures whose name starts with a double underscore only serve the query
/// itself and are never reported.
pub open spec fn is_internal(name: Seq<char>) -> bool {
    name.len() >= 2 && name[0] == '_' && name[1] == '_'
}

/// Whether a capture called `name` is internal to its query.
pub fn is_internal_name(name: &str) -> (r: bool)
    ensures
        r == is_internal(name@),
{
    name.unicode_len() >= 2 && name.get_char(0) == '_' && name.get_char(1) == '_'
}

/// The characters of `b` where it is valid UTF-8.
pub open spec fn utf8_text(b: Seq<u8>) -> Option<Seq<char>> {
    if vstd::utf8::valid_utf8(b) {
        Some(vstd::utf8::decode_utf8(b))
    } else {
        None
    }
}

/// Relies on `std::str::from_utf8`: decodes `b` where it is valid UTF-8, and
/// fails where it is not.
#[verifier::external_body]
fn utf8_chars(b: &[u8]) -> (r: Option<Vec<char>>)
    ensures
        r matches Some(v) ==> utf8_text(b@) == Some(v@),
        r is None ==> utf8_text(b@) is None,
{
    std::str::from_utf8(b).ok().map(|s| s.chars().collect())
}

/// Whether node `s` is a comment that holds a directive disabling `name`.
pub open spec fn disabled_by(t: Seq<NodeView>, code: Seq<u8>, name: Seq<char>, s: int) -> bool {
    let node = t[s];
    &&& node.kind == "comment"@
    &&& node.range.bytes.start <= node.range.bytes.end <= code.len()
    &&& utf8_text(code.subrange(node.range.bytes.start as int, node.range.bytes.end as int)) matches Some(
        text,
    )
    &&& directive_disables(text, name)
}

/// Whether the lint `name` is disabled at node `i`: the previous sibling of
/// the node or of one of its ancestors is a comment that disables it.
pub open spec fn suppressed(t: Seq<NodeView>, code: Seq<u8>, name: Seq<char>, i: int) -> bool
    decreases i,
{
    if 0 <= i < t.len() {
        ||| (t[i].prev_sibling matches Some(s) && disabled_by(t, code, name, s as int))
        ||| (t[i].parent matches Some(p) && p < i && suppressed(t, code, name, p as int))
    } else {
        false
    }
}

/// Walk the syntax tree, checking whether a comment node that disables the
/// given lint precedes `node` or one of its ancestors.
pub fn is_lint_disabled(lint_name: &str, node: usize, tree: &SyntaxTree, code: &[u8]) -> (r: bool)
    requires
        tree.wf(),
        node < tree.nodes@.len(),
    ensures
        r == suppressed(tree@, code@, lint_name@, node as int),
{
    let mut i = node;
    loop
        invariant
            tree.wf(),
            i < tree.nodes@.len(),
            suppressed(tree@, code@, lint_name@, node as int) == suppressed(
                tree@,
                code@,
                lint_name@,
                i as int,
            ),
        decreases i,
    {
        let n = &tree.nodes[i];
        assert(tree@[i as int] == n@);
        if let Some(s) = n.prev_sibling {
            assert(tree@[s as int] == tree.nodes@[s as int]@);
            if disabled_by_node(lint_name, &tree.nodes[s], code) {
                return true;
            }
        }
        match n.parent {
            Some(p) => {
                i = p;
            },
            None => {
                return false;
            },
        }
    }
}

/// Whether `node` is a comment that holds a directive disabling `lint_name`.
fn disabled_by_node(lint_name: &str, node: &crate::syntax::SyntaxNode, code: &[u8]) -> (r: bool)
    ensures
        r == {
            &&& node.kind@ == "comment"@
            &&& node.range.bytes.start <= node.range.bytes.end <= code@.len()
            &&& utf8_text(
                code@.subrange(node.range.bytes.start as int, node.range.bytes.end as int),
            ) matches Some(text)
            &&& directive_disables(text, lint_name@)
        },
{
    proof { reveal_strlit("comment"); }
    if !text_eq(node.kind.as_str(), "comment") {
        return false;
    }
    let start = node.range.bytes.start;
    let end = node.range.bytes.end;
    if !(start <= end && end <= code.len()) {
        return false;
    }
    match utf8_chars(&code[start..end]) {
        Some(text) => disables(&text, lint_name),
        // Text that is not valid UTF-8 cannot hold a directive.
        None => false,
    }
}

/// Whether `a` and `b` hold the same characters.
pub fn text_eq(a: &str, b: &str) -> (r: bool)
    ensures
        r == (a@ == b@),
{
    let n = a.unicode_len();
    if n != b.unicode_len() {
        return false;
    }
    let mut k: usize = 0;
    while k < n
        invariant
            k <= n == a@.len() == b@.len(),
            forall|j: int| 0 <= j < k ==> a@[j] == b@[j],
        decreases n - k,
    {
        if a.get_char(k) != b.get_char(k) {
            return false;
        }
        k = k + 1;
    }
    assert(a@ =~= b@);
    true
}

/// Where `x` goes in the sorted `s`: after every entry that is reported no
/// later than it.
pub open spec fn insert_sorted(s: Seq<FindingView>, x: FindingView) -> Seq<FindingView>
    decreases s.len(),
{
    if s.len() == 0 || range_le(s.last().2, x.2) {
        s.push(x)
    } else {
        insert_sorted(s.drop_last(), x).push(s.last())
    }
}

/// `s` sorted by range, stably: entries that compare equal keep their order.
pub open spec fn sort_findings(s: Seq<FindingView>) -> Seq<FindingView>
    decreases s.len(),
{
    if s.len() == 0 {
        s
    } else {
        insert_sorted(sort_findings(s.drop_last()), s.last())
    }
}

/// Every entry is reported no later than the next one.
pub open spec fn is_sorted(s: Seq<FindingView>) -> bool {
    forall|i: int| 0 <= i < s.len() - 1 ==> range_le(#[trigger] s[i].2, s[i + 1].2)
}

/// Whether a capture of the lint called `name` is reported.
pub open spec fn kept(t: Seq<NodeView>, code: Seq<u8>, name: Seq<char>, c: CaptureView) -> bool {
    !is_internal(c.name) && !suppressed(t, code, name, c.node as int)
}

/// The findings of one lint, from its captures in order.
pub open spec fn rule_findings(t: Seq<NodeView>, code: Seq<u8>, lint: LintView, caps: Seq<CaptureView>) -> Seq<
    FindingView,
>
    decreases caps.len(),
{
    if caps.len() == 0 {
        Seq::empty()
    } else {
        let c = caps.last();
        let rest = rule_findings(t, code, lint, caps.drop_last());
        if kept(t, code, lint.name, c) {
            rest.push((lint.name, lint.message, t[c.node as int].range))
        } else {
            rest
        }
    }
}

/// The findings of all lints, lint after lint.
pub open spec fn all_findings(t: Seq<NodeView>, code: Seq<u8>, lints: Seq<LintView>, caps: Seq<Seq<CaptureView>>) -> Seq<
    FindingView,
>
    decreases lints.len(),
{
    if lints.len() == 0 || caps.len() != lints.len() {
        Seq::empty()
    } else {
        all_findings(t, code, lints.drop_last(), caps.drop_last()) + rule_findings(
            t,
            code,
            lints.last(),
            caps.last(),
        )
    }
}

/// The reported matches: the findings of all lints, sorted stably by range.
pub open spec fn collected(t: Seq<NodeView>, code: Seq<u8>, lints: Seq<LintView>, caps: Seq<Seq<CaptureView>>) -> Seq<
    FindingView,
> {
    sort_findings(all_findings(t, code, lints, caps))
}

pub open spec fn views(v: Seq<LintMatch>) -> Seq<FindingView> {
    v.map_values(|m: LintMatch| m@)
}

/// Every capture refers to a node of the tree.
pub open spec fn captures_in(t: Seq<NodeView>, caps: Seq<Seq<CaptureView>>) -> bool {
    forall|k: int, j: int|
        0 <= k < caps.len() && 0 <= j < caps[k].len() ==> (#[trigger] caps[k][j]).node
            < t.len()
}

proof fn lemma_insert_sorted_split(s: Seq<FindingView>, x: FindingView, pos: int)
    requires
        0 <= pos < s.len(),
        !range_le(s[pos].2, x.2),
    ensures
        insert_sorted(s.take(pos + 1), x) == insert_sorted(s.take(pos), x).push(s[pos]),
{
    assert(s.take(pos + 1).drop_last() =~= s.take(pos));
}

/// Inserts `m` after every match that is reported no later than it.
fn insert_match(v: &mut Vec<LintMatch>, m: LintMatch)
    ensures
        views(final(v)@) == insert_sorted(views(old(v)@), m@),
{
    let ghost s = views(v@);
    let mut pos = v.len();
    assert(s.take(pos as int) =~= s);
    assert(s.skip(pos as int) =~= Seq::<FindingView>::empty());
    assert(insert_sorted(s, m@) =~= insert_sorted(s.take(pos as int), m@) + s.skip(pos as int));
    while pos > 0 && !v[pos - 1].range.order_le(&m.range)
        invariant
            pos <= v@.len(),
            s == views(v@),
            insert_sorted(s, m@) == insert_sorted(s.take(pos as int), m@) + s.skip(pos as int),
        decreases pos,
    {
        proof {
            lemma_insert_sorted_split(s, m@, pos - 1);
            assert(s.skip(pos - 1) =~= seq![s[pos - 1]] + s.skip(pos as int));
            assert(insert_sorted(s.take(pos - 1), m@).push(s[pos - 1]) + s.skip(pos as int)
                =~= insert_sorted(s.take(pos - 1), m@) + s.skip(pos - 1));
        }
        pos = pos - 1;
    }
    proof {
        if pos == 0 {
            assert(s.take(0) =~= Seq::<FindingView>::empty());
        } else {
            assert(s.take(pos as int).last() == s[pos - 1]);
        }
    }
    let ghost x = m@;
    v.insert(pos, m);
    assert(views(v@) =~= s.take(pos as int).push(x) + s.skip(pos as int));
}

/// Turns the captures of the lints' queries into the reported matches:
/// internal captures and disabled findings are dropped, and what remains is
/// sorted stably by range.
pub fn collect_matches(tree: &SyntaxTree, code: &[u8], lints: &[Lint], captures: &Vec<Vec<Capture>>) -> (r: Vec<LintMatch>)
    requires
        tree.wf(),
        captures@.len() == lints@.len(),
        captures_in(tree@, capture_views(captures@)),
    ensures
        views(r@) == collected(tree@, code@, lint_views(lints@), capture_views(captures@)),
{
    let ghost caps = capture_views(captures@);
    let ghost lv = lint_views(lints@);
    let mut result: Vec<LintMatch> = Vec::new();
    let mut k: usize = 0;
    while k < lints.len()
        invariant
            k <= lints@.len() == captures@.len() == caps.len() == lv.len(),
            tree.wf(),
            caps == capture_views(captures@),
            lv == lint_views(lints@),
            captures_in(tree@, caps),
            views(result@) == sort_findings(all_findings(tree@, code@, lv.take(k as int), caps.take(k as int))),
        decreases lints@.len() - k,
    {
        let lint = &lints[k];
        let caps_k = &captures[k];
        let ghost ck = caps[k as int];
        let ghost before = all_findings(tree@, code@, lv.take(k as int), caps.take(k as int));
        let mut j: usize = 0;
        while j < caps_k.len()
            invariant
                k < lints@.len() == captures@.len() == caps.len() == lv.len(),
                j <= caps_k@.len() == ck.len(),
                tree.wf(),
                caps == capture_views(captures@),
                ck == caps[k as int],
                ck == caps_k@.map_values(|x: Capture| x@),
                lint@ == lv[k as int],
                captures_in(tree@, caps),
                views(result@) == sort_findings(before + rule_findings(tree@, code@, lint@, ck.take(j as int))),
            decreases caps_k@.len() - j,
        {
            let c = &caps_k[j];
            let ghost prev = before + rule_findings(tree@, code@, lint@, ck.take(j as int));
            assert(ck.take(j + 1).drop_last() =~= ck.take(j as int));
            assert(ck[j as int] == c@);
            assert(caps[k as int][j as int] == c@);
            if !is_internal_name(c.name.as_str()) && !is_lint_disabled(lint.name.as_str(), c.node, tree, code) {
                let m = LintMatch {
                    lint_name: lint.name.clone(),
                    message: lint.message.clone(),
                    range: tree.nodes[c.node].range.clone(),
                };
                let ghost x = m@;
                assert(tree@[c.node as int] == tree.nodes@[c.node as int]@);
                insert_match(&mut result, m);
                assert(prev.push(x).drop_last() =~= prev);
                assert(before + rule_findings(tree@, code@, lint@, ck.take(j + 1)) =~= prev.push(
                    (lint.name@, lint.message@, tree@[c.node as int].range),
                ));
            } else {
                assert(before + rule_findings(tree@, code@, lint@, ck.take(j + 1)) =~= prev);
            }
            j = j + 1;
        }
        proof {
            assert(ck.take(j as int) =~= ck);
            assert(lv.take(k + 1).drop_last() =~= lv.take(k as int));
            assert(caps.take(k + 1).drop_last() =~= caps.take(k as int));
        }
        k = k + 1;
    }
    assert(lv.take(k as int) =~= lv);
    assert(caps.take(k as int) =~= caps);
    result
}

proof fn lemma_insert_sorted(s: Seq<FindingView>, x: FindingView)
    requires
        is_sorted(s),
    ensures
        is_sorted(insert_sorted(s, x)),
        insert_sorted(s, x).len() == s.len() + 1,
        insert_sorted(s, x).last() == x || (s.len() > 0 && insert_sorted(s, x).last() == s.last()),
    decreases s.len(),
{
    if s.len() == 0 || range_le(s.last().2, x.2) {
        let r = s.push(x);
        assert forall|i: int| 0 <= i < r.len() - 1 implies range_le(#[trigger] r[i].2, r[i + 1].2) by {
            if i < s.len() - 1 {
                assert(r[i] == s[i] && r[i + 1] == s[i + 1]);
            }
        }
    } else {
        let d = s.drop_last();
        assert(is_sorted(d)) by {
            assert forall|i: int| 0 <= i < d.len() - 1 implies range_le(#[trigger] d[i].2, d[i + 1].2) by {
                assert(d[i] == s[i] && d[i + 1] == s[i + 1]);
            }
        }
        lemma_insert_sorted(d, x);
        let q = insert_sorted(d, x);
        let r = q.push(s.last());
        assert(range_le(q.last().2, s.last().2)) by {
            if q.last() != x {
                assert(s[s.len() - 2] == d.last());
            }
        }
        assert forall|i: int| 0 <= i < r.len() - 1 implies range_le(#[trigger] r[i].2, r[i + 1].2) by {
            if i < q.len() - 1 {
                assert(r[i] == q[i] && r[i + 1] == q[i + 1]);
            } else {
                assert(r[i] == q.last());
            }
        }
    }
}

/// The reported matches come in source order: each is reported no later
/// than the next, by start point and then by end point.
pub proof fn lemma_sorted_findings(s: Seq<FindingView>)
    ensures
        is_sorted(sort_findings(s)),
        sort_findings(s).len() == s.len(),
    decreases s.len(),
{
    if s.len() > 0 {
        lemma_sorted_findings(s.drop_last());
        lemma_insert_sorted(sort_findings(s.drop_last()), s.last());
    }
}

/// Captures that the queries of `lints` may give in `code`: one list per
/// lint, each capture named by its lint's query and referring to a node of
/// the tree.
pub open spec fn possible_captures(lints: Seq<LintView>, code: Seq<u8>, caps: Seq<Seq<CaptureView>>) -> bool {
    &&& caps.len() == lints.len()
    &&& captures_in(syntax_of(code), caps)
    &&& forall|k: int, j: int|
        0 <= k < caps.len() && 0 <= j < caps[k].len() ==> capture_names_of(lints[k].code).contains(
            (#[trigger] caps[k][j]).name,
        )
}

/// Every lint's query compiles.
pub open spec fn all_compile(lints: Seq<LintView>) -> bool {
    forall|k: int| 0 <= k < lints.len() ==> query_compiles(#[trigger] lints[k].code)
}

/// Lint `k` is the first whose query does not compile.
pub open spec fn first_failure(lints: Seq<LintView>, k: int) -> bool {
    &&& 0 <= k < lints.len()
    &&& !query_compiles(lints[k].code)
    &&& forall|j: int| 0 <= j < k ==> query_compiles(#[trigger] lints[j].code)
}

/// What linting `code` with `lints` gives: an error naming the first lint
/// whose query does not compile, or else the matches collected from the
/// queries' captures in the parsed tree. Which nodes a query captures is the
/// query engine's to say.
pub open spec fn lint_outcome(lints: Seq<LintView>, code: Seq<u8>, r: Result<Vec<LintMatch>, LintError>) -> bool {
    &&& r is Ok == all_compile(lints)
    &&& r matches Err(LintError::Query(name)) ==> exists|k: int|
        first_failure(lints, k) && name@ == (#[trigger] lints[k]).name
    &&& r matches Ok(v) ==> exists|caps: Seq<Seq<CaptureView>>|
        possible_captures(lints, code, caps) && views(v@) == #[trigger] collected(
            syntax_of(code),
            code,
            lints,
            caps,
        )
    &&& r matches Ok(v) ==> is_sorted(views(v@))
}

/// Pairs the lint's capture indices and node handles with capture names and
/// node positions; captures that name neither are left out.
fn resolve_captures(tree: &SyntaxTree, names: &Vec<String>, found: &Vec<(usize, usize)>) -> (r: Vec<Capture>)
    ensures
        forall|j: int| 0 <= j < r@.len() ==> (#[trigger] r@[j]).node < tree.nodes@.len(),
        forall|j: int|
            0 <= j < r@.len() ==> names@.map_values(|s: String| s@).contains((#[trigger] r@[j]).name@),
{
    let ghost nv = names@.map_values(|s: String| s@);
    let mut r: Vec<Capture> = Vec::new();
    let mut k: usize = 0;
    while k < found.len()
        invariant
            k <= found@.len(),
            nv == names@.map_values(|s: String| s@),
            forall|j: int| 0 <= j < r@.len() ==> (#[trigger] r@[j]).node < tree.nodes@.len(),
            forall|j: int| 0 <= j < r@.len() ==> nv.contains((#[trigger] r@[j]).name@),
        decreases found@.len() - k,
    {
        let (index, id) = found[k];
        if index < names.len() {
            if let Some(node) = tree.nearest_with_id(id, tree.nodes.len()) {
                let name = names[index].clone();
                assert(nv[index as int] == name@);
                r.push(Capture { name, node });
            }
        }
        k = k + 1;
    }
    r
}

/// The names of the lints whose query ran into the query engine's limit of
/// in-progress matches on `code`, in order.
pub open spec fn limit_exceeded_by(lints: Seq<LintView>, code: Seq<u8>) -> Seq<Seq<char>>
    decreases lints.len(),
{
    if lints.len() == 0 {
        Seq::empty()
    } else {
        let rest = limit_exceeded_by(lints.drop_last(), code);
        if match_limit_exceeded(lints.last().code, code) {
            rest.push(lints.last().name)
        } else {
            rest
        }
    }
}

/// The matches of a run that also reports warnings.
pub open spec fn matches_only(r: Result<(Vec<LintMatch>, Vec<String>), LintError>) -> Result<Vec<LintMatch>, LintError> {
    match r {
        Ok(o) => Ok(o.0),
        Err(e) => Err(e),
    }
}

/// Lint code using the provided set of lints, as `lint_custom` does, and
/// also name the lints whose query ran into the query engine's limit of
/// in-progress matches: their matches may be incomplete, which deserves a
/// warning.
pub fn lint_custom_with_warnings(code: &[u8], lints: &[Lint]) -> (r: Result<(Vec<LintMatch>, Vec<String>), LintError>)
    ensures
        lint_outcome(lint_views(lints@), code@, matches_only(r)),
        r matches Ok(o) ==> o.1@.map_values(|s: String| s@) == limit_exceeded_by(lint_views(lints@), code@),
{
    let ghost lv = lint_views(lints@);
    let parsed = parse_tree(code).unwrap();
    let st = syntax_tree(&parsed);
    let mut captures: Vec<Vec<Capture>> = Vec::new();
    let mut exceeded: Vec<String> = Vec::new();
    let mut k: usize = 0;
    while k < lints.len()
        invariant
            exceeded@.map_values(|s: String| s@) == limit_exceeded_by(lv.take(k as int), code@),
            k <= lints@.len() == lv.len(),
            lv == lint_views(lints@),
            parsed.source() == code@,
            st@ == syntax_of(code@),
            st.wf(),
            captures@.len() == k,
            possible_captures(lv.take(k as int), code@, capture_views(captures@)),
            forall|j: int| 0 <= j < k ==> query_compiles(#[trigger] lv[j].code),
        decreases lints@.len() - k,
    {
        let lint = &lints[k];
        assert(lint@ == lv[k as int]);
        let query = match compile_query(lint.code.as_str()) {
            Ok(q) => q,
            Err(_) => {
                let name = lint.name.clone();
                assert(first_failure(lv, k as int));
                return Err(LintError::Query(name));
            },
        };
        let names = capture_names(&query);
        let (found, over_limit) = run_query(&query, &parsed);
        let ghost old_exceeded = exceeded@;
        assert(lv.take(k + 1).drop_last() =~= lv.take(k as int));
        if over_limit {
            exceeded.push(lint.name.clone());
            assert(exceeded@.map_values(|s: String| s@) =~= old_exceeded.map_values(|s: String| s@).push(lint.name@));
        }
        let caps = resolve_captures(&st, &names, &found);
        let ghost old_caps = captures@;
        captures.push(caps);
        proof {
            let cv = capture_views(captures@);
            let lk = lv.take(k + 1);
            assert(cv =~= capture_views(old_caps).push(caps@.map_values(|x: Capture| x@)));
            assert(capture_names_of(lk[k as int].code) == names@.map_values(|s: String| s@));
            assert forall|a: int, b: int| 0 <= a < cv.len() && 0 <= b < cv[a].len() implies {
                &&& (#[trigger] cv[a][b]).node < st@.len()
                &&& capture_names_of(lk[a].code).contains(cv[a][b].name)
            } by {
                if a < k {
                    assert(cv[a] == capture_views(old_caps)[a]);
                    assert(lk[a] == lv.take(k as int)[a]);
                } else {
                    assert(cv[a][b] == caps@[b]@);
                }
            }
        }
        k = k + 1;
    }
    assert(lv.take(k as int) =~= lv);
    let v = collect_matches(&st, code, lints, &captures);
    proof {
        let cv = capture_views(captures@);
        lemma_sorted_findings(all_findings(st@, code@, lv, cv));
        assert(possible_captures(lv, code@, cv) && views(v@) == collected(syntax_of(code@), code@, lv, cv));
    }
    Ok((v, exceeded))
}

/// Lint code using the provided set of lints.
///
/// Matches are reported in source code order, by start and then by end
/// position; matches at the same position keep the order of their lints.
/// A lint whose query does not compile fails the whole run, and the first
/// such lint is named.
pub fn lint_custom(code: &[u8], lints: &[Lint]) -> (r: Result<Vec<LintMatch>, LintError>)
    ensures
        lint_outcome(lint_views(lints@), code@, r),
{
    match lint_custom_with_warnings(code, lints) {
        Ok((v, _)) => Ok(v),
        Err(e) => Err(e),
    }
}

/// The lints shipped with the library, in order.
pub open spec fn builtin_set() -> Seq<LintView> {
    seq![
        LintView {
            name: "probe-read"@,
            code: "(call_expression\n    function: (identifier) @function (#eq? @function \"bpf_probe_read\")\n)\n"@,
            message: "bpf_probe_read() is deprecated and replaced by bpf_probe_user() and bpf_probe_kernel(); refer to bpf-helpers(7)"@,
        },
        LintView {
            name: "core-read"@,
            code: "(call_expression\n    function: (identifier) @function (#any-of? @function \"bpf_core_read\" \"BPF_CORE_READ\")\n)\n"@,
            message: "bpf_core_read() and BPF_CORE_READ() are deprecated and replaced by bpf_core_cast(); refer to https://docs.ebpf.io/ebpf-library/libbpf/ebpf/bpf_core_cast/"@,
        },
        LintView {
            name: "get-current-task"@,
            code: "(call_expression\n    function: (identifier) @function (#eq? @function \"bpf_get_current_task\")\n    arguments: (argument_list) @__arguments (#match? @__arguments \"^\\\\(\\\\s*\\\\)$\")\n)\n"@,
            message: "bpf_get_current_task() is difficult to use; consider using the stricter typed bpf_get_current_task_btf() instead; refer to bpf-helpers(7)"@,
        },
    ]
}

/// Retrieve the list of lints shipped with the library.
pub fn builtin_lints() -> (r: Vec<Lint>)
    ensures
        lint_views(r@) == builtin_set(),
{
    let probe_read = Lint {
        name: String::from_str("probe-read"),
        code: String::from_str(
            "(call_expression\n    function: (identifier) @function (#eq? @function \"bpf_probe_read\")\n)\n",
        ),
        message: String::from_str(
            "bpf_probe_read() is deprecated and replaced by bpf_probe_user() and bpf_probe_kernel(); refer to bpf-helpers(7)",
        ),
    };
    let core_read = Lint {
        name: String::from_str("core-read"),
        code: String::from_str(
            "(call_expression\n    function: (identifier) @function (#any-of? @function \"bpf_core_read\" \"BPF_CORE_READ\")\n)\n",
        ),
        message: String::from_str(
            "bpf_core_read() and BPF_CORE_READ() are deprecated and replaced by bpf_core_cast(); refer to https://docs.ebpf.io/ebpf-library/libbpf/ebpf/bpf_core_cast/",
        ),
    };
    let get_current_task = Lint {
        name: String::from_str("get-current-task"),
        code: String::from_str(
            "(call_expression\n    function: (identifier) @function (#eq? @function \"bpf_get_current_task\")\n    arguments: (argument_list) @__arguments (#match? @__arguments \"^\\\\(\\\\s*\\\\)$\")\n)\n",
        ),
        message: String::from_str(
            "bpf_get_current_task() is difficult to use; consider using the stricter typed bpf_get_current_task_btf() instead; refer to bpf-helpers(7)",
        ),
    };
    let r = vec![probe_read, core_read, get_current_task];
    assert(lint_views(r@) =~= builtin_set());
    r
}

/// The messages of the shipped lints are short phrases: none is empty or
/// ends in a full stop, an exclamation or question mark, or a line break.
pub proof fn lemma_builtin_messages_concise()
    ensures
        forall|k: int|
            0 <= k < builtin_set().len() ==> {
                let m = (#[trigger] builtin_set()[k]).message;
                m.len() > 0 && m.last() != '.' && m.last() != '!' && m.last() != '?' && m.last() != '\n'
            },
{
    reveal_strlit("bpf_probe_read() is deprecated and replaced by bpf_probe_user() and bpf_probe_kernel(); refer to bpf-helpers(7)");
    reveal_strlit("bpf_core_read() and BPF_CORE_READ() are deprecated and replaced by bpf_core_cast(); refer to https://docs.ebpf.io/ebpf-library/libbpf/ebpf/bpf_core_cast/");
    reveal_strlit("bpf_get_current_task() is difficult to use; consider using the stricter typed bpf_get_current_task_btf() instead; refer to bpf-helpers(7)");
}

/// Lint code using the lints shipped with the library: the outcome is that of
/// `lint_custom` with `builtin_lints()`.
///
/// Matches are reported in source code order.
pub fn lint(code: &[u8]) -> (r: Result<Vec<LintMatch>, LintError>)
    ensures
        lint_outcome(builtin_set(), code@, r),
{
    let lints = builtin_lints();
    lint_custom(code, lints.as_slice())
}

/// Lint code using the lints shipped with the library, as `lint` does, and
/// also name the lints whose query ran into the query engine's limit of
/// in-progress matches.
pub fn lint_with_warnings(code: &[u8]) -> (r: Result<(Vec<LintMatch>, Vec<String>), LintError>)
    ensures
        lint_outcome(builtin_set(), code@, matches_only(r)),
        r matches Ok(o) ==> o.1@.map_values(|s: String| s@) == limit_exceeded_by(builtin_set(), code@),
{
    let lints = builtin_lints();
    lint_custom_with_warnings(code, lints.as_slice())
}

/// Whether node `a` is node `d` or one of its ancestors.
pub open spec fn covers(t: Seq<NodeView>, a: int, d: int) -> bool
    decreases d,
{
    if 0 <= d < t.len() {
        d == a || (t[d].parent matches Some(p) && p < d && covers(t, a, p as int))
    } else {
        false
    }
}

/// A directive disabling `name` stands right in front of node `a`.
pub open spec fn directive_before(t: Seq<NodeView>, code: Seq<u8>, name: Seq<char>, a: int) -> bool {
    0 <= a < t.len() && (t[a].prev_sibling matches Some(s) && disabled_by(t, code, name, s as int))
}

/// A directive right in front of a node disables the lint for that node and
/// for every node inside it.
pub proof fn lemma_directive_covers_node(t: Seq<NodeView>, code: Seq<u8>, name: Seq<char>, a: int, d: int)
    requires
        tree_wf(t),
        directive_before(t, code, name, a),
        covers(t, a, d),
    ensures
        suppressed(t, code, name, d),
    decreases d,
{
    if d != a {
        let p = t[d].parent->0;
        lemma_directive_covers_node(t, code, name, a, p as int);
    }
}

/// A lint is disabled at a node exactly where a directive disabling it stands
/// right in front of the node or of one of its ancestors.
pub proof fn lemma_suppressed_iff_directive_above(t: Seq<NodeView>, code: Seq<u8>, name: Seq<char>, i: int)
    requires
        tree_wf(t),
        0 <= i < t.len(),
    ensures
        suppressed(t, code, name, i) <==> exists|a: int|
            covers(t, a, i) && #[trigger] directive_before(t, code, name, a),
    decreases i,
{
    if suppressed(t, code, name, i) {
        if directive_before(t, code, name, i) {
            assert(covers(t, i, i));
        } else {
            let p = t[i].parent->0 as int;
            lemma_suppressed_iff_directive_above(t, code, name, p);
            let a = choose|a: int| covers(t, a, p) && #[trigger] directive_before(t, code, name, a);
            assert(covers(t, a, i));
        }
    }
    if exists|a: int| covers(t, a, i) && #[trigger] directive_before(t, code, name, a) {
        let a = choose|a: int| covers(t, a, i) && #[trigger] directive_before(t, code, name, a);
        lemma_directive_covers_node(t, code, name, a, i);
    }
}

/// A node without a directive of its own in front of it is disabled exactly
/// where its parent is: a directive in front of an earlier sibling does not
/// reach it.
pub proof fn lemma_directive_scope(t: Seq<NodeView>, code: Seq<u8>, name: Seq<char>, b: int)
    requires
        tree_wf(t),
        0 <= b < t.len(),
        !directive_before(t, code, name, b),
    ensures
        suppressed(t, code, name, b) == (t[b].parent matches Some(p) && suppressed(
            t,
            code,
            name,
            p as int,
        )),
{
}

/// A lint whose captures are all internal reports nothing.
pub proof fn lemma_internal_captures_unreported(t: Seq<NodeView>, code: Seq<u8>, lint: LintView, caps: Seq<CaptureView>)
    requires
        forall|j: int| 0 <= j < caps.len() ==> is_internal((#[trigger] caps[j]).name),
    ensures
        rule_findings(t, code, lint, caps) == Seq::<FindingView>::empty(),
    decreases caps.len(),
{
    if caps.len() > 0 {
        let d = caps.drop_last();
        assert forall|j: int| 0 <= j < d.len() implies is_internal((#[trigger] d[j]).name) by {
            assert(d[j] == caps[j]);
        }
        lemma_internal_captures_unreported(t, code, lint, d);
    }
}

/// At a comment node, `bpflint: disable=all` disables every lint and
/// `bpflint: disable=<key>` only the lint named `<key>`.
pub proof fn lemma_comment_disables_key(t: Seq<NodeView>, code: Seq<u8>, name: Seq<char>, s: int, key: Seq<char>)
    requires
        0 <= s < t.len(),
        t[s].kind == "comment"@,
        t[s].range.bytes.start <= t[s].range.bytes.end <= code.len(),
        utf8_text(code.subrange(t[s].range.bytes.start as int, t[s].range.bytes.end as int)) == Some(
            "bpflint: disable="@ + key,
        ),
        key.len() > 0,
        !crate::directive::is_white(key.last()),
        key.last() != '/',
    ensures
        disabled_by(t, code, name, s) == (key == "all"@ || key == name),
{
    crate::directive::lemma_disable_key(key, name);
}

} // verus!
