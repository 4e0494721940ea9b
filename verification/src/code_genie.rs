//! Read-only queries over a tree: find a node or its parent by id, find
//! the statement of the enclosing block, list the assignments and match
//! statements that precede a position, and infer a node's type.
//!
//! "Statement position" is defined relative to the innermost enclosing
//! `Block`, and almost every other query builds on it: scope search,
//! navigation and insertion all anchor there.

use vstd::prelude::*;

use crate::env::{
    arg_type_view, field_type_view, find_func_view, find_struct_view, EnvView,
    ExecutionEnvironment, ANON_FUNC_TYPESPEC_ID, LIST_TYPESPEC_ID, NULL_TYPESPEC_ID,
    NUMBER_TYPESPEC_ID, STRING_TYPESPEC_ID,
};
use crate::lang::{
    contains_id, find_view, lemma_child_height, lemma_find_contains, node_view, parent_view,
    replace_view, Assignment, CodeNode, NodeView, Type, TypeView, ID,
};

verus! {

pub open spec fn null_type_view() -> TypeView {
    TypeView { typespec_id: NULL_TYPESPEC_ID, params: Seq::empty() }
}

pub open spec fn string_type_view() -> TypeView {
    TypeView { typespec_id: STRING_TYPESPEC_ID, params: Seq::empty() }
}

pub open spec fn number_type_view() -> TypeView {
    TypeView { typespec_id: NUMBER_TYPESPEC_ID, params: Seq::empty() }
}

// ---------------------------------------------------------------------------
// The enclosing block statement
// ---------------------------------------------------------------------------

/// The statement of the innermost enclosing `Block` that contains the
/// given id: the deepest ancestor-or-self of the id whose parent is a
/// `Block`.
pub open spec fn enclosing_stmt(t: NodeView, id: ID) -> Option<ID>
    decreases t.height(), 0nat, 0nat,
{
    proof { crate::lang::lemma_height_decomp(t); }
    enclosing_stmt_list(t, t.child_seq(), id)
}

pub open spec fn enclosing_stmt_list(t: NodeView, s: Seq<NodeView>, id: ID) -> Option<ID>
    decreases crate::lang::height_list(s), 1nat, s.len(),
{
    if s.len() == 0 {
        None
    } else {
        proof { crate::lang::lemma_height_list_bounds(s); }
        if s[0].nid() == id {
            if t is Block {
                Some(id)
            } else {
                None
            }
        } else if contains_id(s[0], id) {
            match enclosing_stmt(s[0], id) {
                Some(x) => Some(x),
                None => if t is Block {
                    Some(s[0].nid())
                } else {
                    None
                },
            }
        } else {
            enclosing_stmt_list(t, s.subrange(1, s.len() as int), id)
        }
    }
}

proof fn lemma_enclosing_stmt_list_none(t: NodeView, s: Seq<NodeView>, id: ID)
    requires
        forall|i: int| 0 <= i < s.len()
            ==> (#[trigger] s[i]).nid() != id && !contains_id(s[i], id),
    ensures
        enclosing_stmt_list(t, s, id) is None,
    decreases s.len(),
{
    if s.len() > 0 {
        let rest = s.subrange(1, s.len() as int);
        assert forall|i: int| 0 <= i < rest.len()
            implies (#[trigger] rest[i]).nid() != id && !contains_id(rest[i], id) by {
            assert(rest[i] == s[i + 1]);
        }
        lemma_enclosing_stmt_list_none(t, rest, id);
    }
}

proof fn lemma_enclosing_stmt_list_walk(t: NodeView, s: Seq<NodeView>, id: ID, j: int)
    requires
        0 <= j < s.len(),
        forall|i: int| 0 <= i < j
            ==> (#[trigger] s[i]).nid() != id && !contains_id(s[i], id),
    ensures
        enclosing_stmt_list(t, s, id) == enclosing_stmt_list(t, s.subrange(j, s.len() as int), id),
    decreases j,
{
    if j > 0 {
        let rest = s.subrange(1, s.len() as int);
        assert(s[0].nid() != id && !contains_id(s[0], id));
        assert forall|i: int| 0 <= i < j - 1
            implies (#[trigger] rest[i]).nid() != id && !contains_id(rest[i], id) by {
            assert(rest[i] == s[i + 1]);
        }
        lemma_enclosing_stmt_list_walk(t, rest, id, j - 1);
        assert(rest.subrange(j - 1, rest.len() as int) =~= s.subrange(j, s.len() as int));
    } else {
        assert(s.subrange(0, s.len() as int) =~= s);
    }
}

// ---------------------------------------------------------------------------
// Statement positions and scope prefixes
// ---------------------------------------------------------------------------

/// The position of the statement with the given id within a statement
/// list.
pub open spec fn stmt_position(s: Seq<NodeView>, id: ID) -> Option<int>
    decreases s.len(),
{
    if s.len() == 0 {
        None
    } else if s[0].nid() == id {
        Some(0)
    } else {
        match stmt_position(s.subrange(1, s.len() as int), id) {
            Some(p) => Some(p + 1),
            None => None,
        }
    }
}

pub proof fn lemma_stmt_position_index(s: Seq<NodeView>, id: ID, j: int)
    requires
        0 <= j < s.len(),
        forall|i: int| 0 <= i < j ==> (#[trigger] s[i]).nid() != id,
        s[j].nid() == id,
    ensures
        stmt_position(s, id) == Some(j),
    decreases s.len(),
{
    if j > 0 {
        let rest = s.subrange(1, s.len() as int);
        assert forall|i: int| 0 <= i < j - 1 implies (#[trigger] rest[i]).nid() != id by {
            assert(rest[i] == s[i + 1]);
        }
        assert(rest[j - 1] == s[j]);
        lemma_stmt_position_index(rest, id, j - 1);
    }
}

pub proof fn lemma_stmt_position_none(s: Seq<NodeView>, id: ID)
    requires
        forall|i: int| 0 <= i < s.len() ==> (#[trigger] s[i]).nid() != id,
    ensures
        stmt_position(s, id) is None,
    decreases s.len(),
{
    if s.len() > 0 {
        let rest = s.subrange(1, s.len() as int);
        assert forall|i: int| 0 <= i < rest.len() implies (#[trigger] rest[i]).nid() != id by {
            assert(rest[i] == s[i + 1]);
        }
        lemma_stmt_position_none(rest, id);
    }
}

/// The `Assignment` statements of a statement list, in order.
pub open spec fn assignments_in(s: Seq<NodeView>) -> Seq<NodeView>
    decreases s.len(),
{
    if s.len() == 0 {
        Seq::empty()
    } else if s[0] is Assignment {
        seq![s[0]] + assignments_in(s.subrange(1, s.len() as int))
    } else {
        assignments_in(s.subrange(1, s.len() as int))
    }
}

pub proof fn lemma_assignments_in_push(s: Seq<NodeView>, e: NodeView)
    ensures
        assignments_in(s.push(e)) == if e is Assignment {
            assignments_in(s).push(e)
        } else {
            assignments_in(s)
        },
    decreases s.len(),
{
    let sp = s.push(e);
    if s.len() == 0 {
        assert(sp[0] == e);
        assert(sp.subrange(1, sp.len() as int) =~= Seq::<NodeView>::empty());
        assert(assignments_in(Seq::<NodeView>::empty()) == Seq::<NodeView>::empty());
        assert(assignments_in(s) == Seq::<NodeView>::empty());
        if e is Assignment {
            assert(assignments_in(sp) == seq![e] + Seq::<NodeView>::empty());
            assert(seq![e] + Seq::<NodeView>::empty()
                =~= Seq::<NodeView>::empty().push(e));
        }
    } else {
        let rest = s.subrange(1, s.len() as int);
        lemma_assignments_in_push(rest, e);
        assert(sp[0] == s[0]);
        assert(sp.subrange(1, sp.len() as int) =~= rest.push(e));
        if s[0] is Assignment && e is Assignment {
            assert(seq![s[0]] + assignments_in(rest).push(e)
                =~= (seq![s[0]] + assignments_in(rest)).push(e));
        }
    }
}

/// The `Match` statements of a statement list, in order.
pub open spec fn matches_in(s: Seq<NodeView>) -> Seq<NodeView>
    decreases s.len(),
{
    if s.len() == 0 {
        Seq::empty()
    } else if s[0] is Match {
        seq![s[0]] + matches_in(s.subrange(1, s.len() as int))
    } else {
        matches_in(s.subrange(1, s.len() as int))
    }
}

pub proof fn lemma_matches_in_push(s: Seq<NodeView>, e: NodeView)
    ensures
        matches_in(s.push(e)) == if e is Match {
            matches_in(s).push(e)
        } else {
            matches_in(s)
        },
    decreases s.len(),
{
    let sp = s.push(e);
    if s.len() == 0 {
        assert(sp[0] == e);
        assert(sp.subrange(1, sp.len() as int) =~= Seq::<NodeView>::empty());
        assert(matches_in(Seq::<NodeView>::empty()) == Seq::<NodeView>::empty());
        assert(matches_in(s) == Seq::<NodeView>::empty());
        if e is Match {
            assert(matches_in(sp) == seq![e] + Seq::<NodeView>::empty());
            assert(seq![e] + Seq::<NodeView>::empty()
                =~= Seq::<NodeView>::empty().push(e));
        }
    } else {
        let rest = s.subrange(1, s.len() as int);
        lemma_matches_in_push(rest, e);
        assert(sp[0] == s[0]);
        assert(sp.subrange(1, sp.len() as int) =~= rest.push(e));
        if s[0] is Match && e is Match {
            assert(seq![s[0]] + matches_in(rest).push(e)
                =~= (seq![s[0]] + matches_in(rest)).push(e));
        }
    }
}

/// The statements that precede the position of `id` within its enclosing
/// block: the scope-visibility prefix.  An inclusive search takes the
/// enclosing statement itself in as well.
pub open spec fn scope_stmts(root: NodeView, id: ID, inclusive: bool) -> Seq<NodeView> {
    match enclosing_stmt(root, id) {
        None => Seq::empty(),
        Some(sid) => match parent_view(root, sid) {
            Some(p) => match p {
                NodeView::Block { expressions, .. } => match stmt_position(expressions, sid) {
                    Some(pos) => expressions.subrange(0, if inclusive {
                        pos + 1
                    } else {
                        pos
                    }),
                    None => Seq::empty(),
                },
                _ => Seq::empty(),
            },
            None => Seq::empty(),
        },
    }
}

/// The statements that strictly precede the position of `id` within its
/// enclosing block.
pub open spec fn stmts_before(root: NodeView, id: ID) -> Seq<NodeView> {
    scope_stmts(root, id, false)
}

/// The assignments visible at a position: the `Assignment` statements of
/// the scope prefix of the enclosing block.
pub open spec fn assignments_before(root: NodeView, id: ID, inclusive: bool) -> Seq<NodeView> {
    assignments_in(scope_stmts(root, id, inclusive))
}

/// The match statements preceding a position in its enclosing block.
pub open spec fn matches_before(root: NodeView, id: ID, inclusive: bool) -> Seq<NodeView> {
    matches_in(scope_stmts(root, id, inclusive))
}

// ---------------------------------------------------------------------------
// Enclosing anonymous functions
// ---------------------------------------------------------------------------

/// The `AnonymousFunction` nodes that strictly enclose the given id,
/// outermost first.
pub open spec fn anon_ancestors(t: NodeView, id: ID) -> Seq<NodeView>
    decreases t.height(), 0nat, 0nat,
{
    proof { crate::lang::lemma_height_decomp(t); }
    if t.nid() == id {
        Seq::empty()
    } else {
        (if t is AnonymousFunction {
            seq![t]
        } else {
            Seq::empty()
        }) + anon_ancestors_list(t.child_seq(), id)
    }
}

pub open spec fn anon_ancestors_list(s: Seq<NodeView>, id: ID) -> Seq<NodeView>
    decreases crate::lang::height_list(s), 1nat, s.len(),
{
    if s.len() == 0 {
        Seq::empty()
    } else {
        proof { crate::lang::lemma_height_list_bounds(s); }
        if contains_id(s[0], id) {
            anon_ancestors(s[0], id)
        } else {
            anon_ancestors_list(s.subrange(1, s.len() as int), id)
        }
    }
}

proof fn lemma_anon_ancestors_list_none(s: Seq<NodeView>, id: ID)
    requires
        forall|i: int| 0 <= i < s.len() ==> !contains_id(#[trigger] s[i], id),
    ensures
        anon_ancestors_list(s, id) == Seq::<NodeView>::empty(),
    decreases s.len(),
{
    if s.len() > 0 {
        let rest = s.subrange(1, s.len() as int);
        assert forall|i: int| 0 <= i < rest.len()
            implies !contains_id(#[trigger] rest[i], id) by {
            assert(rest[i] == s[i + 1]);
        }
        lemma_anon_ancestors_list_none(rest, id);
    }
}

proof fn lemma_anon_ancestors_list_walk(s: Seq<NodeView>, id: ID, j: int)
    requires
        0 <= j < s.len(),
        forall|i: int| 0 <= i < j ==> !contains_id(#[trigger] s[i], id),
        contains_id(s[j], id),
    ensures
        anon_ancestors_list(s, id) == anon_ancestors(s[j], id),
    decreases j,
{
    if j > 0 {
        let rest = s.subrange(1, s.len() as int);
        assert(!contains_id(s[0], id));
        assert forall|i: int| 0 <= i < j - 1
            implies !contains_id(#[trigger] rest[i], id) by {
            assert(rest[i] == s[i + 1]);
        }
        assert(rest[j - 1] == s[j]);
        lemma_anon_ancestors_list_walk(rest, id, j - 1);
    }
}

// ---------------------------------------------------------------------------
// Structural type inference
// ---------------------------------------------------------------------------

/// Best-effort structural type inference: what §guess_type returns.  The
/// fuel bounds the indirection through variable references; the editor
/// calls it with more fuel than any real reference chain uses.  `None` is
/// the degraded "cannot infer" state, never an abort.
pub open spec fn guess_type_view(root: NodeView, n: NodeView, env: EnvView, fuel: nat)
    -> Option<TypeView>
    decreases fuel,
{
    if fuel == 0 {
        None
    } else {
        match n {
            NodeView::FunctionCall { function_reference, .. } => match *function_reference {
                NodeView::FunctionReference { function_id, .. } =>
                    match find_func_view(env.funcs, function_id) {
                        Some(f) => Some(f.return_type),
                        None => Some(null_type_view()),
                    },
                _ => None,
            },
            NodeView::FunctionReference { .. } => Some(null_type_view()),
            NodeView::Argument { argument_definition_id, .. } =>
                arg_type_view(env.funcs, argument_definition_id),
            NodeView::StringLiteral { .. } => Some(string_type_view()),
            NodeView::NumberLiteral { .. } => Some(number_type_view()),
            NodeView::NullLiteral { .. } => Some(null_type_view()),
            NodeView::Assignment { expression, .. } =>
                guess_type_view(root, *expression, env, (fuel - 1) as nat),
            NodeView::Block { expressions, .. } => if expressions.len() == 0 {
                Some(null_type_view())
            } else {
                guess_type_view(root, expressions.last(), env, (fuel - 1) as nat)
            },
            NodeView::VariableReference { assignment_id, .. } =>
                match find_view(root, assignment_id) {
                    Some(decl) => guess_type_view(root, decl, env, (fuel - 1) as nat),
                    None => arg_type_view(env.funcs, assignment_id),
                },
            NodeView::Placeholder { typ, .. } => Some(typ),
            NodeView::StructLiteral { struct_id, .. } =>
                match find_struct_view(env.typespecs, struct_id) {
                    Some(_) => Some(TypeView { typespec_id: struct_id, params: Seq::empty() }),
                    None => None,
                },
            NodeView::StructLiteralField { id, struct_field_id, .. } =>
                match parent_view(root, id) {
                    Some(p) => match p {
                        NodeView::StructLiteral { struct_id, .. } =>
                            match find_struct_view(env.typespecs, struct_id) {
                                Some(sd) => field_type_view(sd.fields, struct_field_id),
                                None => None,
                            },
                        _ => None,
                    },
                    None => None,
                },
            NodeView::Conditional { true_branch, .. } =>
                guess_type_view(root, *true_branch, env, (fuel - 1) as nat),
            NodeView::ListLiteral { element_type, .. } =>
                Some(TypeView { typespec_id: LIST_TYPESPEC_ID, params: seq![element_type] }),
            NodeView::Match { .. } => Some(null_type_view()),
            NodeView::AnonymousFunction { takes_arg, .. } => Some(TypeView {
                typespec_id: ANON_FUNC_TYPESPEC_ID,
                params: seq![takes_arg.arg_type],
            }),
        }
    }
}

/// The argument type an anonymous function's implicit argument gets,
/// projected out of the function's own type.
pub open spec fn anon_func_arg_type(t: TypeView) -> Option<TypeView> {
    if t.typespec_id == ANON_FUNC_TYPESPEC_ID && t.params.len() >= 1 {
        Some(t.params[0])
    } else {
        None
    }
}

// ---------------------------------------------------------------------------
// The genie
// ---------------------------------------------------------------------------

/// The read-only query facade over one tree.
pub struct CodeGenie {
    code: CodeNode,
}

impl View for CodeGenie {
    type V = NodeView;

    closed spec fn view(&self) -> NodeView {
        self.code@
    }
}

impl CodeGenie {
    /// A genie over the given tree.
    pub fn new(code: CodeNode) -> (r: CodeGenie)
        ensures
            r@ == code@,
    {
        CodeGenie { code }
    }

    /// Splices a changed subtree into the held tree, by id.
    pub fn replace(&mut self, code: CodeNode)
        ensures
            final(self)@ == replace_view(old(self)@, code@),
    {
        self.code.replace(&code);
    }

    /// The root's id.
    pub fn code_id(&self) -> (r: ID)
        ensures
            r == self@.nid(),
    {
        self.code.id()
    }

    /// The held tree.
    pub fn root(&self) -> (r: &CodeNode)
        ensures
            r@ == self@,
    {
        &self.code
    }

    /// The node with the given id, if present.
    pub fn find_node(&self, id: ID) -> (r: Option<&CodeNode>)
        ensures
            match r {
                Some(n) => find_view(self@, id) == Some(n@),
                None => find_view(self@, id) is None,
            },
    {
        self.code.find_node(id)
    }

    /// The parent of the node with the given id, if the id is present and
    /// below the root.
    pub fn find_parent(&self, id: ID) -> (r: Option<&CodeNode>)
        ensures
            match r {
                Some(p) => parent_view(self@, id) == Some(p@),
                None => parent_view(self@, id) is None,
            },
    {
        self.code.find_parent(id)
    }

    /// The statement of the innermost enclosing block that contains the
    /// id.
    pub fn find_expression_inside_block_that_contains(&self, id: ID) -> (r: Option<ID>)
        ensures
            r == enclosing_stmt(self@, id),
    {
        enclosing_stmt_exec(&self.code, id)
    }

    /// The position of the statement with the given id inside a block.
    pub fn find_position_in_block(&self, block: &crate::lang::Block, id: ID)
        -> (r: Option<usize>)
        ensures
            match r {
                Some(p) => stmt_position(crate::lang::node_views(block.expressions@), id)
                    == Some(p as int) && (p as int) < block.expressions@.len(),
                None => stmt_position(crate::lang::node_views(block.expressions@), id) is None,
            },
    {
        let ghost vs = crate::lang::node_views(block.expressions@);
        proof { crate::lang::lemma_node_views(block.expressions@); }
        let mut i: usize = 0;
        while i < block.expressions.len()
            invariant
                i <= block.expressions@.len(),
                vs == crate::lang::node_views(block.expressions@),
                vs.len() == block.expressions@.len(),
                forall|k: int| 0 <= k < vs.len() ==> vs[k] == node_view(block.expressions@[k]),
                forall|k: int| 0 <= k < i ==> (#[trigger] vs[k]).nid() != id,
            decreases block.expressions@.len() - i,
        {
            if block.expressions[i].id() == id {
                proof { lemma_stmt_position_index(vs, id, i as int); }
                return Some(i);
            }
            i = i + 1;
        }
        proof { lemma_stmt_position_none(vs, id); }
        None
    }

    /// Every `Assignment` among the statements strictly preceding the
    /// position of the id in its enclosing block: the basis of scope
    /// visibility.  Assignments inside nested blocks are not visible to
    /// siblings of the outer block.
    pub fn find_assignments_that_come_before_code(&self, id: ID, is_search_inclusive: bool)
        -> (r: Vec<Assignment>)
        ensures
            r@.len() == assignments_before(self@, id, is_search_inclusive).len(),
            forall|i: int| 0 <= i < r@.len()
                ==> node_view(CodeNode::Assignment(#[trigger] r@[i]))
                    == assignments_before(self@, id, is_search_inclusive)[i],
    {
        let stmts = self.stmts_before_exec(id, is_search_inclusive);
        let ghost svs = scope_stmts(self@, id, is_search_inclusive);
        let mut r: Vec<Assignment> = Vec::new();
        let mut i: usize = 0;
        while i < stmts.len()
            invariant
                i <= stmts@.len(),
                stmts@.len() == svs.len(),
                svs == scope_stmts(self@, id, is_search_inclusive),
                forall|k: int| 0 <= k < svs.len()
                    ==> node_view(*(#[trigger] stmts@[k])) == svs[k],
                r@.len() == assignments_in(svs.subrange(0, i as int)).len(),
                forall|k: int| 0 <= k < r@.len()
                    ==> node_view(CodeNode::Assignment(#[trigger] r@[k]))
                        == assignments_in(svs.subrange(0, i as int))[k],
            decreases stmts@.len() - i,
        {
            let ghost prefix = svs.subrange(0, i as int);
            let stmt: &CodeNode = stmts[i];
            match stmt {
                CodeNode::Assignment(a) => {
                    r.push(Assignment {
                        id: a.id,
                        name: a.name.clone(),
                        expression: Box::new(a.expression.duplicate()),
                    });
                },
                _ => {},
            }
            proof {
                assert(svs.subrange(0, (i + 1) as int) =~= prefix.push(svs[i as int]));
                lemma_assignments_in_push(prefix, svs[i as int]);
            }
            i = i + 1;
        }
        proof {
            assert(svs.subrange(0, svs.len() as int) =~= svs);
        }
        r
    }

    /// Every `Match` among the statements strictly preceding the position
    /// of the id in its enclosing block.
    pub fn find_matches_that_come_before_code(&self, id: ID, is_search_inclusive: bool)
        -> (r: Vec<CodeNode>)
        ensures
            r@.len() == matches_before(self@, id, is_search_inclusive).len(),
            forall|i: int| 0 <= i < r@.len()
                ==> node_view(#[trigger] r@[i])
                    == matches_before(self@, id, is_search_inclusive)[i],
    {
        let stmts = self.stmts_before_exec(id, is_search_inclusive);
        let ghost svs = scope_stmts(self@, id, is_search_inclusive);
        let mut r: Vec<CodeNode> = Vec::new();
        let mut i: usize = 0;
        while i < stmts.len()
            invariant
                i <= stmts@.len(),
                stmts@.len() == svs.len(),
                svs == scope_stmts(self@, id, is_search_inclusive),
                forall|k: int| 0 <= k < svs.len()
                    ==> node_view(*(#[trigger] stmts@[k])) == svs[k],
                r@.len() == matches_in(svs.subrange(0, i as int)).len(),
                forall|k: int| 0 <= k < r@.len()
                    ==> node_view(#[trigger] r@[k])
                        == matches_in(svs.subrange(0, i as int))[k],
            decreases stmts@.len() - i,
        {
            let ghost prefix = svs.subrange(0, i as int);
            let stmt: &CodeNode = stmts[i];
            match stmt {
                CodeNode::Match(_) => {
                    r.push(stmt.duplicate());
                },
                _ => {},
            }
            proof {
                assert(svs.subrange(0, (i + 1) as int) =~= prefix.push(svs[i as int]));
                lemma_matches_in_push(prefix, svs[i as int]);
            }
            i = i + 1;
        }
        proof {
            assert(svs.subrange(0, svs.len() as int) =~= svs);
        }
        r
    }

    /// The statements strictly preceding the position of the id in its
    /// enclosing block, as references into the held tree.
    fn stmts_before_exec(&self, id: ID, inclusive: bool) -> (r: Vec<&CodeNode>)
        ensures
            r@.len() == scope_stmts(self@, id, inclusive).len(),
            forall|i: int| 0 <= i < r@.len()
                ==> node_view(*(#[trigger] r@[i])) == scope_stmts(self@, id, inclusive)[i],
    {
        let ghost svs = scope_stmts(self@, id, inclusive);
        let sid = match enclosing_stmt_exec(&self.code, id) {
            Some(sid) => sid,
            None => {
                proof { assert(svs =~= Seq::<NodeView>::empty()); }
                return Vec::new();
            },
        };
        let parent = match self.code.find_parent(sid) {
            Some(p) => p,
            None => {
                proof { assert(svs =~= Seq::<NodeView>::empty()); }
                return Vec::new();
            },
        };
        match parent {
            CodeNode::Block(b) => {
                let ghost vs = crate::lang::node_views(b.expressions@);
                proof {
                    crate::lang::lemma_node_views(b.expressions@);
                    assert(parent@ == (NodeView::Block { id: b.id, expressions: vs }));
                }
                let pos = match self.find_position_in_block(b, sid) {
                    Some(p) => p,
                    None => {
                        proof { assert(svs =~= Seq::<NodeView>::empty()); }
                        return Vec::new();
                    },
                };
                let stmt_count = b.expressions.len();
                proof { assert(pos < stmt_count); }
                let bound: usize = if inclusive {
                    pos + 1
                } else {
                    pos
                };
                let mut r: Vec<&CodeNode> = Vec::new();
                let mut i: usize = 0;
                proof {
                    assert(svs =~= vs.subrange(0, bound as int));
                }
                while i < bound
                    invariant
                        i <= bound,
                        bound <= b.expressions@.len(),
                        vs == crate::lang::node_views(b.expressions@),
                        vs.len() == b.expressions@.len(),
                        forall|k: int| 0 <= k < vs.len()
                            ==> vs[k] == node_view(b.expressions@[k]),
                        r@.len() == i,
                        forall|k: int| 0 <= k < i
                            ==> node_view(*(#[trigger] r@[k])) == vs[k],
                    decreases bound - i,
                {
                    r.push(&b.expressions[i]);
                    i = i + 1;
                }
                proof {
                    assert forall|k: int| 0 <= k < r@.len()
                        implies node_view(*(#[trigger] r@[k])) == svs[k] by {
                        assert(svs[k] == vs[k]);
                    }
                }
                r
            },
            _ => {
                proof { assert(svs =~= Seq::<NodeView>::empty()); }
                Vec::new()
            },
        }
    }

    /// The anonymous functions that strictly enclose the id, outermost
    /// first.
    pub fn find_anon_func_parents(&self, id: ID) -> (r: Vec<CodeNode>)
        ensures
            r@.len() == anon_ancestors(self@, id).len(),
            forall|i: int| 0 <= i < r@.len()
                ==> node_view(#[trigger] r@[i]) == anon_ancestors(self@, id)[i],
    {
        let mut r: Vec<CodeNode> = Vec::new();
        anon_ancestors_exec(&self.code, id, &mut r);
        proof {
            assert forall|i: int| 0 <= i < r@.len()
                implies node_view(#[trigger] r@[i]) == anon_ancestors(self@, id)[i] by {
                assert(node_view(r@[0 + i]) == anon_ancestors(self@, id)[i]);
            }
        }
        r
    }

    /// Best-effort structural type inference over the variant: a call's
    /// type is its function's declared return type, a block's is its last
    /// statement's, a variable's is its declaration's, and so on.  `None`
    /// is the degraded "cannot infer" state the caller must display as
    /// unknown.
    pub fn guess_type(&self, code_node: &CodeNode, env: &ExecutionEnvironment)
        -> (r: Option<Type>)
        ensures
            match r {
                Some(t) => guess_type_view(self@, code_node@, env@, usize::MAX as nat)
                    == Some(t@),
                None => guess_type_view(self@, code_node@, env@, usize::MAX as nat) is None,
            },
    {
        guess_type_exec(&self.code, code_node, env, usize::MAX)
    }
}

// ---------------------------------------------------------------------------
// Generic-type resolution
// ---------------------------------------------------------------------------

/// One derived binding: a generic type parameter and the concrete type
/// the call site supplies for it.
pub struct GenericBinding {
    pub generic_id: ID,
    pub concrete: Type,
}

/// Mathematical model of a binding.
pub struct BindingView {
    pub generic_id: ID,
    pub concrete: TypeView,
}

impl View for GenericBinding {
    type V = BindingView;

    open spec fn view(&self) -> BindingView {
        BindingView { generic_id: self.generic_id, concrete: self.concrete@ }
    }
}

/// The views of a binding list.
pub open spec fn bindings_view(s: Seq<GenericBinding>) -> Seq<BindingView> {
    s.map_values(|b: GenericBinding| b@)
}

/// The concrete type bound to a generic, if any.
pub open spec fn find_binding(bs: Seq<BindingView>, id: ID) -> Option<TypeView>
    decreases bs.len(),
{
    if bs.len() == 0 {
        None
    } else if bs[0].generic_id == id {
        Some(bs[0].concrete)
    } else {
        find_binding(bs.subrange(1, bs.len() as int), id)
    }
}

proof fn lemma_find_binding_index(bs: Seq<BindingView>, id: ID, j: int)
    requires
        0 <= j < bs.len(),
        forall|k: int| 0 <= k < j ==> (#[trigger] bs[k]).generic_id != id,
        bs[j].generic_id == id,
    ensures
        find_binding(bs, id) == Some(bs[j].concrete),
    decreases bs.len(),
{
    if j > 0 {
        let rest = bs.subrange(1, bs.len() as int);
        assert forall|k: int| 0 <= k < j - 1
            implies (#[trigger] rest[k]).generic_id != id by {
            assert(rest[k] == bs[k + 1]);
        }
        assert(rest[j - 1] == bs[j]);
        lemma_find_binding_index(rest, id, j - 1);
    }
}

proof fn lemma_find_binding_none(bs: Seq<BindingView>, id: ID)
    requires
        forall|k: int| 0 <= k < bs.len() ==> (#[trigger] bs[k]).generic_id != id,
    ensures
        find_binding(bs, id) is None,
    decreases bs.len(),
{
    if bs.len() > 0 {
        let rest = bs.subrange(1, bs.len() as int);
        assert forall|k: int| 0 <= k < rest.len()
            implies (#[trigger] rest[k]).generic_id != id by {
            assert(rest[k] == bs[k + 1]);
        }
        lemma_find_binding_none(rest, id);
    }
}

/// Unification of one declared type against one actual type: a generic
/// declared type binds the actual (first binding wins), a concrete one
/// unifies its parameters pairwise.
pub open spec fn unify_view(
    decl: TypeView,
    actual: TypeView,
    bs: Seq<BindingView>,
    typespecs: Seq<crate::env::TypeSpecDescView>,
) -> Seq<BindingView>
    decreases decl,
{
    if crate::env::is_generic_view(typespecs, decl.typespec_id) {
        if find_binding(bs, decl.typespec_id) is None {
            bs.push(BindingView { generic_id: decl.typespec_id, concrete: actual })
        } else {
            bs
        }
    } else {
        unify_params_view(decl.params, actual.params, bs, typespecs)
    }
}

/// Pairwise unification of parameter lists, as far as both reach.
pub open spec fn unify_params_view(
    decls: Seq<TypeView>,
    actuals: Seq<TypeView>,
    bs: Seq<BindingView>,
    typespecs: Seq<crate::env::TypeSpecDescView>,
) -> Seq<BindingView>
    decreases decls,
{
    if decls.len() == 0 || actuals.len() == 0 {
        bs
    } else {
        unify_params_view(
            decls.subrange(1, decls.len() as int),
            actuals.subrange(1, actuals.len() as int),
            unify_view(decls[0], actuals[0], bs, typespecs),
            typespecs,
        )
    }
}

/// Substitution of derived bindings into a type: a bound generic becomes
/// its binding, everything else keeps its spec and substitutes inside its
/// parameters.  An unbound generic stays as it is.
pub open spec fn substitute_view(
    t: TypeView,
    bs: Seq<BindingView>,
    typespecs: Seq<crate::env::TypeSpecDescView>,
) -> TypeView
    decreases t,
{
    if crate::env::is_generic_view(typespecs, t.typespec_id) {
        match find_binding(bs, t.typespec_id) {
            Some(c) => c,
            None => t,
        }
    } else {
        TypeView {
            typespec_id: t.typespec_id,
            params: substitute_params_view(t.params, bs, typespecs),
        }
    }
}

pub open spec fn substitute_params_view(
    ps: Seq<TypeView>,
    bs: Seq<BindingView>,
    typespecs: Seq<crate::env::TypeSpecDescView>,
) -> Seq<TypeView>
    decreases ps,
{
    if ps.len() == 0 {
        Seq::empty()
    } else {
        seq![substitute_view(ps[0], bs, typespecs)]
            + substitute_params_view(ps.subrange(1, ps.len() as int), bs, typespecs)
    }
}

proof fn lemma_substitute_params(
    ps: Seq<TypeView>,
    bs: Seq<BindingView>,
    typespecs: Seq<crate::env::TypeSpecDescView>,
)
    ensures
        substitute_params_view(ps, bs, typespecs).len() == ps.len(),
        forall|k: int| 0 <= k < ps.len()
            ==> substitute_params_view(ps, bs, typespecs)[k]
                == substitute_view(#[trigger] ps[k], bs, typespecs),
    decreases ps.len(),
{
    if ps.len() > 0 {
        let rest = ps.subrange(1, ps.len() as int);
        lemma_substitute_params(rest, bs, typespecs);
        assert forall|k: int| 0 <= k < ps.len()
            implies substitute_params_view(ps, bs, typespecs)[k]
                == substitute_view(#[trigger] ps[k], bs, typespecs) by {
            if k > 0 {
                assert(rest[k - 1] == ps[k]);
                assert(substitute_params_view(ps, bs, typespecs)[k]
                    == substitute_params_view(rest, bs, typespecs)[k - 1]);
            }
        }
    }
}

/// The expression filling the call argument with the given definition
/// id, if any.
pub open spec fn find_call_arg(args: Seq<NodeView>, arg_def_id: ID) -> Option<NodeView>
    decreases args.len(),
{
    if args.len() == 0 {
        None
    } else if args[0] matches NodeView::Argument { argument_definition_id, expr, .. }
        && argument_definition_id == arg_def_id {
        Some(*args[0]->Argument_expr)
    } else {
        find_call_arg(args.subrange(1, args.len() as int), arg_def_id)
    }
}

/// The bindings a call site yields: for each declared argument, unify
/// its declared type against the inferred type of the expression the
/// call actually supplies.
pub open spec fn gather_bindings_view(
    root: NodeView,
    env: EnvView,
    call_args: Seq<NodeView>,
    decls: Seq<crate::lang::ArgDefView>,
    bs: Seq<BindingView>,
    fuel: nat,
) -> Seq<BindingView>
    decreases decls.len(),
{
    if decls.len() == 0 {
        bs
    } else {
        let bs2 = match find_call_arg(call_args, decls[0].id) {
            Some(exprv) => match guess_type_view(root, exprv, env, fuel) {
                Some(at) => unify_view(decls[0].arg_type, at, bs, env.typespecs),
                None => bs,
            },
            None => bs,
        };
        gather_bindings_view(root, env, call_args, decls.subrange(1, decls.len() as int),
            bs2, fuel)
    }
}

/// What generic resolution returns: find the call at or under the
/// context node, derive bindings from its supplied argument types, and
/// substitute them into the unresolved type.  Where no call or no
/// catalog entry is at hand, the type is returned as it came — callers
/// must treat an unresolved generic as "display, do not filter".
pub open spec fn resolve_type_view(
    root: NodeView,
    ctx: NodeView,
    unresolved: TypeView,
    env: EnvView,
    fuel: nat,
) -> TypeView {
    let callv = match ctx {
        NodeView::Assignment { expression, .. } => *expression,
        _ => ctx,
    };
    match callv {
        NodeView::FunctionCall { function_reference, args, .. } =>
            match *function_reference {
                NodeView::FunctionReference { function_id, .. } =>
                    match crate::env::find_func_view(env.funcs, function_id) {
                        Some(f) => substitute_view(unresolved,
                            gather_bindings_view(root, env, args, f.args, Seq::empty(),
                                fuel),
                            env.typespecs),
                        None => unresolved,
                    },
                _ => unresolved,
            },
        _ => unresolved,
    }
}

fn find_binding_exec<'a>(bs: &'a Vec<GenericBinding>, id: ID) -> (r: Option<&'a Type>)
    ensures
        match r {
            Some(t) => find_binding(bindings_view(bs@), id) == Some(t@),
            None => find_binding(bindings_view(bs@), id) is None,
        },
{
    let ghost bvs = bindings_view(bs@);
    let mut i: usize = 0;
    while i < bs.len()
        invariant
            i <= bs@.len(),
            bvs == bindings_view(bs@),
            bvs.len() == bs@.len(),
            forall|k: int| 0 <= k < bvs.len() ==> bvs[k] == (#[trigger] bs@[k])@,
            forall|k: int| 0 <= k < i ==> (#[trigger] bvs[k]).generic_id != id,
        decreases bs@.len() - i,
    {
        if bs[i].generic_id == id {
            proof { lemma_find_binding_index(bvs, id, i as int); }
            return Some(&bs[i].concrete);
        }
        i = i + 1;
    }
    proof { lemma_find_binding_none(bvs, id); }
    None
}

/// Executable unification; appends any new bindings.
fn unify_exec(
    decl: &Type,
    actual: &Type,
    bs: &mut Vec<GenericBinding>,
    env: &ExecutionEnvironment,
)
    ensures
        bindings_view(final(bs)@) == unify_view(decl@, actual@, bindings_view(old(bs)@),
            env@.typespecs),
    decreases *decl,
{
    if env.is_generic_typespec(decl.typespec_id) {
        let bound = find_binding_exec(bs, decl.typespec_id).is_some();
        if !bound {
            let b = GenericBinding {
                generic_id: decl.typespec_id,
                concrete: actual.duplicate(),
            };
            bs.push(b);
            proof {
                assert(bindings_view(bs@)
                    =~= bindings_view(old(bs)@).push(BindingView {
                        generic_id: decl.typespec_id,
                        concrete: actual@,
                    }));
            }
        }
    } else {
        proof {
            assert(decl@.params == crate::lang::type_views(decl.params@));
        }
        unify_params_exec(&decl.params, &actual.params, bs, env);
    }
}

/// Executable pairwise unification of parameter lists.
fn unify_params_exec(
    decls: &Vec<Type>,
    actuals: &Vec<Type>,
    bs: &mut Vec<GenericBinding>,
    env: &ExecutionEnvironment,
)
    ensures
        bindings_view(final(bs)@) == unify_params_view(crate::lang::type_views(decls@),
            crate::lang::type_views(actuals@), bindings_view(old(bs)@), env@.typespecs),
    decreases decls@,
{
    let ghost dvs = crate::lang::type_views(decls@);
    let ghost avs = crate::lang::type_views(actuals@);
    proof {
        crate::lang::lemma_type_views(decls@);
        crate::lang::lemma_type_views(actuals@);
    }
    let n = if decls.len() < actuals.len() {
        decls.len()
    } else {
        actuals.len()
    };
    proof {
        assert(dvs.subrange(0, dvs.len() as int) =~= dvs);
        assert(avs.subrange(0, avs.len() as int) =~= avs);
    }
    let mut i: usize = 0;
    while i < n
        invariant
            i <= n,
            n == if decls@.len() < actuals@.len() {
                decls@.len()
            } else {
                actuals@.len()
            },
            dvs == crate::lang::type_views(decls@),
            avs == crate::lang::type_views(actuals@),
            dvs.len() == decls@.len(),
            avs.len() == actuals@.len(),
            forall|k: int| 0 <= k < dvs.len()
                ==> dvs[k] == crate::lang::type_view(#[trigger] decls@[k]),
            forall|k: int| 0 <= k < avs.len()
                ==> avs[k] == crate::lang::type_view(#[trigger] actuals@[k]),
            unify_params_view(dvs.subrange(i as int, dvs.len() as int),
                avs.subrange(i as int, avs.len() as int), bindings_view(bs@),
                env@.typespecs)
                == unify_params_view(dvs, avs, bindings_view(old(bs)@), env@.typespecs),
        decreases n - i,
    {
        let ghost dsuf = dvs.subrange(i as int, dvs.len() as int);
        let ghost asuf = avs.subrange(i as int, avs.len() as int);
        unify_exec(&decls[i], &actuals[i], bs, env);
        proof {
            assert(dsuf[0] == dvs[i as int]);
            assert(asuf[0] == avs[i as int]);
            assert(dsuf.subrange(1, dsuf.len() as int)
                =~= dvs.subrange((i + 1) as int, dvs.len() as int));
            assert(asuf.subrange(1, asuf.len() as int)
                =~= avs.subrange((i + 1) as int, avs.len() as int));
        }
        i = i + 1;
    }
    proof {
        let dsuf = dvs.subrange(i as int, dvs.len() as int);
        let asuf = avs.subrange(i as int, avs.len() as int);
        assert(dsuf.len() == 0 || asuf.len() == 0);
    }
}

/// Executable substitution.
fn substitute_exec(t: &Type, bs: &Vec<GenericBinding>, env: &ExecutionEnvironment)
    -> (r: Type)
    ensures
        r@ == substitute_view(t@, bindings_view(bs@), env@.typespecs),
    decreases *t,
{
    if env.is_generic_typespec(t.typespec_id) {
        match find_binding_exec(bs, t.typespec_id) {
            Some(c) => c.duplicate(),
            None => t.duplicate(),
        }
    } else {
        let ghost pvs = crate::lang::type_views(t.params@);
        proof { crate::lang::lemma_type_views(t.params@); }
        let mut params: Vec<Type> = Vec::new();
        let mut i: usize = 0;
        while i < t.params.len()
            invariant
                i <= t.params@.len(),
                pvs == crate::lang::type_views(t.params@),
                pvs.len() == t.params@.len(),
                forall|k: int| 0 <= k < pvs.len()
                    ==> pvs[k] == crate::lang::type_view(#[trigger] t.params@[k]),
                params@.len() == i,
                forall|k: int| 0 <= k < i
                    ==> crate::lang::type_view(#[trigger] params@[k])
                        == substitute_view(pvs[k], bindings_view(bs@), env@.typespecs),
            decreases t.params@.len() - i,
        {
            let sub = substitute_exec(&t.params[i], bs, env);
            params.push(sub);
            i = i + 1;
        }
        let r = Type { typespec_id: t.typespec_id, params };
        proof {
            crate::lang::lemma_type_views(r.params@);
            lemma_substitute_params(pvs, bindings_view(bs@), env@.typespecs);
            assert forall|k: int| 0 <= k < pvs.len()
                implies crate::lang::type_views(r.params@)[k]
                    == substitute_params_view(pvs, bindings_view(bs@), env@.typespecs)[k] by {
                assert(crate::lang::type_views(r.params@)[k]
                    == crate::lang::type_view(r.params@[k]));
            }
            assert(crate::lang::type_views(r.params@)
                =~= substitute_params_view(pvs, bindings_view(bs@), env@.typespecs));
        }
        r
    }
}

impl CodeGenie {
    /// Substitutes concrete types for the generic type parameters of
    /// `unresolved_type`, using the argument types actually supplied at
    /// the context node's call site.  Generics with no derivable binding
    /// stay unresolved; callers display them rather than filter on them.
    pub fn try_to_resolve_all_generics(
        &self,
        context_node: &CodeNode,
        unresolved_type: &Type,
        env: &ExecutionEnvironment,
    ) -> (r: Type)
        ensures
            r@ == resolve_type_view(self@, context_node@, unresolved_type@, env@,
                usize::MAX as nat),
    {
        let call: &CodeNode = match context_node {
            CodeNode::Assignment(a) => {
                proof {
                    assert(context_node@ == (NodeView::Assignment {
                        id: a.id,
                        name: a.name@,
                        expression: Box::new(node_view(*a.expression)),
                    }));
                }
                &a.expression
            },
            _ => context_node,
        };
        match call {
            CodeNode::FunctionCall(fc) => {
                proof {
                    assert(call@ == (NodeView::FunctionCall {
                        id: fc.id,
                        function_reference: Box::new(node_view(*fc.function_reference)),
                        args: crate::lang::node_views(fc.args@),
                    }));
                }
                match &*fc.function_reference {
                    CodeNode::FunctionReference(fr) => {
                        proof {
                            assert(node_view(*fc.function_reference)
                                == (NodeView::FunctionReference {
                                    id: fr.id,
                                    function_id: fr.function_id,
                                }));
                        }
                        match env.find_function(fr.function_id) {
                            Some(f) => {
                                let mut bs: Vec<GenericBinding> = Vec::new();
                                proof {
                                    assert(bindings_view(bs@)
                                        =~= Seq::<BindingView>::empty());
                                }
                                gather_bindings_exec(&self.code, &fc.args, &f.args,
                                    &mut bs, env);
                                substitute_exec(unresolved_type, &bs, env)
                            },
                            None => unresolved_type.duplicate(),
                        }
                    },
                    _ => unresolved_type.duplicate(),
                }
            },
            _ => unresolved_type.duplicate(),
        }
    }
}

/// Executable gathering of call-site bindings.
fn gather_bindings_exec(
    root: &CodeNode,
    call_args: &Vec<CodeNode>,
    decls: &Vec<crate::lang::ArgumentDefinition>,
    bs: &mut Vec<GenericBinding>,
    env: &ExecutionEnvironment,
)
    ensures
        bindings_view(final(bs)@) == gather_bindings_view(root@, env@,
            crate::lang::node_views(call_args@),
            crate::env::args_view(decls@), bindings_view(old(bs)@), usize::MAX as nat),
{
    let ghost cvs = crate::lang::node_views(call_args@);
    let ghost dvs = crate::env::args_view(decls@);
    proof {
        crate::lang::lemma_node_views(call_args@);
        assert(dvs.subrange(0, dvs.len() as int) =~= dvs);
    }
    let mut i: usize = 0;
    while i < decls.len()
        invariant
            i <= decls@.len(),
            cvs == crate::lang::node_views(call_args@),
            dvs == crate::env::args_view(decls@),
            dvs.len() == decls@.len(),
            forall|k: int| 0 <= k < dvs.len() ==> dvs[k] == (#[trigger] decls@[k])@,
            gather_bindings_view(root@, env@, cvs,
                dvs.subrange(i as int, dvs.len() as int), bindings_view(bs@),
                usize::MAX as nat)
                == gather_bindings_view(root@, env@, cvs, dvs, bindings_view(old(bs)@),
                    usize::MAX as nat),
        decreases decls@.len() - i,
    {
        let ghost dsuf = dvs.subrange(i as int, dvs.len() as int);
        let decl = &decls[i];
        proof {
            assert(dsuf[0] == dvs[i as int]);
            assert(dsuf.subrange(1, dsuf.len() as int)
                =~= dvs.subrange((i + 1) as int, dvs.len() as int));
        }
        match find_call_arg_exec(call_args, decl.id) {
            Some(expr) => {
                match guess_type_exec(root, expr, env, usize::MAX) {
                    Some(at) => {
                        unify_exec(&decl.arg_type, &at, bs, env);
                    },
                    None => {},
                }
            },
            None => {},
        }
        i = i + 1;
    }
    proof {
        assert(dvs.subrange(i as int, dvs.len() as int).len() == 0);
    }
}

/// The expression filling the call argument with the given definition
/// id.
fn find_call_arg_exec<'a>(call_args: &'a Vec<CodeNode>, arg_def_id: ID)
    -> (r: Option<&'a CodeNode>)
    ensures
        match r {
            Some(e) => find_call_arg(crate::lang::node_views(call_args@), arg_def_id)
                == Some(e@),
            None => find_call_arg(crate::lang::node_views(call_args@), arg_def_id) is None,
        },
{
    let ghost cvs = crate::lang::node_views(call_args@);
    proof { crate::lang::lemma_node_views(call_args@); }
    let mut i: usize = 0;
    while i < call_args.len()
        invariant
            i <= call_args@.len(),
            cvs == crate::lang::node_views(call_args@),
            cvs.len() == call_args@.len(),
            forall|k: int| 0 <= k < cvs.len()
                ==> cvs[k] == node_view(#[trigger] call_args@[k]),
            forall|k: int| 0 <= k < i ==> !((#[trigger] cvs[k])
                matches NodeView::Argument { argument_definition_id, .. }
                && argument_definition_id == arg_def_id),
        decreases call_args@.len() - i,
    {
        let node = &call_args[i];
        match node {
            CodeNode::Argument(a) => {
                proof {
                    assert(node_view(*node) == (NodeView::Argument {
                        id: a.id,
                        argument_definition_id: a.argument_definition_id,
                        expr: Box::new(node_view(*a.expr)),
                    }));
                }
                if a.argument_definition_id == arg_def_id {
                    proof {
                        lemma_find_call_arg_index(cvs, arg_def_id, i as int);
                    }
                    return Some(&a.expr);
                }
            },
            _ => {
                proof {
                    crate::locals::lemma_view_variant_kinds(*node);
                }
            },
        }
        i = i + 1;
    }
    proof { lemma_find_call_arg_none(cvs, arg_def_id); }
    None
}

proof fn lemma_find_call_arg_index(s: Seq<NodeView>, arg_def_id: ID, j: int)
    requires
        0 <= j < s.len(),
        forall|k: int| 0 <= k < j ==> !((#[trigger] s[k])
            matches NodeView::Argument { argument_definition_id, .. }
            && argument_definition_id == arg_def_id),
        s[j] matches NodeView::Argument { argument_definition_id, .. }
            && argument_definition_id == arg_def_id,
    ensures
        find_call_arg(s, arg_def_id) == Some(*s[j]->Argument_expr),
    decreases s.len(),
{
    if j > 0 {
        let rest = s.subrange(1, s.len() as int);
        assert forall|k: int| 0 <= k < j - 1
            implies !((#[trigger] rest[k])
                matches NodeView::Argument { argument_definition_id, .. }
                && argument_definition_id == arg_def_id) by {
            assert(rest[k] == s[k + 1]);
        }
        assert(rest[j - 1] == s[j]);
        lemma_find_call_arg_index(rest, arg_def_id, j - 1);
    }
}

proof fn lemma_find_call_arg_none(s: Seq<NodeView>, arg_def_id: ID)
    requires
        forall|k: int| 0 <= k < s.len() ==> !((#[trigger] s[k])
            matches NodeView::Argument { argument_definition_id, .. }
            && argument_definition_id == arg_def_id),
    ensures
        find_call_arg(s, arg_def_id) is None,
    decreases s.len(),
{
    if s.len() > 0 {
        let rest = s.subrange(1, s.len() as int);
        assert forall|k: int| 0 <= k < rest.len()
            implies !((#[trigger] rest[k])
                matches NodeView::Argument { argument_definition_id, .. }
                && argument_definition_id == arg_def_id) by {
            assert(rest[k] == s[k + 1]);
        }
        lemma_find_call_arg_none(rest, arg_def_id);
    }
}

/// The executable mirror of [`enclosing_stmt`].
fn enclosing_stmt_exec(node: &CodeNode, id: ID) -> (r: Option<ID>)
    ensures
        r == enclosing_stmt(node@, id),
    decreases node@.height(),
{
    let node_is_block = matches!(node, CodeNode::Block(_));
    let kids = node.children();
    let ghost cs = node@.child_seq();
    let mut i: usize = 0;
    while i < kids.len()
        invariant
            i <= kids@.len(),
            kids@.len() == cs.len(),
            cs == node@.child_seq(),
            node_is_block == node@ is Block,
            forall|k: int| 0 <= k < kids@.len()
                ==> node_view(*(#[trigger] kids@[k])) == cs[k],
            forall|k: int| 0 <= k < i
                ==> (#[trigger] cs[k]).nid() != id && !contains_id(cs[k], id),
        decreases kids@.len() - i,
    {
        proof { lemma_child_height(node@); }
        let kid: &CodeNode = kids[i];
        if kid.id() == id {
            proof {
                lemma_enclosing_stmt_list_walk(node@, cs, id, i as int);
                assert(cs.subrange(i as int, cs.len() as int)[0] == cs[i as int]);
            }
            if node_is_block {
                return Some(id);
            } else {
                return None;
            }
        }
        let kid_contains = kid.find_node(id).is_some();
        proof { lemma_find_contains(cs[i as int], id); }
        if kid_contains {
            let inner = enclosing_stmt_exec(kid, id);
            proof {
                lemma_enclosing_stmt_list_walk(node@, cs, id, i as int);
                assert(cs.subrange(i as int, cs.len() as int)[0] == cs[i as int]);
            }
            match inner {
                Some(x) => {
                    return Some(x);
                },
                None => {
                    if node_is_block {
                        return Some(kid.id());
                    } else {
                        return None;
                    }
                },
            }
        }
        i = i + 1;
    }
    proof { lemma_enclosing_stmt_list_none(node@, cs, id); }
    None
}

/// The executable mirror of [`anon_ancestors`]; appends the enclosing
/// anonymous functions to `out`.
fn anon_ancestors_exec(node: &CodeNode, id: ID, out: &mut Vec<CodeNode>)
    ensures
        final(out)@.len() == old(out)@.len() + anon_ancestors(node@, id).len(),
        forall|k: int| 0 <= k < old(out)@.len() ==> final(out)@[k] == old(out)@[k],
        forall|k: int| 0 <= k < anon_ancestors(node@, id).len()
            ==> node_view(#[trigger] final(out)@[old(out)@.len() + k])
                == anon_ancestors(node@, id)[k],
    decreases node@.height(),
{
    if node.id() == id {
        return;
    }
    let ghost selfpart: Seq<NodeView> = if node@ is AnonymousFunction {
        seq![node@]
    } else {
        Seq::empty()
    };
    match node {
        CodeNode::AnonymousFunction(_) => {
            let dup = node.duplicate();
            out.push(dup);
        },
        _ => {},
    }
    let kids = node.children();
    let ghost cs = node@.child_seq();
    let ghost mid = out@;
    let mut i: usize = 0;
    while i < kids.len()
        invariant
            i <= kids@.len(),
            kids@.len() == cs.len(),
            cs == node@.child_seq(),
            node@.nid() != id,
            selfpart == if node@ is AnonymousFunction {
                seq![node@]
            } else {
                Seq::<NodeView>::empty()
            },
            out@ == mid,
            mid.len() == old(out)@.len() + selfpart.len(),
            forall|k: int| 0 <= k < old(out)@.len() ==> mid[k] == old(out)@[k],
            forall|k: int| 0 <= k < selfpart.len()
                ==> node_view(#[trigger] mid[old(out)@.len() + k]) == selfpart[k],
            forall|k: int| 0 <= k < kids@.len()
                ==> node_view(*(#[trigger] kids@[k])) == cs[k],
            forall|k: int| 0 <= k < i ==> !contains_id(#[trigger] cs[k], id),
        decreases kids@.len() - i,
    {
        proof { lemma_child_height(node@); }
        let kid: &CodeNode = kids[i];
        let kid_contains = kid.find_node(id).is_some();
        proof { lemma_find_contains(cs[i as int], id); }
        if kid_contains {
            anon_ancestors_exec(kid, id, out);
            proof {
                lemma_anon_ancestors_list_walk(cs, id, i as int);
                let inner = anon_ancestors(cs[i as int], id);
                assert(anon_ancestors(node@, id) == selfpart + inner);
                assert(out@.len() == mid.len() + inner.len());
                assert forall|k: int| 0 <= k < anon_ancestors(node@, id).len()
                    implies node_view(#[trigger] out@[old(out)@.len() + k])
                        == anon_ancestors(node@, id)[k] by {
                    if k < selfpart.len() {
                        assert(out@[old(out)@.len() + k] == mid[old(out)@.len() + k]);
                        assert((selfpart + inner)[k] == selfpart[k]);
                    } else {
                        assert(out@[old(out)@.len() + k] == out@[mid.len() + (k - selfpart.len())]);
                        assert(node_view(out@[mid.len() + (k - selfpart.len())])
                            == inner[k - selfpart.len()]);
                        assert((selfpart + inner)[k] == inner[k - selfpart.len()]);
                    }
                }
            }
            return;
        }
        i = i + 1;
    }
    proof {
        lemma_anon_ancestors_list_none(cs, id);
        assert(anon_ancestors(node@, id) =~= selfpart);
    }
}

/// The executable mirror of [`guess_type_view`].
fn guess_type_exec(root: &CodeNode, node: &CodeNode, env: &ExecutionEnvironment, fuel: usize)
    -> (r: Option<Type>)
    ensures
        match r {
            Some(t) => guess_type_view(root@, node@, env@, fuel as nat) == Some(t@),
            None => guess_type_view(root@, node@, env@, fuel as nat) is None,
        },
    decreases fuel,
{
    if fuel == 0 {
        return None;
    }
    match node {
        CodeNode::FunctionCall(fc) => {
            proof {
                assert(node@ == (NodeView::FunctionCall {
                    id: fc.id,
                    function_reference: Box::new(node_view(*fc.function_reference)),
                    args: crate::lang::node_views(fc.args@),
                }));
            }
            match &*fc.function_reference {
                CodeNode::FunctionReference(fr) => {
                    proof {
                        assert(node_view(*fc.function_reference)
                            == (NodeView::FunctionReference {
                                id: fr.id,
                                function_id: fr.function_id,
                            }));
                    }
                    match env.find_function(fr.function_id) {
                        Some(f) => Some(f.return_type.duplicate()),
                        None => Some(crate::env::null_type()),
                    }
                },
                _ => None,
            }
        },
        CodeNode::FunctionReference(_) => Some(crate::env::null_type()),
        CodeNode::Argument(a) => env.get_type_for_arg(a.argument_definition_id),
        CodeNode::StringLiteral(_) => Some(crate::env::string_type()),
        CodeNode::NumberLiteral(_) => Some(crate::env::number_type()),
        CodeNode::NullLiteral(_) => Some(crate::env::null_type()),
        CodeNode::Assignment(a) => guess_type_exec(root, &a.expression, env, fuel - 1),
        CodeNode::Block(b) => {
            proof {
                assert(node@ == (NodeView::Block {
                    id: b.id,
                    expressions: crate::lang::node_views(b.expressions@),
                }));
                crate::lang::lemma_node_views(b.expressions@);
            }
            if b.expressions.len() == 0 {
                Some(crate::env::null_type())
            } else {
                let last = &b.expressions[b.expressions.len() - 1];
                proof {
                    crate::lang::lemma_node_views(b.expressions@);
                    assert(node_view(*last)
                        == crate::lang::node_views(b.expressions@).last());
                }
                guess_type_exec(root, last, env, fuel - 1)
            }
        },
        CodeNode::VariableReference(vr) => match root.find_node(vr.assignment_id) {
            Some(decl) => guess_type_exec(root, decl, env, fuel - 1),
            None => env.get_type_for_arg(vr.assignment_id),
        },
        CodeNode::Placeholder(p) => Some(p.typ.duplicate()),
        CodeNode::StructLiteral(sl) => match env.find_struct(sl.struct_id) {
            Some(_) => Some(crate::env::type_from_spec_id(sl.struct_id)),
            None => None,
        },
        CodeNode::StructLiteralField(f) => match root.find_parent(f.id) {
            Some(p) => match p {
                CodeNode::StructLiteral(sl) => match env.find_struct(sl.struct_id) {
                    Some(sd) => sd.get_field_type(f.struct_field_id),
                    None => None,
                },
                _ => None,
            },
            None => None,
        },
        CodeNode::Conditional(c) => guess_type_exec(root, &c.true_branch, env, fuel - 1),
        CodeNode::ListLiteral(l) => {
            let mut params: Vec<Type> = Vec::new();
            params.push(l.element_type.duplicate());
            proof {
                assert(params@.subrange(1, 1) =~= Seq::<Type>::empty());
                assert(crate::lang::type_views(Seq::<Type>::empty())
                    == Seq::<TypeView>::empty());
                assert(crate::lang::type_views(params@) =~= seq![l.element_type@]);
            }
            let r = crate::env::type_with_params(LIST_TYPESPEC_ID, params);
            Some(r)
        },
        CodeNode::Match(_) => Some(crate::env::null_type()),
        CodeNode::AnonymousFunction(af) => {
            let mut params: Vec<Type> = Vec::new();
            params.push(af.takes_arg.arg_type.duplicate());
            proof {
                assert(params@.subrange(1, 1) =~= Seq::<Type>::empty());
                assert(crate::lang::type_views(Seq::<Type>::empty())
                    == Seq::<TypeView>::empty());
                assert(crate::lang::type_views(params@) =~= seq![af.takes_arg.arg_type@]);
            }
            let r = crate::env::type_with_params(ANON_FUNC_TYPESPEC_ID, params);
            Some(r)
        },
    }
}

} // verus!
