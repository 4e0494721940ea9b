//! The AST model: the `CodeNode` variant family, node identity, structural
//! decomposition, depth-first traversal, lookup by id and whole-tree
//! replacement.
//!
//! Every node carries a process-unique id.  A node owns its children
//! exclusively; there is no sharing and there are no cycles.  The
//! mathematical model of a tree is the spec-level [`NodeView`] datatype,
//! whose children are `Seq`s; every executable node maps to its view
//! through [`View`], and every contract in the crate speaks of views.

use vstd::prelude::*;
use vstd::string::StringExecFns;

verus! {

/// A node id.  Ids are generated by [`IdGen`] and are never reused, so a
/// well-formed tree holds each id at most once.
pub type ID = u64;

// ---------------------------------------------------------------------------
// Types
// ---------------------------------------------------------------------------

/// A type: a type-spec id applied to zero or more type parameters,
/// e.g. `List<String>`.
#[derive(Debug)]
pub struct Type {
    pub typespec_id: ID,
    pub params: Vec<Type>,
}

/// Mathematical model of [`Type`].
pub struct TypeView {
    pub typespec_id: ID,
    pub params: Seq<TypeView>,
}

pub open spec fn type_view(t: Type) -> TypeView
    decreases t,
{
    TypeView { typespec_id: t.typespec_id, params: type_views(t.params@) }
}

pub open spec fn type_views(ts: Seq<Type>) -> Seq<TypeView>
    decreases ts,
{
    if ts.len() == 0 {
        Seq::empty()
    } else {
        seq![type_view(ts[0])] + type_views(ts.subrange(1, ts.len() as int))
    }
}

impl View for Type {
    type V = TypeView;

    open spec fn view(&self) -> TypeView {
        type_view(*self)
    }
}

/// The declaration of one function argument: its id, its type and the
/// short name shown in placeholders.
#[derive(Debug)]
pub struct ArgumentDefinition {
    pub id: ID,
    pub arg_type: Type,
    pub short_name: String,
}

/// Mathematical model of [`ArgumentDefinition`].
pub struct ArgDefView {
    pub id: ID,
    pub arg_type: TypeView,
    pub short_name: Seq<char>,
}

impl View for ArgumentDefinition {
    type V = ArgDefView;

    open spec fn view(&self) -> ArgDefView {
        ArgDefView { id: self.id, arg_type: self.arg_type@, short_name: self.short_name@ }
    }
}

// ---------------------------------------------------------------------------
// The node family
// ---------------------------------------------------------------------------

/// A call of a catalog function: an owned function reference plus an
/// ordered list of `Argument` children.
#[derive(Debug)]
pub struct FunctionCall {
    pub id: ID,
    pub function_reference: Box<CodeNode>,
    pub args: Vec<CodeNode>,
}

/// The reference to the catalog function being called.
#[derive(Debug)]
pub struct FunctionReference {
    pub id: ID,
    pub function_id: ID,
}

/// A hole of a function call: owns exactly one expression, tagged with the
/// argument definition it fills.
#[derive(Debug)]
pub struct Argument {
    pub id: ID,
    pub argument_definition_id: ID,
    pub expr: Box<CodeNode>,
}

/// A string literal.
#[derive(Debug)]
pub struct StringLiteral {
    pub id: ID,
    pub value: String,
}

/// A number literal.
#[derive(Debug)]
pub struct NumberLiteral {
    pub id: ID,
    pub value: i64,
}

/// A name bound to the value of an owned expression.
#[derive(Debug)]
pub struct Assignment {
    pub id: ID,
    pub name: String,
    pub expression: Box<CodeNode>,
}

/// An ordered list of owned expression statements; the only node that
/// introduces a lexical scope.
#[derive(Debug)]
pub struct Block {
    pub id: ID,
    pub expressions: Vec<CodeNode>,
}

/// A use of a variable: refers to the id of the assignment, argument
/// definition or match binding that introduced it; owns nothing.
#[derive(Debug)]
pub struct VariableReference {
    pub id: ID,
    pub assignment_id: ID,
}

/// A typed hole awaiting a value.
#[derive(Debug)]
pub struct Placeholder {
    pub id: ID,
    pub description: String,
    pub typ: Type,
}

/// A literal of a user-defined struct: one `StructLiteralField` child per
/// filled field.
#[derive(Debug)]
pub struct StructLiteral {
    pub id: ID,
    pub struct_id: ID,
    pub fields: Vec<CodeNode>,
}

/// A hole of a struct literal: owns exactly one expression, tagged with
/// the struct field it fills.
#[derive(Debug)]
pub struct StructLiteralField {
    pub id: ID,
    pub struct_field_id: ID,
    pub expr: Box<CodeNode>,
}

/// A condition with two branches.
#[derive(Debug)]
pub struct Conditional {
    pub id: ID,
    pub condition: Box<CodeNode>,
    pub true_branch: Box<CodeNode>,
    pub false_branch: Box<CodeNode>,
}

/// A list literal with a declared element type.
#[derive(Debug)]
pub struct ListLiteral {
    pub id: ID,
    pub element_type: Type,
    pub elements: Vec<CodeNode>,
}

/// One branch of a `Match`: the enum variant it handles and the owned body
/// expression.  The variant id doubles as the id of the binding the branch
/// introduces.
#[derive(Debug)]
pub struct MatchBranch {
    pub variant_id: ID,
    pub body: CodeNode,
}

/// A pattern match: a scrutinee plus one branch per enum variant.
#[derive(Debug)]
pub struct Match {
    pub id: ID,
    pub scrutinee: Box<CodeNode>,
    pub branches: Vec<MatchBranch>,
}

/// An anonymous function: one implicit argument and an owned block body.
#[derive(Debug)]
pub struct AnonymousFunction {
    pub id: ID,
    pub takes_arg: ArgumentDefinition,
    pub block: Box<CodeNode>,
}

/// An evaluation error, as the excluded execution environment reports
/// it.
#[derive(Clone, Copy, Debug, PartialEq, Eq, Structural)]
pub enum Error {
    ArgumentError,
}

/// A runtime value, as the excluded execution environment produces it;
/// the core only carries these around for display.
#[derive(Debug)]
pub enum Value {
    Null,
    String(String),
    Number(i64),
    Boolean(bool),
    Error(Error),
}

/// A node of the tree: a tagged union of expression and statement kinds.
#[derive(Debug)]
pub enum CodeNode {
    FunctionCall(FunctionCall),
    FunctionReference(FunctionReference),
    Argument(Argument),
    StringLiteral(StringLiteral),
    NumberLiteral(NumberLiteral),
    NullLiteral(ID),
    Assignment(Assignment),
    Block(Block),
    VariableReference(VariableReference),
    Placeholder(Placeholder),
    StructLiteral(StructLiteral),
    StructLiteralField(StructLiteralField),
    Conditional(Conditional),
    ListLiteral(ListLiteral),
    Match(Match),
    AnonymousFunction(AnonymousFunction),
}

// ---------------------------------------------------------------------------
// The mathematical model
// ---------------------------------------------------------------------------

/// Mathematical model of one branch of a `Match`.
pub struct BranchView {
    pub variant_id: ID,
    pub body: NodeView,
}

/// Mathematical model of a tree: the same variant family with `Seq`
/// children and `Seq<char>` strings.
#[allow(inconsistent_fields)]
pub enum NodeView {
    FunctionCall { id: ID, function_reference: Box<NodeView>, args: Seq<NodeView> },
    FunctionReference { id: ID, function_id: ID },
    Argument { id: ID, argument_definition_id: ID, expr: Box<NodeView> },
    StringLiteral { id: ID, value: Seq<char> },
    NumberLiteral { id: ID, value: i64 },
    NullLiteral { id: ID },
    Assignment { id: ID, name: Seq<char>, expression: Box<NodeView> },
    Block { id: ID, expressions: Seq<NodeView> },
    VariableReference { id: ID, assignment_id: ID },
    Placeholder { id: ID, description: Seq<char>, typ: TypeView },
    StructLiteral { id: ID, struct_id: ID, fields: Seq<NodeView> },
    StructLiteralField { id: ID, struct_field_id: ID, expr: Box<NodeView> },
    Conditional { id: ID, condition: Box<NodeView>, true_branch: Box<NodeView>, false_branch: Box<NodeView> },
    ListLiteral { id: ID, element_type: TypeView, elements: Seq<NodeView> },
    Match { id: ID, scrutinee: Box<NodeView>, branches: Seq<BranchView> },
    AnonymousFunction { id: ID, takes_arg: ArgDefView, block: Box<NodeView> },
}

pub open spec fn node_view(n: CodeNode) -> NodeView
    decreases n,
{
    match n {
        CodeNode::FunctionCall(fc) => NodeView::FunctionCall {
            id: fc.id,
            function_reference: Box::new(node_view(*fc.function_reference)),
            args: node_views(fc.args@),
        },
        CodeNode::FunctionReference(fr) => NodeView::FunctionReference {
            id: fr.id,
            function_id: fr.function_id,
        },
        CodeNode::Argument(a) => NodeView::Argument {
            id: a.id,
            argument_definition_id: a.argument_definition_id,
            expr: Box::new(node_view(*a.expr)),
        },
        CodeNode::StringLiteral(s) => NodeView::StringLiteral { id: s.id, value: s.value@ },
        CodeNode::NumberLiteral(nl) => NodeView::NumberLiteral { id: nl.id, value: nl.value },
        CodeNode::NullLiteral(id) => NodeView::NullLiteral { id },
        CodeNode::Assignment(a) => NodeView::Assignment {
            id: a.id,
            name: a.name@,
            expression: Box::new(node_view(*a.expression)),
        },
        CodeNode::Block(b) => NodeView::Block { id: b.id, expressions: node_views(b.expressions@) },
        CodeNode::VariableReference(vr) => NodeView::VariableReference {
            id: vr.id,
            assignment_id: vr.assignment_id,
        },
        CodeNode::Placeholder(p) => NodeView::Placeholder {
            id: p.id,
            description: p.description@,
            typ: p.typ@,
        },
        CodeNode::StructLiteral(sl) => NodeView::StructLiteral {
            id: sl.id,
            struct_id: sl.struct_id,
            fields: node_views(sl.fields@),
        },
        CodeNode::StructLiteralField(f) => NodeView::StructLiteralField {
            id: f.id,
            struct_field_id: f.struct_field_id,
            expr: Box::new(node_view(*f.expr)),
        },
        CodeNode::Conditional(c) => NodeView::Conditional {
            id: c.id,
            condition: Box::new(node_view(*c.condition)),
            true_branch: Box::new(node_view(*c.true_branch)),
            false_branch: Box::new(node_view(*c.false_branch)),
        },
        CodeNode::ListLiteral(l) => NodeView::ListLiteral {
            id: l.id,
            element_type: l.element_type@,
            elements: node_views(l.elements@),
        },
        CodeNode::Match(m) => NodeView::Match {
            id: m.id,
            scrutinee: Box::new(node_view(*m.scrutinee)),
            branches: branch_views(m.branches@),
        },
        CodeNode::AnonymousFunction(af) => NodeView::AnonymousFunction {
            id: af.id,
            takes_arg: af.takes_arg@,
            block: Box::new(node_view(*af.block)),
        },
    }
}

pub open spec fn node_views(ns: Seq<CodeNode>) -> Seq<NodeView>
    decreases ns,
{
    if ns.len() == 0 {
        Seq::empty()
    } else {
        seq![node_view(ns[0])] + node_views(ns.subrange(1, ns.len() as int))
    }
}

pub open spec fn branch_views(bs: Seq<MatchBranch>) -> Seq<BranchView>
    decreases bs,
{
    if bs.len() == 0 {
        Seq::empty()
    } else {
        seq![BranchView { variant_id: bs[0].variant_id, body: node_view(bs[0].body) }]
            + branch_views(bs.subrange(1, bs.len() as int))
    }
}

impl View for CodeNode {
    type V = NodeView;

    open spec fn view(&self) -> NodeView {
        node_view(*self)
    }
}

impl NodeView {
    /// The id the node carries.
    pub open spec fn nid(self) -> ID {
        match self {
            NodeView::FunctionCall { id, .. } => id,
            NodeView::FunctionReference { id, .. } => id,
            NodeView::Argument { id, .. } => id,
            NodeView::StringLiteral { id, .. } => id,
            NodeView::NumberLiteral { id, .. } => id,
            NodeView::NullLiteral { id } => id,
            NodeView::Assignment { id, .. } => id,
            NodeView::Block { id, .. } => id,
            NodeView::VariableReference { id, .. } => id,
            NodeView::Placeholder { id, .. } => id,
            NodeView::StructLiteral { id, .. } => id,
            NodeView::StructLiteralField { id, .. } => id,
            NodeView::Conditional { id, .. } => id,
            NodeView::ListLiteral { id, .. } => id,
            NodeView::Match { id, .. } => id,
            NodeView::AnonymousFunction { id, .. } => id,
        }
    }

    /// The node's structural decomposition: its direct children, in the
    /// order every traversal of this crate visits them.
    pub open spec fn child_seq(self) -> Seq<NodeView> {
        match self {
            NodeView::FunctionCall { function_reference, args, .. } =>
                seq![*function_reference] + args,
            NodeView::FunctionReference { .. } => Seq::empty(),
            NodeView::Argument { expr, .. } => seq![*expr],
            NodeView::StringLiteral { .. } => Seq::empty(),
            NodeView::NumberLiteral { .. } => Seq::empty(),
            NodeView::NullLiteral { .. } => Seq::empty(),
            NodeView::Assignment { expression, .. } => seq![*expression],
            NodeView::Block { expressions, .. } => expressions,
            NodeView::VariableReference { .. } => Seq::empty(),
            NodeView::Placeholder { .. } => Seq::empty(),
            NodeView::StructLiteral { fields, .. } => fields,
            NodeView::StructLiteralField { expr, .. } => seq![*expr],
            NodeView::Conditional { condition, true_branch, false_branch, .. } =>
                seq![*condition, *true_branch, *false_branch],
            NodeView::ListLiteral { elements, .. } => elements,
            NodeView::Match { scrutinee, branches, .. } =>
                seq![*scrutinee] + branches.map_values(|b: BranchView| b.body),
            NodeView::AnonymousFunction { block, .. } => seq![*block],
        }
    }

    /// A structural height measure: 1 for a leaf, 1 more than the highest
    /// child otherwise.  It orders the recursions over [`child_seq`](Self::child_seq).
    pub open spec fn height(self) -> nat
        decreases self,
    {
        match self {
            NodeView::FunctionCall { function_reference, args, .. } =>
                1 + max_nat(function_reference.height(), height_list(args)),
            NodeView::FunctionReference { .. } => 1,
            NodeView::Argument { expr, .. } => 1 + expr.height(),
            NodeView::StringLiteral { .. } => 1,
            NodeView::NumberLiteral { .. } => 1,
            NodeView::NullLiteral { .. } => 1,
            NodeView::Assignment { expression, .. } => 1 + expression.height(),
            NodeView::Block { expressions, .. } => 1 + height_list(expressions),
            NodeView::VariableReference { .. } => 1,
            NodeView::Placeholder { .. } => 1,
            NodeView::StructLiteral { fields, .. } => 1 + height_list(fields),
            NodeView::StructLiteralField { expr, .. } => 1 + expr.height(),
            NodeView::Conditional { condition, true_branch, false_branch, .. } =>
                1 + max_nat(condition.height(),
                    max_nat(true_branch.height(), false_branch.height())),
            NodeView::ListLiteral { elements, .. } => 1 + height_list(elements),
            NodeView::Match { scrutinee, branches, .. } =>
                1 + max_nat(scrutinee.height(), height_branches(branches)),
            NodeView::AnonymousFunction { block, .. } => 1 + block.height(),
        }
    }

    /// The same node with its children replaced by `cs`, which must have
    /// one entry per child; every other field is kept.
    pub open spec fn rebuild(self, cs: Seq<NodeView>) -> NodeView {
        match self {
            NodeView::FunctionCall { id, .. } => NodeView::FunctionCall {
                id,
                function_reference: Box::new(cs[0]),
                args: cs.subrange(1, cs.len() as int),
            },
            NodeView::FunctionReference { .. } => self,
            NodeView::Argument { id, argument_definition_id, .. } => NodeView::Argument {
                id,
                argument_definition_id,
                expr: Box::new(cs[0]),
            },
            NodeView::StringLiteral { .. } => self,
            NodeView::NumberLiteral { .. } => self,
            NodeView::NullLiteral { .. } => self,
            NodeView::Assignment { id, name, .. } => NodeView::Assignment {
                id,
                name,
                expression: Box::new(cs[0]),
            },
            NodeView::Block { id, .. } => NodeView::Block { id, expressions: cs },
            NodeView::VariableReference { .. } => self,
            NodeView::Placeholder { .. } => self,
            NodeView::StructLiteral { id, struct_id, .. } => NodeView::StructLiteral {
                id,
                struct_id,
                fields: cs,
            },
            NodeView::StructLiteralField { id, struct_field_id, .. } =>
                NodeView::StructLiteralField { id, struct_field_id, expr: Box::new(cs[0]) },
            NodeView::Conditional { id, .. } => NodeView::Conditional {
                id,
                condition: Box::new(cs[0]),
                true_branch: Box::new(cs[1]),
                false_branch: Box::new(cs[2]),
            },
            NodeView::ListLiteral { id, element_type, .. } => NodeView::ListLiteral {
                id,
                element_type,
                elements: cs,
            },
            NodeView::Match { id, branches, .. } => NodeView::Match {
                id,
                scrutinee: Box::new(cs[0]),
                branches: Seq::new(branches.len(), |i: int| BranchView {
                    variant_id: branches[i].variant_id,
                    body: cs[i + 1],
                }),
            },
            NodeView::AnonymousFunction { id, takes_arg, .. } => NodeView::AnonymousFunction {
                id,
                takes_arg,
                block: Box::new(cs[0]),
            },
        }
    }
}

pub open spec fn max_nat(a: nat, b: nat) -> nat {
    if a >= b { a } else { b }
}

/// The height of the highest node of `s` (0 for the empty sequence).
pub open spec fn height_list(s: Seq<NodeView>) -> nat
    decreases s,
{
    if s.len() == 0 {
        0
    } else {
        max_nat(s[0].height(), height_list(s.subrange(1, s.len() as int)))
    }
}

/// The height of the highest branch body of `bs` (0 for the empty sequence).
pub open spec fn height_branches(bs: Seq<BranchView>) -> nat
    decreases bs,
{
    if bs.len() == 0 {
        0
    } else {
        max_nat(bs[0].body.height(), height_branches(bs.subrange(1, bs.len() as int)))
    }
}

pub proof fn lemma_height_list_bounds(s: Seq<NodeView>)
    requires
        s.len() > 0,
    ensures
        s[0].height() <= height_list(s),
        height_list(s.subrange(1, s.len() as int)) <= height_list(s),
{
}

pub proof fn lemma_height_list_concat(s1: Seq<NodeView>, s2: Seq<NodeView>)
    ensures
        height_list(s1 + s2) == max_nat(height_list(s1), height_list(s2)),
    decreases s1,
{
    if s1.len() == 0 {
        assert(s1 + s2 =~= s2);
    } else {
        let rest = s1.subrange(1, s1.len() as int);
        lemma_height_list_concat(rest, s2);
        assert((s1 + s2).subrange(1, (s1 + s2).len() as int) =~= rest + s2);
        assert((s1 + s2)[0] == s1[0]);
    }
}

pub proof fn lemma_height_list_map_branches(bs: Seq<BranchView>)
    ensures
        height_list(bs.map_values(|b: BranchView| b.body)) == height_branches(bs),
    decreases bs,
{
    let mapped = bs.map_values(|b: BranchView| b.body);
    if bs.len() == 0 {
        assert(mapped.len() == 0);
    } else {
        let rest = bs.subrange(1, bs.len() as int);
        lemma_height_list_map_branches(rest);
        assert(mapped.subrange(1, mapped.len() as int)
            =~= rest.map_values(|b: BranchView| b.body));
        assert(mapped[0] == bs[0].body);
    }
}

/// The height of a node is one more than the height of its child list.
pub proof fn lemma_height_decomp(t: NodeView)
    ensures
        t.height() == 1 + height_list(t.child_seq()),
{
    match t {
        NodeView::FunctionCall { function_reference, args, .. } => {
            lemma_height_list_concat(seq![*function_reference], args);
            lemma_height_list_one(*function_reference);
            assert(t.child_seq() == seq![*function_reference] + args);
            assert(height_list(t.child_seq())
                == max_nat(function_reference.height(), height_list(args)));
            assert(t.height() == 1 + max_nat(function_reference.height(), height_list(args)));
        },
        NodeView::Argument { expr, .. } => {
            lemma_height_list_one(*expr);
            assert(t.height() == 1 + height_list(t.child_seq()));
        },
        NodeView::Assignment { expression, .. } => {
            lemma_height_list_one(*expression);
            assert(t.height() == 1 + height_list(t.child_seq()));
        },
        NodeView::StructLiteralField { expr, .. } => {
            lemma_height_list_one(*expr);
            assert(t.height() == 1 + height_list(t.child_seq()));
        },
        NodeView::Conditional { condition, true_branch, false_branch, .. } => {
            lemma_height_list_concat(seq![*condition], seq![*true_branch, *false_branch]);
            lemma_height_list_concat(seq![*true_branch], seq![*false_branch]);
            lemma_height_list_one(*condition);
            lemma_height_list_one(*true_branch);
            lemma_height_list_one(*false_branch);
            assert(seq![*true_branch, *false_branch]
                =~= seq![*true_branch] + seq![*false_branch]);
            assert(seq![*condition, *true_branch, *false_branch]
                =~= seq![*condition] + seq![*true_branch, *false_branch]);
            assert(t.height() == 1 + height_list(t.child_seq()));
        },
        NodeView::Match { scrutinee, branches, .. } => {
            lemma_height_list_concat(seq![*scrutinee],
                branches.map_values(|b: BranchView| b.body));
            lemma_height_list_one(*scrutinee);
            lemma_height_list_map_branches(branches);
            assert(t.height() == 1 + height_list(t.child_seq()));
        },
        NodeView::AnonymousFunction { block, .. } => {
            lemma_height_list_one(*block);
            assert(t.height() == 1 + height_list(t.child_seq()));
        },
        NodeView::Block { .. } => {
            assert(t.height() == 1 + height_list(t.child_seq()));
        },
        NodeView::StructLiteral { .. } => {
            assert(t.height() == 1 + height_list(t.child_seq()));
        },
        NodeView::ListLiteral { .. } => {
            assert(t.height() == 1 + height_list(t.child_seq()));
        },
        _ => {
            assert(t.child_seq().len() == 0);
            assert(height_list(t.child_seq()) == 0);
        },
    }
}

pub proof fn lemma_height_list_one(e: NodeView)
    ensures
        height_list(seq![e]) == e.height(),
{
    assert(height_list(Seq::<NodeView>::empty()) == 0);
    assert(seq![e].subrange(1, 1) =~= Seq::<NodeView>::empty());
    assert(seq![e][0] == e);
}

/// Every child of a node is strictly lower than the node.
pub proof fn lemma_child_height(t: NodeView)
    ensures
        forall|i: int| 0 <= i < t.child_seq().len()
            ==> (#[trigger] t.child_seq()[i]).height() < t.height(),
{
    lemma_height_decomp(t);
    lemma_height_list_elem(t.child_seq());
}

pub proof fn lemma_height_list_elem(s: Seq<NodeView>)
    ensures
        forall|i: int| 0 <= i < s.len() ==> (#[trigger] s[i]).height() <= height_list(s),
    decreases s,
{
    if s.len() > 0 {
        let rest = s.subrange(1, s.len() as int);
        lemma_height_list_elem(rest);
        assert forall|i: int| 0 <= i < s.len()
            implies (#[trigger] s[i]).height() <= height_list(s) by {
            if i > 0 {
                assert(rest[i - 1] == s[i]);
            }
        }
    }
}

/// What `rebuild` guarantees when handed one entry per child.
pub proof fn lemma_rebuild(t: NodeView, cs: Seq<NodeView>)
    requires
        cs.len() == t.child_seq().len(),
    ensures
        t.rebuild(cs).nid() == t.nid(),
        t.rebuild(cs).child_seq() =~= cs,
{
    match t {
        NodeView::FunctionCall { function_reference, args, .. } => {
            assert(t.child_seq().len() == 1 + args.len());
            assert(t.rebuild(cs).child_seq()
                =~= seq![cs[0]] + cs.subrange(1, cs.len() as int));
        },
        NodeView::Match { scrutinee, branches, .. } => {
            let mapped = branches.map_values(|b: BranchView| b.body);
            assert(t.child_seq().len() == 1 + branches.len());
            let newbs = Seq::new(branches.len(), |i: int| BranchView {
                variant_id: branches[i].variant_id,
                body: cs[i + 1],
            });
            assert(t.rebuild(cs).child_seq()
                =~= seq![cs[0]] + newbs.map_values(|b: BranchView| b.body));
            assert(seq![cs[0]] + newbs.map_values(|b: BranchView| b.body) =~= cs);
        },
        _ => {
            assert(t.rebuild(cs).child_seq() =~= cs);
        },
    }
}

/// Rebuilding a node from its own children gives the node back.
pub proof fn lemma_rebuild_identity(t: NodeView)
    ensures
        t.rebuild(t.child_seq()) == t,
{
    match t {
        NodeView::FunctionCall { function_reference, args, .. } => {
            let cs = t.child_seq();
            assert(cs[0] == *function_reference);
            assert(cs.subrange(1, cs.len() as int) =~= args);
        },
        NodeView::Match { scrutinee, branches, .. } => {
            let cs = t.child_seq();
            assert(cs[0] == *scrutinee);
            let newbs = Seq::new(branches.len(), |i: int| BranchView {
                variant_id: branches[i].variant_id,
                body: cs[i + 1],
            });
            assert forall|i: int| 0 <= i < branches.len()
                implies newbs[i] == branches[i] by {
                assert(cs[i + 1] == branches.map_values(|b: BranchView| b.body)[i]);
            }
            assert(newbs =~= branches);
        },
        _ => {},
    }
}

// ---------------------------------------------------------------------------
// Ids, well-formedness, lookup and replacement over the model
// ---------------------------------------------------------------------------

/// All ids of the tree, in depth-first pre-order.
pub open spec fn ids_seq(t: NodeView) -> Seq<ID>
    decreases t.height(), 0nat, 0nat,
{
    proof { lemma_height_decomp(t); }
    seq![t.nid()] + ids_list(t.child_seq())
}

pub open spec fn ids_list(s: Seq<NodeView>) -> Seq<ID>
    decreases height_list(s), 1nat, s.len(),
{
    if s.len() == 0 {
        Seq::empty()
    } else {
        proof { lemma_height_list_bounds(s); }
        ids_seq(s[0]) + ids_list(s.subrange(1, s.len() as int))
    }
}

/// Whether any node of the tree carries the id.
pub open spec fn contains_id(t: NodeView, id: ID) -> bool {
    ids_seq(t).contains(id)
}

/// The tree invariant: every id in the tree is unique.
pub open spec fn wf(t: NodeView) -> bool {
    ids_seq(t).no_duplicates()
}

/// The first node in depth-first pre-order that carries the id, if any.
pub open spec fn find_view(t: NodeView, id: ID) -> Option<NodeView>
    decreases t.height(), 0nat, 0nat,
{
    proof { lemma_height_decomp(t); }
    if t.nid() == id {
        Some(t)
    } else {
        find_list(t.child_seq(), id)
    }
}

pub open spec fn find_list(s: Seq<NodeView>, id: ID) -> Option<NodeView>
    decreases height_list(s), 1nat, s.len(),
{
    if s.len() == 0 {
        None
    } else {
        proof { lemma_height_list_bounds(s); }
        match find_view(s[0], id) {
            Some(n) => Some(n),
            None => find_list(s.subrange(1, s.len() as int), id),
        }
    }
}

/// The parent of the first node in depth-first pre-order that carries the
/// id; `None` for the root's own id and for an absent id.
pub open spec fn parent_view(t: NodeView, id: ID) -> Option<NodeView>
    decreases t.height(), 0nat, 0nat,
{
    proof { lemma_height_decomp(t); }
    parent_list(t, t.child_seq(), id)
}

pub open spec fn parent_list(t: NodeView, s: Seq<NodeView>, id: ID) -> Option<NodeView>
    decreases height_list(s), 1nat, s.len(),
{
    if s.len() == 0 {
        None
    } else {
        proof { lemma_height_list_bounds(s); }
        if s[0].nid() == id {
            Some(t)
        } else {
            match parent_view(s[0], id) {
                Some(p) => Some(p),
                None => parent_list(t, s.subrange(1, s.len() as int), id),
            }
        }
    }
}

/// The tree with every node carrying `x`'s id replaced by `x`.  In a
/// well-formed tree at most one node is replaced.
pub open spec fn replace_view(t: NodeView, x: NodeView) -> NodeView
    decreases t.height(), 0nat, 0nat,
{
    proof { lemma_height_decomp(t); }
    if t.nid() == x.nid() {
        x
    } else {
        t.rebuild(replace_list(t.child_seq(), x))
    }
}

pub open spec fn replace_list(s: Seq<NodeView>, x: NodeView) -> Seq<NodeView>
    decreases height_list(s), 1nat, s.len(),
{
    if s.len() == 0 {
        Seq::empty()
    } else {
        proof { lemma_height_list_bounds(s); }
        seq![replace_view(s[0], x)] + replace_list(s.subrange(1, s.len() as int), x)
    }
}

// ---------------------------------------------------------------------------
// Depth-first traversal with parents
// ---------------------------------------------------------------------------

/// One visit of the depth-first traversal: the node and its parent
/// (`None` for the root).
pub struct DfsEntry {
    pub node: NodeView,
    pub parent: Option<NodeView>,
}

/// All nodes of the tree in depth-first pre-order, each with its parent.
/// This sequence is the reference order for cursor navigation.
pub open spec fn dfs_entries(t: NodeView, parent: Option<NodeView>) -> Seq<DfsEntry>
    decreases t.height(), 0nat, 0nat,
{
    proof { lemma_height_decomp(t); }
    seq![DfsEntry { node: t, parent }] + dfs_list(t.child_seq(), Some(t))
}

pub open spec fn dfs_list(s: Seq<NodeView>, parent: Option<NodeView>) -> Seq<DfsEntry>
    decreases height_list(s), 1nat, s.len(),
{
    if s.len() == 0 {
        Seq::empty()
    } else {
        proof { lemma_height_list_bounds(s); }
        dfs_entries(s[0], parent) + dfs_list(s.subrange(1, s.len() as int), parent)
    }
}

// ---------------------------------------------------------------------------
// Facts about ids, lookup and replacement
// ---------------------------------------------------------------------------

pub proof fn lemma_concat_contains<A>(a: Seq<A>, b: Seq<A>, x: A)
    ensures
        (a + b).contains(x) <==> a.contains(x) || b.contains(x),
{
    if a.contains(x) {
        let i = choose|i: int| 0 <= i < a.len() && a[i] == x;
        assert((a + b)[i] == x);
    }
    if b.contains(x) {
        let i = choose|i: int| 0 <= i < b.len() && b[i] == x;
        assert((a + b)[a.len() + i] == x);
    }
    if (a + b).contains(x) {
        let i = choose|i: int| 0 <= i < (a + b).len() && (a + b)[i] == x;
        if i < a.len() {
            assert(a[i] == x);
        } else {
            assert(b[i - a.len()] == x);
        }
    }
}

pub proof fn lemma_concat_no_duplicates<A>(a: Seq<A>, b: Seq<A>)
    ensures
        (a + b).no_duplicates() <==> a.no_duplicates() && b.no_duplicates()
            && (forall|x: A| a.contains(x) ==> !b.contains(x)),
{
    let c = a + b;
    if c.no_duplicates() {
        assert forall|i: int, j: int| 0 <= i < a.len() && 0 <= j < a.len() && i != j
            implies a[i] != a[j] by {
            assert(c[i] == a[i] && c[j] == a[j]);
        }
        assert forall|i: int, j: int| 0 <= i < b.len() && 0 <= j < b.len() && i != j
            implies b[i] != b[j] by {
            assert(c[a.len() + i] == b[i] && c[a.len() + j] == b[j]);
        }
        assert forall|x: A| a.contains(x) implies !b.contains(x) by {
            if b.contains(x) {
                let i = choose|i: int| 0 <= i < a.len() && a[i] == x;
                let j = choose|j: int| 0 <= j < b.len() && b[j] == x;
                assert(c[i] == x && c[a.len() + j] == x);
            }
        }
    }
    if a.no_duplicates() && b.no_duplicates()
        && (forall|x: A| a.contains(x) ==> !b.contains(x)) {
        assert forall|i: int, j: int| 0 <= i < c.len() && 0 <= j < c.len() && i != j
            implies c[i] != c[j] by {
            if i < a.len() && j < a.len() {
                assert(c[i] == a[i] && c[j] == a[j]);
            } else if i >= a.len() && j >= a.len() {
                assert(c[i] == b[i - a.len()] && c[j] == b[j - a.len()]);
            } else if i < a.len() && j >= a.len() {
                assert(a.contains(a[i]));
                if c[i] == c[j] {
                    assert(b[j - a.len()] == a[i]);
                    assert(b.contains(a[i]));
                }
            } else {
                assert(a.contains(a[j]));
                if c[i] == c[j] {
                    assert(b[i - a.len()] == a[j]);
                    assert(b.contains(a[j]));
                }
            }
        }
    }
}

/// A tree's id sequence holds the root's own id.
pub proof fn lemma_contains_own_id(t: NodeView)
    ensures
        contains_id(t, t.nid()),
        ids_seq(t).len() >= 1,
        ids_seq(t)[0] == t.nid(),
{
    assert(ids_seq(t)[0] == t.nid());
}

/// An id occurs in a child list exactly when it occurs in one of the
/// children.
pub proof fn lemma_ids_list_contains(s: Seq<NodeView>, id: ID)
    ensures
        ids_list(s).contains(id)
            <==> exists|i: int| 0 <= i < s.len() && contains_id(#[trigger] s[i], id),
    decreases s.len(),
{
    if s.len() > 0 {
        let rest = s.subrange(1, s.len() as int);
        lemma_ids_list_contains(rest, id);
        lemma_concat_contains(ids_seq(s[0]), ids_list(rest), id);
        if ids_list(s).contains(id) {
            if contains_id(s[0], id) {
                assert(contains_id(s[0], id));
            } else {
                let i = choose|i: int| 0 <= i < rest.len() && contains_id(#[trigger] rest[i], id);
                assert(contains_id(s[i + 1], id));
            }
        }
        if exists|i: int| 0 <= i < s.len() && contains_id(#[trigger] s[i], id) {
            let i = choose|i: int| 0 <= i < s.len() && contains_id(#[trigger] s[i], id);
            if i > 0 {
                assert(contains_id(rest[i - 1], id));
            }
        }
    }
}

/// An id occurs in a tree exactly when it is the root's id or occurs in a
/// child.
pub proof fn lemma_contains_decomp(t: NodeView, id: ID)
    ensures
        contains_id(t, id) <==> t.nid() == id
            || exists|i: int| 0 <= i < t.child_seq().len()
                && contains_id(#[trigger] t.child_seq()[i], id),
{
    lemma_ids_list_contains(t.child_seq(), id);
    lemma_concat_contains(seq![t.nid()], ids_list(t.child_seq()), id);
    if t.nid() == id {
        assert(seq![t.nid()][0] == id);
    }
    if seq![t.nid()].contains(id) {
        let i = choose|i: int| 0 <= i < 1 && seq![t.nid()][i] == id;
        assert(i == 0);
    }
}

/// In a well-formed tree the children are well-formed, their ids are
/// pairwise disjoint, and none of them holds the root's id.
pub proof fn lemma_wf_children(t: NodeView)
    requires
        wf(t),
    ensures
        forall|i: int| 0 <= i < t.child_seq().len() ==> wf(#[trigger] t.child_seq()[i]),
        forall|i: int, j: int, id: ID| 0 <= i < j < t.child_seq().len()
            && #[trigger] contains_id(t.child_seq()[i], id)
            ==> !(#[trigger] contains_id(t.child_seq()[j], id)),
        forall|i: int| 0 <= i < t.child_seq().len()
            ==> !contains_id(#[trigger] t.child_seq()[i], t.nid()),
{
    let cs = t.child_seq();
    lemma_concat_no_duplicates(seq![t.nid()], ids_list(cs));
    assert(ids_list(cs).no_duplicates());
    assert(seq![t.nid()][0] == t.nid());
    assert(seq![t.nid()].contains(t.nid()));
    lemma_ids_list_contains(cs, t.nid());
    lemma_ids_list_no_duplicates(cs);
}

pub proof fn lemma_ids_list_no_duplicates(s: Seq<NodeView>)
    requires
        ids_list(s).no_duplicates(),
    ensures
        forall|i: int| 0 <= i < s.len() ==> wf(#[trigger] s[i]),
        forall|i: int, j: int, id: ID| 0 <= i < j < s.len()
            && #[trigger] contains_id(s[i], id) ==> !(#[trigger] contains_id(s[j], id)),
    decreases s.len(),
{
    if s.len() > 0 {
        let rest = s.subrange(1, s.len() as int);
        lemma_concat_no_duplicates(ids_seq(s[0]), ids_list(rest));
        lemma_ids_list_no_duplicates(rest);
        assert forall|i: int| 0 <= i < s.len() implies wf(#[trigger] s[i]) by {
            if i > 0 {
                assert(rest[i - 1] == s[i]);
            }
        }
        assert forall|i: int, j: int, id: ID| 0 <= i < j < s.len()
            && #[trigger] contains_id(s[i], id)
            implies !(#[trigger] contains_id(s[j], id)) by {
            if i == 0 {
                lemma_ids_list_contains(rest, id);
                assert(rest[j - 1] == s[j]);
                if contains_id(s[j], id) {
                    assert(contains_id(rest[j - 1], id));
                    assert(ids_list(rest).contains(id));
                }
            } else {
                assert(rest[i - 1] == s[i] && rest[j - 1] == s[j]);
            }
        }
    }
}

/// What `replace_list` does: it acts on every element.
pub proof fn lemma_replace_list(s: Seq<NodeView>, x: NodeView)
    ensures
        replace_list(s, x).len() == s.len(),
        forall|i: int| 0 <= i < s.len()
            ==> replace_list(s, x)[i] == replace_view(#[trigger] s[i], x),
    decreases s.len(),
{
    if s.len() > 0 {
        let rest = s.subrange(1, s.len() as int);
        lemma_replace_list(rest, x);
        assert forall|i: int| 0 <= i < s.len()
            implies replace_list(s, x)[i] == replace_view(#[trigger] s[i], x) by {
            if i > 0 {
                assert(replace_list(s, x)[i] == replace_list(rest, x)[i - 1]);
                assert(rest[i - 1] == s[i]);
            }
        }
    }
}

/// Replacement keeps the root's id (the replacement carries the same id as
/// the node it replaces).
pub proof fn lemma_replace_nid(t: NodeView, x: NodeView)
    ensures
        replace_view(t, x).nid() == if t.nid() == x.nid() { x.nid() } else { t.nid() },
{
    if t.nid() != x.nid() {
        lemma_replace_list(t.child_seq(), x);
        lemma_rebuild(t, replace_list(t.child_seq(), x));
    }
}

/// Replacing an id that does not occur leaves the tree unchanged.
pub proof fn lemma_replace_absent(t: NodeView, x: NodeView)
    requires
        !contains_id(t, x.nid()),
    ensures
        replace_view(t, x) == t,
    decreases t.height(),
{
    lemma_contains_own_id(t);
    lemma_contains_decomp(t, x.nid());
    assert(t.nid() != x.nid());
    let cs = t.child_seq();
    lemma_child_height(t);
    lemma_replace_list(cs, x);
    assert forall|i: int| 0 <= i < cs.len()
        implies replace_view(#[trigger] cs[i], x) == cs[i] by {
        lemma_replace_absent(cs[i], x);
    }
    assert(replace_list(cs, x) =~= cs);
    lemma_rebuild_identity(t);
}

/// Two replacements that carry the same id collapse to the second one.
pub proof fn lemma_replace_twice(t: NodeView, a: NodeView, b: NodeView)
    requires
        a.nid() == b.nid(),
    ensures
        replace_view(replace_view(t, a), b) == replace_view(t, b),
    decreases t.height(),
{
    if t.nid() == a.nid() {
    } else {
        let cs = t.child_seq();
        lemma_child_height(t);
        lemma_replace_list(cs, a);
        lemma_replace_list(cs, b);
        let csa = replace_list(cs, a);
        lemma_rebuild(t, csa);
        let ta = t.rebuild(csa);
        assert(ta.child_seq() =~= csa);
        lemma_replace_list(csa, b);
        assert forall|i: int| 0 <= i < cs.len()
            implies replace_view(replace_view(#[trigger] cs[i], a), b)
                == replace_view(cs[i], b) by {
            lemma_replace_twice(cs[i], a, b);
        }
        assert forall|i: int| 0 <= i < cs.len()
            implies replace_list(csa, b)[i] == replace_list(cs, b)[i] by {
            assert(csa[i] == replace_view(cs[i], a));
            assert(replace_list(csa, b)[i] == replace_view(csa[i], b));
        }
        assert(replace_list(csa, b) =~= replace_list(cs, b));
        lemma_rebuild_twice(t, csa, replace_list(cs, b));
    }
}

/// Rebuilding twice keeps only the second set of children.
pub proof fn lemma_rebuild_twice(t: NodeView, cs1: Seq<NodeView>, cs2: Seq<NodeView>)
    requires
        cs1.len() == t.child_seq().len(),
        cs2.len() == t.child_seq().len(),
    ensures
        t.rebuild(cs1).rebuild(cs2) == t.rebuild(cs2),
{
    lemma_rebuild(t, cs1);
    match t {
        NodeView::Match { branches, .. } => {
            let bs1 = Seq::new(branches.len(), |i: int| BranchView {
                variant_id: branches[i].variant_id,
                body: cs1[i + 1],
            });
            let bs2 = Seq::new(branches.len(), |i: int| BranchView {
                variant_id: branches[i].variant_id,
                body: cs2[i + 1],
            });
            let bs12 = Seq::new(bs1.len(), |i: int| BranchView {
                variant_id: bs1[i].variant_id,
                body: cs2[i + 1],
            });
            assert(bs12 =~= bs2);
        },
        _ => {},
    }
}

/// Finding an id succeeds exactly when the id occurs, and the node found
/// carries that id.
pub proof fn lemma_find_contains(t: NodeView, id: ID)
    ensures
        find_view(t, id) is Some <==> contains_id(t, id),
        find_view(t, id) is Some ==> find_view(t, id).unwrap().nid() == id,
    decreases t.height(),
{
    lemma_contains_own_id(t);
    lemma_contains_decomp(t, id);
    let cs = t.child_seq();
    lemma_child_height(t);
    assert forall|i: int| 0 <= i < cs.len() implies
        (find_view(#[trigger] cs[i], id) is Some <==> contains_id(cs[i], id))
        && (find_view(cs[i], id) is Some ==> find_view(cs[i], id).unwrap().nid() == id) by {
        lemma_find_contains(cs[i], id);
    }
    if t.nid() != id {
        lemma_find_list_char(cs, id);
    }
}

pub proof fn lemma_find_list_char(s: Seq<NodeView>, id: ID)
    requires
        forall|i: int| 0 <= i < s.len() ==>
            (find_view(#[trigger] s[i], id) is Some <==> contains_id(s[i], id)),
    ensures
        find_list(s, id) is Some
            <==> exists|i: int| 0 <= i < s.len() && contains_id(#[trigger] s[i], id),
        find_list(s, id) is Some ==> exists|i: int| 0 <= i < s.len()
            && find_view(#[trigger] s[i], id) == Some(find_list(s, id).unwrap()),
    decreases s.len(),
{
    if s.len() > 0 {
        let rest = s.subrange(1, s.len() as int);
        assert forall|i: int| 0 <= i < rest.len() implies
            (find_view(#[trigger] rest[i], id) is Some <==> contains_id(rest[i], id)) by {
            assert(rest[i] == s[i + 1]);
        }
        lemma_find_list_char(rest, id);
        if find_view(s[0], id) is Some {
            assert(find_view(s[0], id) == Some(find_list(s, id).unwrap()));
        } else {
            if find_list(rest, id) is Some {
                let i = choose|i: int| 0 <= i < rest.len()
                    && find_view(#[trigger] rest[i], id) == Some(find_list(rest, id).unwrap());
                assert(find_view(s[i + 1], id) == Some(find_list(s, id).unwrap()));
            }
            if exists|i: int| 0 <= i < s.len() && contains_id(#[trigger] s[i], id) {
                let i = choose|i: int| 0 <= i < s.len() && contains_id(#[trigger] s[i], id);
                assert(i > 0);
                assert(contains_id(rest[i - 1], id));
            }
        }
    }
}

/// Replacing the node that `find_view` returns puts the tree back
/// unchanged.
pub proof fn lemma_replace_found(t: NodeView, id: ID)
    requires
        wf(t),
        contains_id(t, id),
    ensures
        replace_view(t, find_view(t, id).unwrap()) == t,
    decreases t.height(),
{
    lemma_find_contains(t, id);
    let x = find_view(t, id).unwrap();
    if t.nid() == id {
    } else {
        let cs = t.child_seq();
        lemma_child_height(t);
        lemma_wf_children(t);
        lemma_contains_decomp(t, id);
        assert forall|i: int| 0 <= i < cs.len() implies
            (find_view(#[trigger] cs[i], id) is Some <==> contains_id(cs[i], id)) by {
            lemma_find_contains(cs[i], id);
        }
        lemma_find_list_char(cs, id);
        let j = choose|j: int| 0 <= j < cs.len()
            && find_view(#[trigger] cs[j], id) == Some(x);
        lemma_find_contains(cs[j], id);
        lemma_replace_list(cs, x);
        assert forall|i: int| 0 <= i < cs.len()
            implies replace_view(#[trigger] cs[i], x) == cs[i] by {
            if i == j {
                lemma_replace_found(cs[j], id);
            } else {
                if contains_id(cs[i], id) {
                    if i < j {
                        assert(!contains_id(cs[j], id));
                    } else {
                        assert(!contains_id(cs[i], id));
                    }
                }
                lemma_replace_absent(cs[i], x);
            }
        }
        assert(replace_list(cs, x) =~= cs);
        lemma_rebuild_identity(t);
        assert(t.nid() != x.nid());
    }
}

/// A child list whose members are well formed and pairwise disjoint has
/// no duplicate ids.
pub proof fn lemma_ids_list_no_duplicates_intro(s: Seq<NodeView>)
    requires
        forall|i: int| 0 <= i < s.len() ==> wf(#[trigger] s[i]),
        forall|i: int, j: int, id: ID| 0 <= i < j < s.len()
            && #[trigger] contains_id(s[i], id) ==> !(#[trigger] contains_id(s[j], id)),
    ensures
        ids_list(s).no_duplicates(),
    decreases s.len(),
{
    if s.len() > 0 {
        let rest = s.subrange(1, s.len() as int);
        assert forall|i: int| 0 <= i < rest.len() implies wf(#[trigger] rest[i]) by {
            assert(rest[i] == s[i + 1]);
        }
        assert forall|i: int, j: int, id: ID| 0 <= i < j < rest.len()
            && #[trigger] contains_id(rest[i], id)
            implies !(#[trigger] contains_id(rest[j], id)) by {
            assert(rest[i] == s[i + 1] && rest[j] == s[j + 1]);
        }
        lemma_ids_list_no_duplicates_intro(rest);
        lemma_ids_list_contains(rest, s[0].nid());
        lemma_concat_no_duplicates(ids_seq(s[0]), ids_list(rest));
        assert forall|x: ID| ids_seq(s[0]).contains(x)
            implies !ids_list(rest).contains(x) by {
            lemma_ids_list_contains(rest, x);
            if ids_list(rest).contains(x) {
                let j = choose|j: int| 0 <= j < rest.len()
                    && contains_id(#[trigger] rest[j], x);
                assert(rest[j] == s[j + 1]);
                assert(contains_id(s[0], x));
                assert(!contains_id(s[j + 1], x));
            }
        }
    }
}

/// A node whose children are well formed, pairwise disjoint, and free of
/// the node's own id is well formed.
pub proof fn lemma_wf_compose(t: NodeView)
    requires
        forall|i: int| 0 <= i < t.child_seq().len() ==> wf(#[trigger] t.child_seq()[i]),
        forall|i: int, j: int, id: ID| 0 <= i < j < t.child_seq().len()
            && #[trigger] contains_id(t.child_seq()[i], id)
            ==> !(#[trigger] contains_id(t.child_seq()[j], id)),
        forall|i: int| 0 <= i < t.child_seq().len()
            ==> !contains_id(#[trigger] t.child_seq()[i], t.nid()),
    ensures
        wf(t),
{
    let cs = t.child_seq();
    lemma_ids_list_no_duplicates_intro(cs);
    lemma_concat_no_duplicates(seq![t.nid()], ids_list(cs));
    assert(seq![t.nid()].no_duplicates());
    assert forall|x: ID| seq![t.nid()].contains(x)
        implies !ids_list(cs).contains(x) by {
        assert(seq![t.nid()][0] == t.nid());
        lemma_ids_list_contains(cs, x);
        if ids_list(cs).contains(x) {
            let j = choose|j: int| 0 <= j < cs.len() && contains_id(#[trigger] cs[j], x);
        }
    }
}

/// A found subtree of a well-formed tree is well formed.
pub proof fn lemma_found_wf(t: NodeView, id: ID)
    requires
        wf(t),
    ensures
        find_view(t, id) matches Some(x) ==> wf(x),
    decreases t.height(),
{
    if find_view(t, id) is Some && t.nid() != id {
        let cs = t.child_seq();
        lemma_child_height(t);
        lemma_wf_children(t);
        assert forall|i: int| 0 <= i < cs.len() implies
            (find_view(#[trigger] cs[i], id) is Some <==> contains_id(cs[i], id)) by {
            lemma_find_contains(cs[i], id);
        }
        lemma_find_list_char(cs, id);
        let x = find_view(t, id).unwrap();
        let j = choose|j: int| 0 <= j < cs.len()
            && find_view(#[trigger] cs[j], id) == Some(x);
        lemma_found_wf(cs[j], id);
    }
}

/// Replacement preserves well-formedness when the replacement is well
/// formed and brings in only ids that are fresh or already sat inside
/// the subtree it replaces; the result's ids come from the tree or the
/// replacement.
pub proof fn lemma_replace_preserves_wf(t: NodeView, y: NodeView)
    requires
        wf(t),
        wf(y),
        contains_id(t, y.nid()),
        forall|id: ID| #[trigger] contains_id(y, id)
            ==> contains_id(find_view(t, y.nid()).unwrap(), id) || !contains_id(t, id),
    ensures
        wf(replace_view(t, y)),
        forall|id: ID| #[trigger] contains_id(replace_view(t, y), id)
            ==> contains_id(t, id) || contains_id(y, id),
    decreases t.height(),
{
    lemma_contains_own_id(t);
    lemma_find_contains(t, y.nid());
    if t.nid() == y.nid() {
        assert(find_view(t, y.nid()) == Some(t));
        assert(replace_view(t, y) == y);
    } else {
        let cs = t.child_seq();
        lemma_child_height(t);
        lemma_wf_children(t);
        lemma_contains_decomp(t, y.nid());
        lemma_replace_list(cs, y);
        let csr = replace_list(cs, y);
        lemma_rebuild(t, csr);
        let tr = t.rebuild(csr);
        assert(tr.child_seq() =~= csr);
        assert(tr.nid() == t.nid());
        let j = choose|j: int| 0 <= j < cs.len() && contains_id(#[trigger] cs[j], y.nid());

        // the subtree found at the top is the one found inside child j
        assert forall|i: int| 0 <= i < cs.len() implies
            (find_view(#[trigger] cs[i], y.nid()) is Some <==> contains_id(cs[i], y.nid()))
            by {
            lemma_find_contains(cs[i], y.nid());
        }
        lemma_find_list_char(cs, y.nid());
        let x = find_view(t, y.nid()).unwrap();
        let jf = choose|jf: int| 0 <= jf < cs.len()
            && find_view(#[trigger] cs[jf], y.nid()) == Some(x);
        lemma_find_contains(cs[jf], y.nid());
        assert(jf == j);
        assert(find_view(cs[j], y.nid()) == Some(x));

        // untouched children stay put
        assert forall|i: int| 0 <= i < cs.len() && i != j
            implies csr[i] == cs[i] by {
            if contains_id(cs[i], y.nid()) {
                if i < j {
                    assert(!contains_id(cs[j], y.nid()));
                } else {
                    assert(!contains_id(cs[i], y.nid()));
                }
            }
            lemma_replace_absent(cs[i], y);
        }

        // the changed child satisfies the induction hypothesis
        assert forall|id: ID| #[trigger] contains_id(y, id)
            implies contains_id(find_view(cs[j], y.nid()).unwrap(), id)
                || !contains_id(cs[j], id) by {
            if contains_id(cs[j], id) {
                lemma_contains_decomp(t, id);
                assert(contains_id(t, id));
            }
        }
        lemma_replace_preserves_wf(cs[j], y);
        assert(csr[j] == replace_view(cs[j], y));

        // every id of the changed child is an old id of that child or an
        // id of y; y's ids are in the old child or outside the tree
        lemma_found_subtree_contains(cs[j], y.nid());
        assert forall|id: ID| #[trigger] contains_id(csr[j], id)
            implies contains_id(cs[j], id) || !contains_id(t, id) by {
            if contains_id(y, id) && !contains_id(cs[j], id) {
                if contains_id(x, id) {
                    assert(contains_id(cs[j], id));
                }
            }
        }

        // children of the result are well formed and pairwise disjoint
        assert forall|i: int| 0 <= i < csr.len() implies wf(#[trigger] csr[i]) by {
            if i != j {
                assert(csr[i] == cs[i]);
            }
        }
        assert forall|i: int, k: int, id: ID| 0 <= i < k < csr.len()
            && #[trigger] contains_id(csr[i], id)
            implies !(#[trigger] contains_id(csr[k], id)) by {
            if i == j {
                if contains_id(csr[k], id) {
                    assert(csr[k] == cs[k]);
                    lemma_contains_decomp(t, id);
                    assert(contains_id(t, id));
                    assert(contains_id(cs[j], id));
                }
            } else if k == j {
                if contains_id(csr[k], id) {
                    assert(csr[i] == cs[i]);
                    lemma_contains_decomp(t, id);
                    assert(contains_id(t, id));
                    assert(contains_id(cs[j], id));
                }
            } else {
                assert(csr[i] == cs[i] && csr[k] == cs[k]);
            }
        }
        assert forall|i: int| 0 <= i < csr.len()
            implies !contains_id(#[trigger] csr[i], tr.nid()) by {
            if i == j {
                if contains_id(csr[j], t.nid()) {
                    assert(contains_id(cs[j], t.nid()) || !contains_id(t, t.nid()));
                }
            } else {
                assert(csr[i] == cs[i]);
            }
        }
        lemma_wf_compose(tr);

        // the result's ids come from the tree or the replacement
        assert forall|id: ID| #[trigger] contains_id(tr, id)
            implies contains_id(t, id) || contains_id(y, id) by {
            lemma_contains_decomp(tr, id);
            if tr.nid() != id {
                let i = choose|i: int| 0 <= i < csr.len()
                    && contains_id(#[trigger] csr[i], id);
                if i != j {
                    assert(csr[i] == cs[i]);
                    lemma_contains_decomp(t, id);
                } else {
                    assert(contains_id(cs[j], id) || contains_id(y, id));
                    if contains_id(cs[j], id) {
                        lemma_contains_decomp(t, id);
                    }
                }
            }
        }
    }
}

/// Whatever occurs in a found subtree occurs in the whole tree.
pub proof fn lemma_found_subtree_contains(t: NodeView, id: ID)
    ensures
        match find_view(t, id) {
            Some(x) => forall|y: ID| #[trigger] contains_id(x, y) ==> contains_id(t, y),
            None => true,
        },
    decreases t.height(),
{
    if find_view(t, id) is Some {
        let x = find_view(t, id).unwrap();
        if t.nid() == id {
        } else {
            let cs = t.child_seq();
            lemma_child_height(t);
            assert forall|i: int| 0 <= i < cs.len() implies
                (find_view(#[trigger] cs[i], id) is Some <==> contains_id(cs[i], id)) by {
                lemma_find_contains(cs[i], id);
            }
            lemma_find_list_char(cs, id);
            let j = choose|j: int| 0 <= j < cs.len()
                && find_view(#[trigger] cs[j], id) == Some(x);
            lemma_found_subtree_contains(cs[j], id);
            assert forall|y: ID| #[trigger] contains_id(x, y) implies contains_id(t, y) by {
                assert(contains_id(cs[j], y));
                lemma_contains_decomp(t, y);
            }
        }
    }
}

/// In a well-formed tree, the parent that `parent_view` returns is itself
/// a findable node of the tree, it holds the id, and it is not the node
/// with that id.
pub proof fn lemma_parent_found(t: NodeView, id: ID)
    requires
        wf(t),
    ensures
        match parent_view(t, id) {
            Some(p) => find_view(t, p.nid()) == Some(p) && contains_id(t, p.nid())
                && contains_id(p, id) && p.nid() != id,
            None => true,
        },
    decreases t.height(),
{
    if parent_view(t, id) is Some {
        let p = parent_view(t, id).unwrap();
        let cs = t.child_seq();
        lemma_child_height(t);
        lemma_wf_children(t);
        lemma_contains_own_id(t);
        // the id occurs, below the root
        if !contains_id(t, id) {
            lemma_parent_absent(t, id);
        }
        if t.nid() == id {
            assert forall|i: int| 0 <= i < cs.len()
                implies parent_view(#[trigger] cs[i], id) is None && cs[i].nid() != id by {
                if contains_id(cs[i], id) {
                    assert(contains_id(cs[i], t.nid()));
                }
                lemma_parent_absent(cs[i], id);
                lemma_contains_own_id(cs[i]);
            }
            lemma_parent_list_none(t, cs, id);
        }
        assert(t.nid() != id);
        lemma_contains_decomp(t, id);
        let j = choose|j: int| 0 <= j < cs.len() && contains_id(#[trigger] cs[j], id);
        assert forall|i: int| 0 <= i < cs.len() && i != j
            implies !contains_id(#[trigger] cs[i], id)
                && cs[i].nid() != id && parent_view(cs[i], id) is None by {
            if contains_id(cs[i], id) {
                if i < j {
                    assert(!contains_id(cs[j], id));
                } else {
                    assert(!contains_id(cs[i], id));
                }
            }
            lemma_contains_own_id(cs[i]);
            lemma_parent_absent(cs[i], id);
        }
        if cs[j].nid() == id {
            lemma_parent_list_hit(t, cs, id, j);
            assert(p == t);
        } else {
            lemma_parent_some(cs[j], id);
            lemma_parent_list_walk(t, cs, id, j);
            assert(parent_view(t, id) == parent_view(cs[j], id));
            lemma_parent_found(cs[j], id);
            assert(find_view(cs[j], p.nid()) == Some(p));
            // lift findability to the whole tree
            lemma_find_contains(cs[j], p.nid());
            assert(contains_id(cs[j], p.nid()));
            assert(t.nid() != p.nid());
            assert forall|i: int| 0 <= i < j
                implies find_view(#[trigger] cs[i], p.nid()) is None by {
                if contains_id(cs[i], p.nid()) {
                    assert(!contains_id(cs[j], p.nid()));
                }
                lemma_find_contains(cs[i], p.nid());
            }
            lemma_find_list_walk(cs, p.nid(), j);
            lemma_contains_decomp(t, p.nid());
        }
    }
}

/// An id that does not occur has no parent.
pub proof fn lemma_parent_absent(t: NodeView, id: ID)
    requires
        !contains_id(t, id),
    ensures
        parent_view(t, id) is None,
    decreases t.height(),
{
    lemma_contains_decomp(t, id);
    let cs = t.child_seq();
    lemma_child_height(t);
    assert forall|i: int| 0 <= i < cs.len()
        implies parent_view(#[trigger] cs[i], id) is None && cs[i].nid() != id by {
        lemma_parent_absent(cs[i], id);
        lemma_contains_own_id(cs[i]);
    }
    lemma_parent_list_none(t, cs, id);
}

/// An id that occurs below the root has a parent.
pub proof fn lemma_parent_some(t: NodeView, id: ID)
    requires
        contains_id(t, id),
        id != t.nid(),
    ensures
        parent_view(t, id) is Some,
    decreases t.height(),
{
    lemma_contains_decomp(t, id);
    let cs = t.child_seq();
    lemma_child_height(t);
    let j = choose|j: int| 0 <= j < cs.len() && contains_id(#[trigger] cs[j], id);
    if cs[j].nid() != id {
        lemma_parent_some(cs[j], id);
    }
    lemma_parent_list_some(t, cs, id, j);
}

proof fn lemma_parent_list_some(t: NodeView, s: Seq<NodeView>, id: ID, j: int)
    requires
        0 <= j < s.len(),
        s[j].nid() == id || parent_view(s[j], id) is Some,
    ensures
        parent_list(t, s, id) is Some,
    decreases s.len(),
{
    if s[0].nid() != id && parent_view(s[0], id) is None {
        let rest = s.subrange(1, s.len() as int);
        assert(j > 0);
        assert(rest[j - 1] == s[j]);
        lemma_parent_list_some(t, rest, id, j - 1);
    }
}

pub proof fn lemma_parent_list_walk(t: NodeView, s: Seq<NodeView>, id: ID, j: int)
    requires
        0 <= j < s.len(),
        forall|i: int| 0 <= i < j
            ==> (#[trigger] s[i]).nid() != id && parent_view(s[i], id) is None,
        s[j].nid() != id,
        parent_view(s[j], id) is Some,
    ensures
        parent_list(t, s, id) == parent_view(s[j], id),
    decreases s.len(),
{
    if j == 0 {
    } else {
        let rest = s.subrange(1, s.len() as int);
        assert(s[0].nid() != id && parent_view(s[0], id) is None);
        assert forall|i: int| 0 <= i < j - 1
            implies (#[trigger] rest[i]).nid() != id && parent_view(rest[i], id) is None by {
            assert(rest[i] == s[i + 1]);
        }
        assert(rest[j - 1] == s[j]);
        lemma_parent_list_walk(t, rest, id, j - 1);
    }
}

/// After a replacement brings a fresh id into a well-formed tree, that
/// id's parent is whatever its parent is inside the replacement.
pub proof fn lemma_parent_after_replace(t: NodeView, x: NodeView, id: ID)
    requires
        wf(t),
        contains_id(t, x.nid()),
        !contains_id(t, id),
        contains_id(x, id),
        id != x.nid(),
    ensures
        parent_view(replace_view(t, x), id) == parent_view(x, id),
    decreases t.height(),
{
    lemma_parent_some(x, id);
    if t.nid() == x.nid() {
    } else {
        let cs = t.child_seq();
        lemma_child_height(t);
        lemma_wf_children(t);
        lemma_contains_decomp(t, x.nid());
        lemma_contains_decomp(t, id);
        lemma_replace_list(cs, x);
        let csr = replace_list(cs, x);
        lemma_rebuild(t, csr);
        let tr = t.rebuild(csr);
        assert(tr.child_seq() =~= csr);
        let j = choose|j: int| 0 <= j < cs.len() && contains_id(#[trigger] cs[j], x.nid());
        assert forall|i: int| 0 <= i < cs.len() && i != j
            implies csr[i] == cs[i] && !contains_id(csr[i], id)
                && csr[i].nid() != id && parent_view(csr[i], id) is None by {
            if contains_id(cs[i], x.nid()) {
                if i < j {
                    assert(!contains_id(cs[j], x.nid()));
                } else {
                    assert(!contains_id(cs[i], x.nid()));
                }
            }
            lemma_replace_absent(cs[i], x);
            lemma_contains_own_id(cs[i]);
            lemma_parent_absent(cs[i], id);
        }
        if cs[j].nid() == x.nid() {
            assert(csr[j] == x);
        } else {
            lemma_parent_after_replace(cs[j], x, id);
        }
        lemma_replace_nid(cs[j], x);
        lemma_contains_own_id(cs[j]);
        assert(csr[j].nid() != id);
        assert(parent_view(csr[j], id) == parent_view(x, id));
        lemma_parent_list_walk(tr, csr, id, j);
        assert(parent_list(tr, tr.child_seq(), id) == parent_list(tr, csr, id));
    }
}

pub proof fn lemma_parent_list_none(t: NodeView, s: Seq<NodeView>, id: ID)
    requires
        forall|i: int| 0 <= i < s.len()
            ==> parent_view(#[trigger] s[i], id) is None && s[i].nid() != id,
    ensures
        parent_list(t, s, id) is None,
    decreases s.len(),
{
    if s.len() > 0 {
        let rest = s.subrange(1, s.len() as int);
        assert forall|i: int| 0 <= i < rest.len()
            implies parent_view(#[trigger] rest[i], id) is None && rest[i].nid() != id by {
            assert(rest[i] == s[i + 1]);
        }
        lemma_parent_list_none(t, rest, id);
    }
}

pub proof fn lemma_parent_list_hit(t: NodeView, s: Seq<NodeView>, id: ID, j: int)
    requires
        0 <= j < s.len(),
        forall|i: int| 0 <= i < j
            ==> (#[trigger] s[i]).nid() != id && parent_view(s[i], id) is None,
        s[j].nid() == id,
    ensures
        parent_list(t, s, id) == Some(t),
    decreases s.len(),
{
    if j > 0 {
        let rest = s.subrange(1, s.len() as int);
        assert(s[0].nid() != id && parent_view(s[0], id) is None);
        assert forall|i: int| 0 <= i < j - 1
            implies (#[trigger] rest[i]).nid() != id && parent_view(rest[i], id) is None by {
            assert(rest[i] == s[i + 1]);
        }
        assert(rest[j - 1] == s[j]);
        lemma_parent_list_hit(t, rest, id, j - 1);
    }
}

pub proof fn lemma_find_list_none(s: Seq<NodeView>, id: ID)
    requires
        forall|i: int| 0 <= i < s.len() ==> find_view(#[trigger] s[i], id) is None,
    ensures
        find_list(s, id) is None,
    decreases s.len(),
{
    if s.len() > 0 {
        let rest = s.subrange(1, s.len() as int);
        assert forall|i: int| 0 <= i < rest.len()
            implies find_view(#[trigger] rest[i], id) is None by {
            assert(rest[i] == s[i + 1]);
        }
        lemma_find_list_none(rest, id);
    }
}

pub proof fn lemma_find_list_walk(s: Seq<NodeView>, id: ID, j: int)
    requires
        0 <= j < s.len(),
        forall|i: int| 0 <= i < j ==> find_view(#[trigger] s[i], id) is None,
        find_view(s[j], id) is Some,
    ensures
        find_list(s, id) == find_view(s[j], id),
    decreases s.len(),
{
    if j > 0 {
        let rest = s.subrange(1, s.len() as int);
        assert(find_view(s[0], id) is None);
        assert forall|i: int| 0 <= i < j - 1
            implies find_view(#[trigger] rest[i], id) is None by {
            assert(rest[i] == s[i + 1]);
        }
        assert(rest[j - 1] == s[j]);
        lemma_find_list_walk(rest, id, j - 1);
    }
}

// ---------------------------------------------------------------------------
// Bridging the executable nodes to their views
// ---------------------------------------------------------------------------

/// `node_views` maps the view over every element.
pub proof fn lemma_node_views(s: Seq<CodeNode>)
    ensures
        node_views(s).len() == s.len(),
        forall|i: int| 0 <= i < s.len() ==> node_views(s)[i] == node_view(#[trigger] s[i]),
    decreases s.len(),
{
    if s.len() > 0 {
        let rest = s.subrange(1, s.len() as int);
        lemma_node_views(rest);
        assert forall|i: int| 0 <= i < s.len()
            implies node_views(s)[i] == node_view(#[trigger] s[i]) by {
            if i > 0 {
                assert(node_views(s)[i] == node_views(rest)[i - 1]);
                assert(rest[i - 1] == s[i]);
            }
        }
    }
}

/// `branch_views` maps the view over every branch.
pub proof fn lemma_branch_views(bs: Seq<MatchBranch>)
    ensures
        branch_views(bs).len() == bs.len(),
        forall|i: int| 0 <= i < bs.len() ==> branch_views(bs)[i]
            == (BranchView {
                variant_id: (#[trigger] bs[i]).variant_id,
                body: node_view(bs[i].body),
            }),
    decreases bs.len(),
{
    if bs.len() > 0 {
        let rest = bs.subrange(1, bs.len() as int);
        lemma_branch_views(rest);
        assert forall|i: int| 0 <= i < bs.len()
            implies branch_views(bs)[i] == (BranchView {
                variant_id: (#[trigger] bs[i]).variant_id,
                body: node_view(bs[i].body),
            }) by {
            if i > 0 {
                assert(branch_views(bs)[i] == branch_views(rest)[i - 1]);
                assert(rest[i - 1] == bs[i]);
            }
        }
    }
}

/// `type_views` maps the view over every element.
pub proof fn lemma_type_views(s: Seq<Type>)
    ensures
        type_views(s).len() == s.len(),
        forall|i: int| 0 <= i < s.len() ==> type_views(s)[i] == type_view(#[trigger] s[i]),
    decreases s.len(),
{
    if s.len() > 0 {
        let rest = s.subrange(1, s.len() as int);
        lemma_type_views(rest);
        assert forall|i: int| 0 <= i < s.len()
            implies type_views(s)[i] == type_view(#[trigger] s[i]) by {
            if i > 0 {
                assert(type_views(s)[i] == type_views(rest)[i - 1]);
                assert(rest[i - 1] == s[i]);
            }
        }
    }
}

/// Two node lists that agree view by view have the same view.
pub proof fn lemma_node_views_ext(s1: Seq<CodeNode>, s2: Seq<CodeNode>)
    requires
        s1.len() == s2.len(),
        forall|i: int| 0 <= i < s1.len()
            ==> node_view(#[trigger] s1[i]) == node_view(s2[i]),
    ensures
        node_views(s1) == node_views(s2),
{
    lemma_node_views(s1);
    lemma_node_views(s2);
    assert forall|i: int| 0 <= i < s1.len()
        implies node_views(s1)[i] == node_views(s2)[i] by {
        assert(node_view(s1[i]) == node_view(s2[i]));
    }
    assert(node_views(s1) =~= node_views(s2));
}

// ---------------------------------------------------------------------------
// Executable tree operations
// ---------------------------------------------------------------------------

impl Type {
    /// A structurally equal copy.
    pub fn duplicate(&self) -> (r: Type)
        ensures
            r@ == self@,
        decreases *self,
    {
        let r = Type { typespec_id: self.typespec_id, params: duplicate_types(&self.params) };
        proof {
            lemma_type_views(r.params@);
            lemma_type_views(self.params@);
            assert forall|i: int| 0 <= i < r.params@.len()
                implies type_views(r.params@)[i] == type_views(self.params@)[i] by {
                assert(r.params@[i]@ == self.params@[i]@);
            }
            assert(type_views(r.params@) =~= type_views(self.params@));
        }
        r
    }
}

fn duplicate_types(items: &Vec<Type>) -> (r: Vec<Type>)
    ensures
        r@.len() == items@.len(),
        forall|i: int| 0 <= i < items@.len() ==> (#[trigger] r@[i])@ == items@[i]@,
    decreases items@,
{
    let mut r: Vec<Type> = Vec::new();
    let mut i: usize = 0;
    while i < items.len()
        invariant
            i <= items@.len(),
            r@.len() == i,
            forall|k: int| 0 <= k < i ==> (#[trigger] r@[k])@ == items@[k]@,
        decreases items@.len() - i,
    {
        r.push(items[i].duplicate());
        i = i + 1;
    }
    r
}

impl ArgumentDefinition {
    /// A structurally equal copy.
    pub fn duplicate(&self) -> (r: ArgumentDefinition)
        ensures
            r@ == self@,
    {
        ArgumentDefinition {
            id: self.id,
            arg_type: self.arg_type.duplicate(),
            short_name: self.short_name.clone(),
        }
    }
}

/// The display caption of a node, by kind; dynamic content is appended
/// for the kinds that carry a name or a value.
pub open spec fn description_view(n: NodeView) -> Seq<char> {
    match n {
        NodeView::FunctionCall { .. } => "Function call"@,
        NodeView::FunctionReference { .. } => "Function reference"@,
        NodeView::Argument { .. } => "Argument"@,
        NodeView::StringLiteral { value, .. } => "String literal: "@ + value,
        NodeView::NumberLiteral { .. } => "Number literal"@,
        NodeView::NullLiteral { .. } => "Null literal"@,
        NodeView::Assignment { name, .. } => "Assignment: "@ + name,
        NodeView::Block { .. } => "Block"@,
        NodeView::VariableReference { .. } => "Variable reference"@,
        NodeView::Placeholder { description, .. } => "Placeholder: "@ + description,
        NodeView::StructLiteral { .. } => "Struct literal"@,
        NodeView::StructLiteralField { .. } => "Struct literal field"@,
        NodeView::Conditional { .. } => "Conditional"@,
        NodeView::ListLiteral { .. } => "List literal"@,
        NodeView::Match { .. } => "Match"@,
        NodeView::AnonymousFunction { .. } => "Anonymous function"@,
    }
}

impl CodeNode {
    /// The caption shown for the node.
    pub fn description(&self) -> (r: String)
        ensures
            r@ == description_view(self@),
    {
        match self {
            CodeNode::FunctionCall(_) => "Function call".to_owned(),
            CodeNode::FunctionReference(_) => "Function reference".to_owned(),
            CodeNode::Argument(_) => "Argument".to_owned(),
            CodeNode::StringLiteral(s) =>
                "String literal: ".to_owned().concat(s.value.as_str()),
            CodeNode::NumberLiteral(_) => "Number literal".to_owned(),
            CodeNode::NullLiteral(_) => "Null literal".to_owned(),
            CodeNode::Assignment(a) => "Assignment: ".to_owned().concat(a.name.as_str()),
            CodeNode::Block(_) => "Block".to_owned(),
            CodeNode::VariableReference(_) => "Variable reference".to_owned(),
            CodeNode::Placeholder(p) =>
                "Placeholder: ".to_owned().concat(p.description.as_str()),
            CodeNode::StructLiteral(_) => "Struct literal".to_owned(),
            CodeNode::StructLiteralField(_) => "Struct literal field".to_owned(),
            CodeNode::Conditional(_) => "Conditional".to_owned(),
            CodeNode::ListLiteral(_) => "List literal".to_owned(),
            CodeNode::Match(_) => "Match".to_owned(),
            CodeNode::AnonymousFunction(_) => "Anonymous function".to_owned(),
        }
    }

    /// The id the node carries.
    pub fn id(&self) -> (r: ID)
        ensures
            r == self@.nid(),
    {
        match self {
            CodeNode::FunctionCall(fc) => fc.id,
            CodeNode::FunctionReference(fr) => fr.id,
            CodeNode::Argument(a) => a.id,
            CodeNode::StringLiteral(s) => s.id,
            CodeNode::NumberLiteral(n) => n.id,
            CodeNode::NullLiteral(id) => *id,
            CodeNode::Assignment(a) => a.id,
            CodeNode::Block(b) => b.id,
            CodeNode::VariableReference(vr) => vr.id,
            CodeNode::Placeholder(p) => p.id,
            CodeNode::StructLiteral(sl) => sl.id,
            CodeNode::StructLiteralField(f) => f.id,
            CodeNode::Conditional(c) => c.id,
            CodeNode::ListLiteral(l) => l.id,
            CodeNode::Match(m) => m.id,
            CodeNode::AnonymousFunction(af) => af.id,
        }
    }

    /// A structurally equal copy of the whole subtree.
    pub fn duplicate(&self) -> (r: CodeNode)
        ensures
            r@ == self@,
        decreases *self,
    {
        match self {
            CodeNode::FunctionCall(fc) => {
                let args = duplicate_nodes(&fc.args);
                proof { lemma_node_views_ext(args@, fc.args@); }
                CodeNode::FunctionCall(FunctionCall {
                    id: fc.id,
                    function_reference: Box::new(fc.function_reference.duplicate()),
                    args,
                })
            },
            CodeNode::FunctionReference(fr) => CodeNode::FunctionReference(FunctionReference {
                id: fr.id,
                function_id: fr.function_id,
            }),
            CodeNode::Argument(a) => CodeNode::Argument(Argument {
                id: a.id,
                argument_definition_id: a.argument_definition_id,
                expr: Box::new(a.expr.duplicate()),
            }),
            CodeNode::StringLiteral(s) => CodeNode::StringLiteral(StringLiteral {
                id: s.id,
                value: s.value.clone(),
            }),
            CodeNode::NumberLiteral(n) => CodeNode::NumberLiteral(NumberLiteral {
                id: n.id,
                value: n.value,
            }),
            CodeNode::NullLiteral(id) => CodeNode::NullLiteral(*id),
            CodeNode::Assignment(a) => CodeNode::Assignment(Assignment {
                id: a.id,
                name: a.name.clone(),
                expression: Box::new(a.expression.duplicate()),
            }),
            CodeNode::Block(b) => {
                let expressions = duplicate_nodes(&b.expressions);
                proof { lemma_node_views_ext(expressions@, b.expressions@); }
                CodeNode::Block(Block { id: b.id, expressions })
            },
            CodeNode::VariableReference(vr) => CodeNode::VariableReference(VariableReference {
                id: vr.id,
                assignment_id: vr.assignment_id,
            }),
            CodeNode::Placeholder(p) => CodeNode::Placeholder(Placeholder {
                id: p.id,
                description: p.description.clone(),
                typ: p.typ.duplicate(),
            }),
            CodeNode::StructLiteral(sl) => {
                let fields = duplicate_nodes(&sl.fields);
                proof { lemma_node_views_ext(fields@, sl.fields@); }
                CodeNode::StructLiteral(StructLiteral {
                    id: sl.id,
                    struct_id: sl.struct_id,
                    fields,
                })
            },
            CodeNode::StructLiteralField(f) => CodeNode::StructLiteralField(StructLiteralField {
                id: f.id,
                struct_field_id: f.struct_field_id,
                expr: Box::new(f.expr.duplicate()),
            }),
            CodeNode::Conditional(c) => CodeNode::Conditional(Conditional {
                id: c.id,
                condition: Box::new(c.condition.duplicate()),
                true_branch: Box::new(c.true_branch.duplicate()),
                false_branch: Box::new(c.false_branch.duplicate()),
            }),
            CodeNode::ListLiteral(l) => {
                let elements = duplicate_nodes(&l.elements);
                proof { lemma_node_views_ext(elements@, l.elements@); }
                CodeNode::ListLiteral(ListLiteral {
                    id: l.id,
                    element_type: l.element_type.duplicate(),
                    elements,
                })
            },
            CodeNode::Match(m) => {
                let branches = duplicate_branches(&m.branches);
                proof {
                    lemma_branch_views(branches@);
                    lemma_branch_views(m.branches@);
                    assert forall|i: int| 0 <= i < branches@.len()
                        implies branch_views(branches@)[i] == branch_views(m.branches@)[i] by {
                        assert(branches@[i].variant_id == m.branches@[i].variant_id);
                        assert(node_view(branches@[i].body) == node_view(m.branches@[i].body));
                    }
                    assert(branch_views(branches@) =~= branch_views(m.branches@));
                }
                CodeNode::Match(Match {
                    id: m.id,
                    scrutinee: Box::new(m.scrutinee.duplicate()),
                    branches,
                })
            },
            CodeNode::AnonymousFunction(af) => CodeNode::AnonymousFunction(AnonymousFunction {
                id: af.id,
                takes_arg: af.takes_arg.duplicate(),
                block: Box::new(af.block.duplicate()),
            }),
        }
    }
}

/// A structurally equal copy of a node list.
pub fn duplicate_nodes_public(items: &Vec<CodeNode>) -> (r: Vec<CodeNode>)
    ensures
        r@.len() == items@.len(),
        forall|i: int| 0 <= i < items@.len()
            ==> node_view(#[trigger] r@[i]) == node_view(items@[i]),
{
    duplicate_nodes(items)
}

fn duplicate_nodes(items: &Vec<CodeNode>) -> (r: Vec<CodeNode>)
    ensures
        r@.len() == items@.len(),
        forall|i: int| 0 <= i < items@.len()
            ==> node_view(#[trigger] r@[i]) == node_view(items@[i]),
    decreases items@,
{
    let mut r: Vec<CodeNode> = Vec::new();
    let mut i: usize = 0;
    while i < items.len()
        invariant
            i <= items@.len(),
            r@.len() == i,
            forall|k: int| 0 <= k < i ==> node_view(#[trigger] r@[k]) == node_view(items@[k]),
        decreases items@.len() - i,
    {
        r.push(items[i].duplicate());
        i = i + 1;
    }
    r
}

fn duplicate_branches(items: &Vec<MatchBranch>) -> (r: Vec<MatchBranch>)
    ensures
        r@.len() == items@.len(),
        forall|i: int| 0 <= i < items@.len()
            ==> (#[trigger] r@[i]).variant_id == items@[i].variant_id
                && node_view(r@[i].body) == node_view(items@[i].body),
    decreases items@,
{
    let mut r: Vec<MatchBranch> = Vec::new();
    let mut i: usize = 0;
    while i < items.len()
        invariant
            i <= items@.len(),
            r@.len() == i,
            forall|k: int| 0 <= k < i
                ==> (#[trigger] r@[k]).variant_id == items@[k].variant_id
                    && node_view(r@[k].body) == node_view(items@[k].body),
        decreases items@.len() - i,
    {
        let b = &items[i];
        r.push(MatchBranch { variant_id: b.variant_id, body: b.body.duplicate() });
        i = i + 1;
    }
    r
}

fn push_refs<'a>(out: &mut Vec<&'a CodeNode>, items: &'a Vec<CodeNode>)
    ensures
        final(out)@.len() == old(out)@.len() + items@.len(),
        forall|k: int| 0 <= k < old(out)@.len() ==> final(out)@[k] == old(out)@[k],
        forall|k: int| old(out)@.len() <= k < final(out)@.len()
            ==> node_view(*(#[trigger] final(out)@[k]))
                == node_view(items@[k - old(out)@.len()]),
{
    let mut i: usize = 0;
    while i < items.len()
        invariant
            i <= items@.len(),
            out@.len() == old(out)@.len() + i,
            forall|k: int| 0 <= k < old(out)@.len() ==> out@[k] == old(out)@[k],
            forall|k: int| old(out)@.len() <= k < out@.len()
                ==> node_view(*(#[trigger] out@[k]))
                    == node_view(items@[k - old(out)@.len()]),
        decreases items@.len() - i,
    {
        out.push(&items[i]);
        i = i + 1;
    }
}

fn push_branch_refs<'a>(out: &mut Vec<&'a CodeNode>, items: &'a Vec<MatchBranch>)
    ensures
        final(out)@.len() == old(out)@.len() + items@.len(),
        forall|k: int| 0 <= k < old(out)@.len() ==> final(out)@[k] == old(out)@[k],
        forall|k: int| old(out)@.len() <= k < final(out)@.len()
            ==> node_view(*(#[trigger] final(out)@[k]))
                == node_view(items@[k - old(out)@.len()].body),
{
    let mut i: usize = 0;
    while i < items.len()
        invariant
            i <= items@.len(),
            out@.len() == old(out)@.len() + i,
            forall|k: int| 0 <= k < old(out)@.len() ==> out@[k] == old(out)@[k],
            forall|k: int| old(out)@.len() <= k < out@.len()
                ==> node_view(*(#[trigger] out@[k]))
                    == node_view(items@[k - old(out)@.len()].body),
        decreases items@.len() - i,
    {
        out.push(&items[i].body);
        i = i + 1;
    }
}

impl CodeNode {
    /// The node's direct children, in traversal order.
    pub fn children(&self) -> (r: Vec<&CodeNode>)
        ensures
            r@.len() == self@.child_seq().len(),
            forall|i: int| 0 <= i < r@.len()
                ==> node_view(*(#[trigger] r@[i])) == self@.child_seq()[i],
    {
        let mut v: Vec<&CodeNode> = Vec::new();
        match self {
            CodeNode::FunctionCall(fc) => {
                v.push(&*fc.function_reference);
                push_refs(&mut v, &fc.args);
                proof {
                    lemma_node_views(fc.args@);
                    assert(self@ == NodeView::FunctionCall {
                        id: fc.id,
                        function_reference: Box::new(node_view(*fc.function_reference)),
                        args: node_views(fc.args@),
                    });
                    let cs = seq![node_view(*fc.function_reference)] + node_views(fc.args@);
                    assert(self@.child_seq() == cs);
                    assert forall|i: int| 0 <= i < v@.len()
                        implies node_view(*v@[i]) == self@.child_seq()[i] by {
                        if i > 0 {
                            assert(cs[i] == node_views(fc.args@)[i - 1]);
                        }
                    }
                }
            },
            CodeNode::Argument(a) => { v.push(&*a.expr); },
            CodeNode::Assignment(a) => { v.push(&*a.expression); },
            CodeNode::Block(b) => {
                push_refs(&mut v, &b.expressions);
                proof {
                    lemma_node_views(b.expressions@);
                    assert(self@.child_seq() == node_views(b.expressions@));
                    assert forall|i: int| 0 <= i < v@.len()
                        implies node_view(*v@[i]) == self@.child_seq()[i] by {
                        assert(self@.child_seq()[i] == node_views(b.expressions@)[i]);
                    }
                }
            },
            CodeNode::StructLiteral(sl) => {
                push_refs(&mut v, &sl.fields);
                proof {
                    lemma_node_views(sl.fields@);
                    assert(self@.child_seq() == node_views(sl.fields@));
                    assert forall|i: int| 0 <= i < v@.len()
                        implies node_view(*v@[i]) == self@.child_seq()[i] by {
                        assert(self@.child_seq()[i] == node_views(sl.fields@)[i]);
                    }
                }
            },
            CodeNode::StructLiteralField(f) => { v.push(&*f.expr); },
            CodeNode::Conditional(c) => {
                v.push(&*c.condition);
                v.push(&*c.true_branch);
                v.push(&*c.false_branch);
            },
            CodeNode::ListLiteral(l) => {
                push_refs(&mut v, &l.elements);
                proof {
                    lemma_node_views(l.elements@);
                    assert(self@.child_seq() == node_views(l.elements@));
                    assert forall|i: int| 0 <= i < v@.len()
                        implies node_view(*v@[i]) == self@.child_seq()[i] by {
                        assert(self@.child_seq()[i] == node_views(l.elements@)[i]);
                    }
                }
            },
            CodeNode::Match(m) => {
                v.push(&*m.scrutinee);
                push_branch_refs(&mut v, &m.branches);
                proof {
                    lemma_branch_views(m.branches@);
                    let mapped = branch_views(m.branches@)
                        .map_values(|b: BranchView| b.body);
                    assert forall|k: int| 0 <= k < m.branches@.len()
                        implies mapped[k] == node_view(m.branches@[k].body) by {
                        assert(mapped[k] == branch_views(m.branches@)[k].body);
                    }
                    let cs = seq![node_view(*m.scrutinee)] + mapped;
                    assert(self@.child_seq() == cs);
                    assert forall|i: int| 0 <= i < v@.len()
                        implies node_view(*v@[i]) == self@.child_seq()[i] by {
                        if i > 0 {
                            assert(cs[i] == mapped[i - 1]);
                            assert(node_view(*v@[i]) == node_view(m.branches@[i - 1].body));
                        }
                    }
                }
            },
            CodeNode::AnonymousFunction(af) => { v.push(&*af.block); },
            _ => {},
        }
        v
    }

    /// Depth-first search for the node with the given id.
    pub fn find_node(&self, id: ID) -> (r: Option<&CodeNode>)
        ensures
            match r {
                Some(n) => find_view(self@, id) == Some(n@),
                None => find_view(self@, id) is None,
            },
        decreases self@.height(),
    {
        if self.id() == id {
            return Some(self);
        }
        let kids = self.children();
        let ghost cs = self@.child_seq();
        let mut i: usize = 0;
        while i < kids.len()
            invariant
                i <= kids@.len(),
                kids@.len() == cs.len(),
                cs == self@.child_seq(),
                self@.nid() != id,
                forall|k: int| 0 <= k < kids@.len()
                    ==> node_view(*(#[trigger] kids@[k])) == cs[k],
                forall|k: int| 0 <= k < i ==> find_view(#[trigger] cs[k], id) is None,
            decreases kids@.len() - i,
        {
            proof { lemma_child_height(self@); }
            let kid: &CodeNode = kids[i];
            match kid.find_node(id) {
                Some(n) => {
                    proof { lemma_find_list_walk(cs, id, i as int); }
                    return Some(n);
                },
                None => {},
            }
            i = i + 1;
        }
        proof { lemma_find_list_none(cs, id); }
        None
    }

    /// Depth-first search for the parent of the node with the given id.
    pub fn find_parent(&self, id: ID) -> (r: Option<&CodeNode>)
        ensures
            match r {
                Some(p) => parent_view(self@, id) == Some(p@),
                None => parent_view(self@, id) is None,
            },
        decreases self@.height(),
    {
        let kids = self.children();
        let ghost cs = self@.child_seq();
        let mut i: usize = 0;
        while i < kids.len()
            invariant
                i <= kids@.len(),
                kids@.len() == cs.len(),
                cs == self@.child_seq(),
                forall|k: int| 0 <= k < kids@.len()
                    ==> node_view(*(#[trigger] kids@[k])) == cs[k],
                forall|k: int| 0 <= k < i
                    ==> (#[trigger] cs[k]).nid() != id && parent_view(cs[k], id) is None,
            decreases kids@.len() - i,
        {
            proof { lemma_child_height(self@); }
            let kid: &CodeNode = kids[i];
            if kid.id() == id {
                proof { lemma_parent_list_hit(self@, cs, id, i as int); }
                return Some(self);
            }
            match kid.find_parent(id) {
                Some(p) => {
                    proof { lemma_parent_list_walk(self@, cs, id, i as int); }
                    return Some(p);
                },
                None => {},
            }
            i = i + 1;
        }
        proof { lemma_parent_list_none(self@, cs, id); }
        None
    }

    /// The tree with the node carrying `code_node`'s id replaced by
    /// `code_node`; used by every mutation to splice a changed subtree
    /// back into a fresh root.
    pub fn replace(&mut self, code_node: &CodeNode)
        ensures
            final(self)@ == replace_view(old(self)@, code_node@),
    {
        let r = self.replaced(code_node);
        *self = r;
    }

    /// The replacement as a new tree, leaving this one untouched.
    pub fn replaced(&self, x: &CodeNode) -> (r: CodeNode)
        ensures
            r@ == replace_view(self@, x@),
        decreases *self,
    {
        if self.id() == x.id() {
            return x.duplicate();
        }
        let ghost cs = self@.child_seq();
        proof { lemma_replace_list(cs, x@); }
        let r = match self {
            CodeNode::FunctionCall(fc) => {
                let args = replaced_nodes(&fc.args, x);
                proof {
                    lemma_node_views(args@);
                    lemma_node_views(fc.args@);
                    let mapped = node_views(fc.args@)
                        .map_values(|a: NodeView| replace_view(a, x@));
                    assert forall|i: int| 0 <= i < args@.len()
                        implies node_views(args@)[i] == mapped[i] by {
                        assert(node_view(args@[i])
                            == replace_view(node_view(fc.args@[i]), x@));
                    }
                    assert(node_views(args@) =~= mapped);
                }
                CodeNode::FunctionCall(FunctionCall {
                    id: fc.id,
                    function_reference: Box::new(fc.function_reference.replaced(x)),
                    args,
                })
            },
            CodeNode::Argument(a) => CodeNode::Argument(Argument {
                id: a.id,
                argument_definition_id: a.argument_definition_id,
                expr: Box::new(a.expr.replaced(x)),
            }),
            CodeNode::Assignment(a) => CodeNode::Assignment(Assignment {
                id: a.id,
                name: a.name.clone(),
                expression: Box::new(a.expression.replaced(x)),
            }),
            CodeNode::Block(b) => {
                let expressions = replaced_nodes(&b.expressions, x);
                proof {
                    lemma_node_views(expressions@);
                    lemma_node_views(b.expressions@);
                    let mapped = node_views(b.expressions@)
                        .map_values(|a: NodeView| replace_view(a, x@));
                    assert forall|i: int| 0 <= i < expressions@.len()
                        implies node_views(expressions@)[i] == mapped[i] by {
                        assert(node_view(expressions@[i])
                            == replace_view(node_view(b.expressions@[i]), x@));
                    }
                    assert(node_views(expressions@) =~= mapped);
                }
                CodeNode::Block(Block { id: b.id, expressions })
            },
            CodeNode::StructLiteral(sl) => {
                let fields = replaced_nodes(&sl.fields, x);
                proof {
                    lemma_node_views(fields@);
                    lemma_node_views(sl.fields@);
                    let mapped = node_views(sl.fields@)
                        .map_values(|a: NodeView| replace_view(a, x@));
                    assert forall|i: int| 0 <= i < fields@.len()
                        implies node_views(fields@)[i] == mapped[i] by {
                        assert(node_view(fields@[i])
                            == replace_view(node_view(sl.fields@[i]), x@));
                    }
                    assert(node_views(fields@) =~= mapped);
                }
                CodeNode::StructLiteral(StructLiteral {
                    id: sl.id,
                    struct_id: sl.struct_id,
                    fields,
                })
            },
            CodeNode::StructLiteralField(f) => CodeNode::StructLiteralField(StructLiteralField {
                id: f.id,
                struct_field_id: f.struct_field_id,
                expr: Box::new(f.expr.replaced(x)),
            }),
            CodeNode::Conditional(c) => CodeNode::Conditional(Conditional {
                id: c.id,
                condition: Box::new(c.condition.replaced(x)),
                true_branch: Box::new(c.true_branch.replaced(x)),
                false_branch: Box::new(c.false_branch.replaced(x)),
            }),
            CodeNode::ListLiteral(l) => {
                let elements = replaced_nodes(&l.elements, x);
                proof {
                    lemma_node_views(elements@);
                    lemma_node_views(l.elements@);
                    let mapped = node_views(l.elements@)
                        .map_values(|a: NodeView| replace_view(a, x@));
                    assert forall|i: int| 0 <= i < elements@.len()
                        implies node_views(elements@)[i] == mapped[i] by {
                        assert(node_view(elements@[i])
                            == replace_view(node_view(l.elements@[i]), x@));
                    }
                    assert(node_views(elements@) =~= mapped);
                }
                CodeNode::ListLiteral(ListLiteral {
                    id: l.id,
                    element_type: l.element_type.duplicate(),
                    elements,
                })
            },
            CodeNode::Match(m) => {
                let branches = replaced_branches(&m.branches, x);
                proof {
                    lemma_branch_views(branches@);
                    lemma_branch_views(m.branches@);
                    let mapped = branch_views(m.branches@)
                        .map_values(|b: BranchView| BranchView {
                            variant_id: b.variant_id,
                            body: replace_view(b.body, x@),
                        });
                    assert forall|i: int| 0 <= i < branches@.len()
                        implies branch_views(branches@)[i] == mapped[i] by {
                        assert(branches@[i].variant_id == m.branches@[i].variant_id);
                        assert(node_view(branches@[i].body)
                            == replace_view(node_view(m.branches@[i].body), x@));
                    }
                    assert(branch_views(branches@) =~= mapped);
                }
                CodeNode::Match(Match {
                    id: m.id,
                    scrutinee: Box::new(m.scrutinee.replaced(x)),
                    branches,
                })
            },
            CodeNode::AnonymousFunction(af) => CodeNode::AnonymousFunction(AnonymousFunction {
                id: af.id,
                takes_arg: af.takes_arg.duplicate(),
                block: Box::new(af.block.replaced(x)),
            }),
            _ => self.duplicate(),
        };
        proof { lemma_replaced_view(self@, x@, r@); }
        r
    }
}

/// The per-variant equalities that close the gap between the executable
/// reconstruction in `replaced` and `replace_view`'s `rebuild`.
proof fn lemma_replaced_view(t: NodeView, x: NodeView, r: NodeView)
    requires
        t.nid() != x.nid(),
        replaced_arm_matches(t, x, r),
    ensures
        r == replace_view(t, x),
{
    let cs = t.child_seq();
    let csr = replace_list(cs, x);
    lemma_replace_list(cs, x);
    match t {
        NodeView::FunctionCall { id, function_reference, args, .. } => {
            assert(cs[0] == *function_reference);
            assert forall|i: int| 0 <= i < args.len()
                implies csr[i + 1] == replace_view(#[trigger] args[i], x) by {
                assert(cs[i + 1] == args[i]);
            }
            assert(csr.subrange(1, csr.len() as int)
                =~= args.map_values(|a: NodeView| replace_view(a, x)));
            assert(r == t.rebuild(csr));
        },
        NodeView::Argument { expr, .. } => {
            assert(cs[0] == *expr);
            assert(r == t.rebuild(csr));
        },
        NodeView::Assignment { expression, .. } => {
            assert(cs[0] == *expression);
            assert(r == t.rebuild(csr));
        },
        NodeView::Block { expressions, .. } => {
            assert forall|i: int| 0 <= i < expressions.len()
                implies csr[i] == replace_view(#[trigger] expressions[i], x) by {
                assert(cs[i] == expressions[i]);
            }
            assert(csr =~= expressions.map_values(|a: NodeView| replace_view(a, x)));
            assert(r == t.rebuild(csr));
        },
        NodeView::StructLiteral { fields, .. } => {
            assert forall|i: int| 0 <= i < fields.len()
                implies csr[i] == replace_view(#[trigger] fields[i], x) by {
                assert(cs[i] == fields[i]);
            }
            assert(csr =~= fields.map_values(|a: NodeView| replace_view(a, x)));
            assert(r == t.rebuild(csr));
        },
        NodeView::StructLiteralField { expr, .. } => {
            assert(cs[0] == *expr);
            assert(r == t.rebuild(csr));
        },
        NodeView::Conditional { condition, true_branch, false_branch, .. } => {
            assert(cs[0] == *condition && cs[1] == *true_branch && cs[2] == *false_branch);
            assert(r == t.rebuild(csr));
        },
        NodeView::ListLiteral { elements, .. } => {
            assert forall|i: int| 0 <= i < elements.len()
                implies csr[i] == replace_view(#[trigger] elements[i], x) by {
                assert(cs[i] == elements[i]);
            }
            assert(csr =~= elements.map_values(|a: NodeView| replace_view(a, x)));
            assert(r == t.rebuild(csr));
        },
        NodeView::Match { scrutinee, branches, .. } => {
            let mapped = branches.map_values(|b: BranchView| b.body);
            assert(cs[0] == *scrutinee);
            let rbs = Seq::new(branches.len(), |i: int| BranchView {
                variant_id: branches[i].variant_id,
                body: csr[i + 1],
            });
            assert forall|i: int| 0 <= i < branches.len()
                implies rbs[i] == (BranchView {
                    variant_id: (#[trigger] branches[i]).variant_id,
                    body: replace_view(branches[i].body, x),
                }) by {
                assert(cs[i + 1] == mapped[i]);
                assert(mapped[i] == branches[i].body);
            }
            let mappedb = branches.map_values(|b: BranchView| BranchView {
                variant_id: b.variant_id,
                body: replace_view(b.body, x),
            });
            assert forall|i: int| 0 <= i < branches.len()
                implies mappedb[i] == rbs[i] by {
                assert(mappedb[i] == (BranchView {
                    variant_id: branches[i].variant_id,
                    body: replace_view(branches[i].body, x),
                }));
            }
            assert(mappedb =~= rbs);
            assert(r == t.rebuild(csr));
        },
        NodeView::AnonymousFunction { block, .. } => {
            assert(cs[0] == *block);
            assert(r == t.rebuild(csr));
        },
        _ => {
            assert(cs.len() == 0);
            assert(r == t);
            assert(r == t.rebuild(csr));
        },
    }
}

/// How the view of the node that `replaced` builds relates, variant by
/// variant, to the view of the node it starts from.
spec fn replaced_arm_matches(t: NodeView, x: NodeView, r: NodeView) -> bool {
    match t {
        NodeView::FunctionCall { id, function_reference, args } => r == (NodeView::FunctionCall {
            id,
            function_reference: Box::new(replace_view(*function_reference, x)),
            args: args.map_values(|a: NodeView| replace_view(a, x)),
        }),
        NodeView::Argument { id, argument_definition_id, expr } => r == (NodeView::Argument {
            id,
            argument_definition_id,
            expr: Box::new(replace_view(*expr, x)),
        }),
        NodeView::Assignment { id, name, expression } => r == (NodeView::Assignment {
            id,
            name,
            expression: Box::new(replace_view(*expression, x)),
        }),
        NodeView::Block { id, expressions } => r == (NodeView::Block {
            id,
            expressions: expressions.map_values(|a: NodeView| replace_view(a, x)),
        }),
        NodeView::StructLiteral { id, struct_id, fields } => r == (NodeView::StructLiteral {
            id,
            struct_id,
            fields: fields.map_values(|a: NodeView| replace_view(a, x)),
        }),
        NodeView::StructLiteralField { id, struct_field_id, expr } =>
            r == (NodeView::StructLiteralField {
                id,
                struct_field_id,
                expr: Box::new(replace_view(*expr, x)),
            }),
        NodeView::Conditional { id, condition, true_branch, false_branch } =>
            r == (NodeView::Conditional {
                id,
                condition: Box::new(replace_view(*condition, x)),
                true_branch: Box::new(replace_view(*true_branch, x)),
                false_branch: Box::new(replace_view(*false_branch, x)),
            }),
        NodeView::ListLiteral { id, element_type, elements } => r == (NodeView::ListLiteral {
            id,
            element_type,
            elements: elements.map_values(|a: NodeView| replace_view(a, x)),
        }),
        NodeView::Match { id, scrutinee, branches } => r == (NodeView::Match {
            id,
            scrutinee: Box::new(replace_view(*scrutinee, x)),
            branches: branches.map_values(|b: BranchView| BranchView {
                variant_id: b.variant_id,
                body: replace_view(b.body, x),
            }),
        }),
        NodeView::AnonymousFunction { id, takes_arg, block } =>
            r == (NodeView::AnonymousFunction {
                id,
                takes_arg,
                block: Box::new(replace_view(*block, x)),
            }),
        _ => r == t,
    }
}

fn replaced_nodes(items: &Vec<CodeNode>, x: &CodeNode) -> (r: Vec<CodeNode>)
    ensures
        r@.len() == items@.len(),
        forall|i: int| 0 <= i < items@.len()
            ==> node_view(#[trigger] r@[i]) == replace_view(node_view(items@[i]), x@),
    decreases items@,
{
    let mut r: Vec<CodeNode> = Vec::new();
    let mut i: usize = 0;
    while i < items.len()
        invariant
            i <= items@.len(),
            r@.len() == i,
            forall|k: int| 0 <= k < i
                ==> node_view(#[trigger] r@[k]) == replace_view(node_view(items@[k]), x@),
        decreases items@.len() - i,
    {
        r.push(items[i].replaced(x));
        i = i + 1;
    }
    r
}

fn replaced_branches(items: &Vec<MatchBranch>, x: &CodeNode) -> (r: Vec<MatchBranch>)
    ensures
        r@.len() == items@.len(),
        forall|i: int| 0 <= i < items@.len()
            ==> (#[trigger] r@[i]).variant_id == items@[i].variant_id
                && node_view(r@[i].body) == replace_view(node_view(items@[i].body), x@),
    decreases items@,
{
    let mut r: Vec<MatchBranch> = Vec::new();
    let mut i: usize = 0;
    while i < items.len()
        invariant
            i <= items@.len(),
            r@.len() == i,
            forall|k: int| 0 <= k < i
                ==> (#[trigger] r@[k]).variant_id == items@[k].variant_id
                    && node_view(r@[k].body) == replace_view(node_view(items@[k].body), x@),
        decreases items@.len() - i,
    {
        let b = &items[i];
        r.push(MatchBranch { variant_id: b.variant_id, body: b.body.replaced(x) });
        i = i + 1;
    }
    r
}

} // verus!
