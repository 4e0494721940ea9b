//! Scope analysis: which variables are visible at a point of the tree.
//!
//! Four sources feed the set: assignments preceding the position in its
//! enclosing block, the enclosing function's declared parameters, the
//! bindings of match statements preceding the position, and the implicit
//! arguments of every enclosing anonymous function.  Each variable
//! records its antecedent — how the binding was introduced — so its type
//! can be resolved on demand.
//!
//! [`lemma_scope_monotonicity`] proves that an assignment preceding a
//! position in the same block is always among the visible variables, and
//! that every assignment-born variable stems from the strictly preceding
//! statements.

use vstd::prelude::*;

use crate::code_genie::{
    anon_ancestors, assignments_in, enclosing_stmt, guess_type_view, matches_in,
    null_type_view, scope_stmts, stmt_position, CodeGenie,
};
use crate::env::{code_args_view, ExecutionEnvironment, EnvView};
use crate::lang::{
    node_view, parent_view, ArgDefView, Assignment, BranchView, CodeNode, NodeView, Type,
    TypeView, ID,
};

verus! {

/// How a binding came to be: the syntactic origin the resolver later
/// dispatches on.
#[derive(Clone, Copy, Debug, PartialEq, Eq, Structural)]
pub enum VariableAntecedent {
    /// Bound by the assignment with this id.
    Assignment { assignment_id: ID },
    /// The implicit argument of the anonymous function with this id.
    AnonFuncArgument { anonymous_function_id: ID },
    /// A declared parameter of the enclosing function.
    Argument,
    /// A binding of one branch of a match statement.
    MatchVariant { match_statement_id: ID, variant_id: ID },
}

/// One variable visible at a position.
#[derive(Debug)]
pub struct Variable {
    pub variable_type: VariableAntecedent,
    pub locals_id: ID,
    pub typ: Type,
    pub name: String,
}

/// Mathematical model of [`Variable`].
pub struct VariableView {
    pub variable_type: VariableAntecedent,
    pub locals_id: ID,
    pub typ: TypeView,
    pub name: Seq<char>,
}

impl View for Variable {
    type V = VariableView;

    open spec fn view(&self) -> VariableView {
        VariableView {
            variable_type: self.variable_type,
            locals_id: self.locals_id,
            typ: self.typ@,
            name: self.name@,
        }
    }
}

/// Where a scope search starts: an id, and whether the enclosing
/// statement itself counts.
#[derive(Clone, Copy, Debug)]
pub struct SearchPosition {
    pub before_code_id: ID,
    pub is_search_inclusive: bool,
}

impl SearchPosition {
    /// A strict search: the enclosing statement itself does not count.
    pub fn not_inclusive(before_id: ID) -> (r: SearchPosition)
        ensures
            r.before_code_id == before_id,
            !r.is_search_inclusive,
    {
        SearchPosition { before_code_id: before_id, is_search_inclusive: false }
    }

    /// The search position an insertion point implies: inserting after a
    /// statement sees that statement's own binding, every other point
    /// searches strictly before itself.
    pub fn of_insertion_point(ip: crate::code_editor::InsertionPoint) -> (r: SearchPosition)
        ensures
            r.before_code_id == crate::code_editor::ip_node_id(ip),
            r.is_search_inclusive
                == (ip matches crate::code_editor::InsertionPoint::After(_)),
    {
        SearchPosition {
            before_code_id: ip.node_id(),
            is_search_inclusive: matches!(ip, crate::code_editor::InsertionPoint::After(_)),
        }
    }
}

/// The recursion allowance handed to type inference.
pub open spec fn guess_fuel() -> nat {
    usize::MAX as nat
}

/// The type recorded for an assignment-born variable: the assignment's
/// inferred type, or the null type when inference degrades.
pub open spec fn assignment_var_type(root: NodeView, a: NodeView, env: EnvView) -> TypeView {
    match guess_type_view(root, a, env, guess_fuel()) {
        Some(t) => t,
        None => null_type_view(),
    }
}

/// The variables born from a list of assignment statements.
pub open spec fn vars_from_assignments(root: NodeView, env: EnvView, s: Seq<NodeView>)
    -> Seq<VariableView>
    decreases s.len(),
{
    if s.len() == 0 {
        Seq::empty()
    } else {
        (match s[0] {
            NodeView::Assignment { id, name, .. } => seq![VariableView {
                variable_type: VariableAntecedent::Assignment { assignment_id: id },
                locals_id: id,
                typ: assignment_var_type(root, s[0], env),
                name,
            }],
            _ => Seq::empty(),
        }) + vars_from_assignments(root, env, s.subrange(1, s.len() as int))
    }
}

/// The variables born from the enclosing function's declared parameters.
pub open spec fn vars_from_args(args: Seq<ArgDefView>) -> Seq<VariableView>
    decreases args.len(),
{
    if args.len() == 0 {
        Seq::empty()
    } else {
        seq![VariableView {
            variable_type: VariableAntecedent::Argument,
            locals_id: args[0].id,
            typ: args[0].arg_type,
            name: args[0].short_name,
        }] + vars_from_args(args.subrange(1, args.len() as int))
    }
}

/// The bindings of one match statement's branches.  The branch's variant
/// id doubles as the binding's id; its display name and concrete type
/// live in the enum catalog outside this crate, so both stay unresolved
/// here.
pub open spec fn vars_from_branches(match_id: ID, bs: Seq<BranchView>) -> Seq<VariableView>
    decreases bs.len(),
{
    if bs.len() == 0 {
        Seq::empty()
    } else {
        seq![VariableView {
            variable_type: VariableAntecedent::MatchVariant {
                match_statement_id: match_id,
                variant_id: bs[0].variant_id,
            },
            locals_id: bs[0].variant_id,
            typ: null_type_view(),
            name: Seq::empty(),
        }] + vars_from_branches(match_id, bs.subrange(1, bs.len() as int))
    }
}

/// The bindings of a list of match statements.
pub open spec fn vars_from_matches(ms: Seq<NodeView>) -> Seq<VariableView>
    decreases ms.len(),
{
    if ms.len() == 0 {
        Seq::empty()
    } else {
        (match ms[0] {
            NodeView::Match { id, branches, .. } => vars_from_branches(id, branches),
            _ => Seq::empty(),
        }) + vars_from_matches(ms.subrange(1, ms.len() as int))
    }
}

/// The implicit arguments of a list of anonymous functions.
pub open spec fn vars_from_anons(afs: Seq<NodeView>) -> Seq<VariableView>
    decreases afs.len(),
{
    if afs.len() == 0 {
        Seq::empty()
    } else {
        (match afs[0] {
            NodeView::AnonymousFunction { id, takes_arg, .. } => seq![VariableView {
                variable_type: VariableAntecedent::AnonFuncArgument {
                    anonymous_function_id: id,
                },
                locals_id: takes_arg.id,
                typ: takes_arg.arg_type,
                name: takes_arg.short_name,
            }],
            _ => Seq::empty(),
        }) + vars_from_anons(afs.subrange(1, afs.len() as int))
    }
}

/// Every variable visible at the search position: the union of the four
/// sources, in a fixed order.
pub open spec fn locals_view(root: NodeView, env: EnvView, pos: SearchPosition)
    -> Seq<VariableView> {
    vars_from_assignments(root, env,
        assignments_in(scope_stmts(root, pos.before_code_id, pos.is_search_inclusive)))
        + vars_from_args(code_args_view(env.code_args, root.nid()))
        + vars_from_matches(matches_in(scope_stmts(root, pos.before_code_id,
            pos.is_search_inclusive)))
        + vars_from_anons(anon_ancestors(root, pos.before_code_id))
}

/// Every variable visible at the search position, types taken as the
/// structural inference leaves them.
pub fn find_all_locals_preceding_without_resolving_generics(
    search_position: SearchPosition,
    code_genie: &CodeGenie,
    env: &ExecutionEnvironment,
) -> (r: Vec<Variable>)
    ensures
        r@.len() == locals_view(code_genie@, env@, search_position).len(),
        forall|i: int| 0 <= i < r@.len()
            ==> (#[trigger] r@[i])@ == locals_view(code_genie@, env@, search_position)[i],
{
    let ghost target = locals_view(code_genie@, env@, search_position);
    let mut r: Vec<Variable> = Vec::new();

    // assignments preceding the position
    let asgs = code_genie.find_assignments_that_come_before_code(
        search_position.before_code_id, search_position.is_search_inclusive);
    let ghost avs = assignments_in(scope_stmts(code_genie@, search_position.before_code_id,
        search_position.is_search_inclusive));
    let ghost vfa = vars_from_assignments(code_genie@, env@, avs);
    proof {
        let scope = scope_stmts(code_genie@, search_position.before_code_id,
            search_position.is_search_inclusive);
        assert forall|k: int| 0 <= k < avs.len()
            implies (#[trigger] avs[k]) is Assignment by {
            lemma_assignments_in_source(scope, k);
        }
        lemma_vars_from_assignments(code_genie@, env@, avs);
    }
    let mut i: usize = 0;
    while i < asgs.len()
        invariant
            i <= asgs@.len(),
            asgs@.len() == avs.len(),
            avs == assignments_in(scope_stmts(code_genie@, search_position.before_code_id,
                search_position.is_search_inclusive)),
            vfa == vars_from_assignments(code_genie@, env@, avs),
            vfa.len() == avs.len(),
            forall|k: int| 0 <= k < avs.len()
                ==> node_view(CodeNode::Assignment(#[trigger] asgs@[k])) == avs[k],
            forall|k: int| 0 <= k < avs.len() ==> (#[trigger] avs[k]) is Assignment,
            forall|k: int| 0 <= k < avs.len()
                ==> (#[trigger] vfa[k]) == (VariableView {
                    variable_type: VariableAntecedent::Assignment {
                        assignment_id: avs[k].nid(),
                    },
                    locals_id: avs[k].nid(),
                    typ: assignment_var_type(code_genie@, avs[k], env@),
                    name: avs[k]->Assignment_name,
                }),
            r@.len() == i,
            forall|k: int| 0 <= k < i ==> (#[trigger] r@[k])@ == vfa[k],
        decreases asgs@.len() - i,
    {
        let a = &asgs[i];
        let ghost an = avs[i as int];
        proof {
            assert(node_view(CodeNode::Assignment(asgs@[i as int])) == an);
        }
        let anode = CodeNode::Assignment(Assignment {
            id: a.id,
            name: a.name.clone(),
            expression: Box::new(a.expression.duplicate()),
        });
        proof {
            assert(anode@ == an);
        }
        let typ = match code_genie.guess_type(&anode, env) {
            Some(t) => t,
            None => crate::env::null_type(),
        };
        r.push(Variable {
            variable_type: VariableAntecedent::Assignment { assignment_id: a.id },
            locals_id: a.id,
            typ,
            name: a.name.clone(),
        });
        i = i + 1;
    }

    // the enclosing function's declared parameters
    let args = env.code_takes_args(code_genie.code_id());
    let ghost argvs = code_args_view(env@.code_args, code_genie@.nid());
    let ghost vfg = vars_from_args(argvs);
    proof {
        lemma_vars_from_args(argvs);
        assert(crate::env::args_view(args@) == argvs);
    }
    let ghost base1 = r@.len() as int;
    let mut j: usize = 0;
    while j < args.len()
        invariant
            j <= args@.len(),
            args@.len() == argvs.len(),
            vfg == vars_from_args(argvs),
            vfg.len() == argvs.len(),
            forall|k: int| 0 <= k < argvs.len()
                ==> (#[trigger] args@[k])@ == argvs[k],
            forall|k: int| 0 <= k < argvs.len()
                ==> (#[trigger] vfg[k]) == (VariableView {
                    variable_type: VariableAntecedent::Argument,
                    locals_id: argvs[k].id,
                    typ: argvs[k].arg_type,
                    name: argvs[k].short_name,
                }),
            r@.len() == base1 + j,
            base1 == vfa.len(),
            forall|k: int| 0 <= k < base1 ==> (#[trigger] r@[k])@ == vfa[k],
            forall|k: int| base1 <= k < r@.len()
                ==> (#[trigger] r@[k])@ == vfg[k - base1],
        decreases args@.len() - j,
    {
        let a = &args[j];
        proof {
            assert(crate::env::args_view(args@)[j as int] == args@[j as int]@);
        }
        r.push(Variable {
            variable_type: VariableAntecedent::Argument,
            locals_id: a.id,
            typ: a.arg_type.duplicate(),
            name: a.short_name.clone(),
        });
        j = j + 1;
    }

    // bindings of preceding match statements
    let ms = code_genie.find_matches_that_come_before_code(
        search_position.before_code_id, search_position.is_search_inclusive);
    let ghost mvs = matches_in(scope_stmts(code_genie@, search_position.before_code_id,
        search_position.is_search_inclusive));
    let ghost vfm = vars_from_matches(mvs);
    let ghost base2 = r@.len() as int;
    let mut m: usize = 0;
    while m < ms.len()
        invariant
            m <= ms@.len(),
            ms@.len() == mvs.len(),
            mvs == matches_in(scope_stmts(code_genie@, search_position.before_code_id,
                search_position.is_search_inclusive)),
            vfm == vars_from_matches(mvs),
            forall|k: int| 0 <= k < mvs.len()
                ==> node_view(#[trigger] ms@[k]) == mvs[k],
            base2 == vfa.len() + vfg.len(),
            r@.len() == base2 + vars_from_matches(mvs.subrange(0, m as int)).len(),
            forall|k: int| 0 <= k < base2 ==> (#[trigger] r@[k])@ == (vfa + vfg)[k],
            forall|k: int| base2 <= k < r@.len()
                ==> (#[trigger] r@[k])@
                    == vars_from_matches(mvs.subrange(0, m as int))[k - base2],
        decreases ms@.len() - m,
    {
        let ghost prefix = mvs.subrange(0, m as int);
        let node = &ms[m];
        match node {
            CodeNode::Match(mm) => {
                proof {
                    assert(node_view(*node) == (NodeView::Match {
                        id: mm.id,
                        scrutinee: Box::new(node_view(*mm.scrutinee)),
                        branches: crate::lang::branch_views(mm.branches@),
                    }));
                    crate::lang::lemma_branch_views(mm.branches@);
                    lemma_vars_from_branches(mm.id, crate::lang::branch_views(mm.branches@));
                }
                let ghost bvs = crate::lang::branch_views(mm.branches@);
                let ghost vb = vars_from_branches(mm.id, bvs);
                let ghost base3 = r@.len() as int;
                let mut bi: usize = 0;
                while bi < mm.branches.len()
                    invariant
                        bi <= mm.branches@.len(),
                        bvs == crate::lang::branch_views(mm.branches@),
                        bvs.len() == mm.branches@.len(),
                        vb == vars_from_branches(mm.id, bvs),
                        vb.len() == bvs.len(),
                        forall|k: int| 0 <= k < bvs.len()
                            ==> (#[trigger] bvs[k]).variant_id == mm.branches@[k].variant_id,
                        forall|k: int| 0 <= k < bvs.len()
                            ==> (#[trigger] vb[k]) == (VariableView {
                                variable_type: VariableAntecedent::MatchVariant {
                                    match_statement_id: mm.id,
                                    variant_id: bvs[k].variant_id,
                                },
                                locals_id: bvs[k].variant_id,
                                typ: null_type_view(),
                                name: Seq::empty(),
                            }),
                        r@.len() == base3 + bi,
                        base3 == vfa.len() + vfg.len() + vars_from_matches(prefix).len(),
                        forall|k: int| 0 <= k < base3
                            ==> (#[trigger] r@[k])@ == pre_view_at(vfa, vfg,
                                vars_from_matches(prefix), k),
                        forall|k: int| base3 <= k < r@.len()
                            ==> (#[trigger] r@[k])@ == vb[k - base3],
                    decreases mm.branches@.len() - bi,
                {
                    let b = &mm.branches[bi];
                    let empty_name = String::new();
                    r.push(Variable {
                        variable_type: VariableAntecedent::MatchVariant {
                            match_statement_id: mm.id,
                            variant_id: b.variant_id,
                        },
                        locals_id: b.variant_id,
                        typ: crate::env::null_type(),
                        name: empty_name,
                    });
                    bi = bi + 1;
                }
                proof {
                    assert(mvs.subrange(0, (m + 1) as int) =~= prefix.push(mvs[m as int]));
                    lemma_vars_from_matches_push(prefix, mvs[m as int]);
                    assert(vars_from_matches(prefix.push(mvs[m as int]))
                        == vars_from_matches(prefix) + vars_from_branches(mm.id, bvs));
                }
            },
            _ => {
                proof {
                    lemma_matches_in_source(
                        scope_stmts(code_genie@, search_position.before_code_id,
                            search_position.is_search_inclusive), m as int);
                    assert(node_view(*node) == mvs[m as int]);
                    lemma_view_variant_kinds(*node);
                }
            },
        }
        m = m + 1;
    }
    proof {
        assert(mvs.subrange(0, mvs.len() as int) =~= mvs);
    }

    // implicit arguments of enclosing anonymous functions
    let afs = code_genie.find_anon_func_parents(search_position.before_code_id);
    let ghost anvs = anon_ancestors(code_genie@, search_position.before_code_id);
    let ghost vfn = vars_from_anons(anvs);
    let ghost base4 = r@.len() as int;
    let mut q: usize = 0;
    while q < afs.len()
        invariant
            q <= afs@.len(),
            afs@.len() == anvs.len(),
            anvs == anon_ancestors(code_genie@, search_position.before_code_id),
            vfn == vars_from_anons(anvs),
            forall|k: int| 0 <= k < anvs.len()
                ==> node_view(#[trigger] afs@[k]) == anvs[k],
            base4 == vfa.len() + vfg.len() + vars_from_matches(mvs).len(),
            r@.len() == base4 + vars_from_anons(anvs.subrange(0, q as int)).len(),
            forall|k: int| 0 <= k < base4
                ==> (#[trigger] r@[k])@ == (vfa + vfg + vars_from_matches(mvs))[k],
            forall|k: int| base4 <= k < r@.len()
                ==> (#[trigger] r@[k])@
                    == vars_from_anons(anvs.subrange(0, q as int))[k - base4],
        decreases afs@.len() - q,
    {
        let ghost prefix = anvs.subrange(0, q as int);
        let node = &afs[q];
        match node {
            CodeNode::AnonymousFunction(af) => {
                proof {
                    assert(node_view(*node) == (NodeView::AnonymousFunction {
                        id: af.id,
                        takes_arg: af.takes_arg@,
                        block: Box::new(node_view(*af.block)),
                    }));
                }
                r.push(Variable {
                    variable_type: VariableAntecedent::AnonFuncArgument {
                        anonymous_function_id: af.id,
                    },
                    locals_id: af.takes_arg.id,
                    typ: af.takes_arg.arg_type.duplicate(),
                    name: af.takes_arg.short_name.clone(),
                });
            },
            _ => {},
        }
        proof {
            assert(anvs.subrange(0, (q + 1) as int) =~= prefix.push(anvs[q as int]));
            lemma_vars_from_anons_push(prefix, anvs[q as int]);
        }
        q = q + 1;
    }
    proof {
        assert(anvs.subrange(0, anvs.len() as int) =~= anvs);
        assert forall|i: int| 0 <= i < r@.len()
            implies (#[trigger] r@[i])@ == target[i] by {
            if i < base2 {
                assert((vfa + vfg)[i] == target[i]);
            } else if i < base4 {
                assert(r@[i]@ == vars_from_matches(mvs)[i - base2]);
                assert(target[i] == vars_from_matches(mvs)[i - base2]);
            } else {
                assert(r@[i]@ == vfn[i - base4]);
                assert(target[i] == vfn[i - base4]);
            }
        }
        assert(r@.len() == target.len());
    }
    r
}

/// The view an earlier prefix entry must keep while the match loop runs.
pub open spec fn pre_view_at(
    vfa: Seq<VariableView>,
    vfg: Seq<VariableView>,
    vm: Seq<VariableView>,
    k: int,
) -> VariableView {
    if k < vfa.len() + vfg.len() {
        (vfa + vfg)[k]
    } else {
        vm[k - vfa.len() - vfg.len()]
    }
}

// ---------------------------------------------------------------------------
// On-demand generic resolution
// ---------------------------------------------------------------------------

/// What resolving one variable's type returns, dispatching on its
/// antecedent: an assignment-born variable resolves at its assignment's
/// call site; an anonymous-function argument resolves through the
/// function's own signature and projects the argument position out;
/// plain function arguments and match bindings come back unresolved.
pub open spec fn resolve_generics_view(v: VariableView, root: NodeView, env: EnvView)
    -> TypeView {
    match v.variable_type {
        VariableAntecedent::Assignment { assignment_id } => match crate::lang::find_view(
            root, assignment_id) {
            Some(decl) => crate::code_genie::resolve_type_view(root, decl, v.typ, env,
                guess_fuel()),
            None => v.typ,
        },
        VariableAntecedent::AnonFuncArgument { anonymous_function_id } =>
            match crate::lang::find_view(root, anonymous_function_id) {
                Some(af) => match guess_type_view(root, af, env, guess_fuel()) {
                    Some(full) => {
                        let resolved = crate::code_genie::resolve_type_view(root, af, full,
                            env, guess_fuel());
                        match crate::code_genie::anon_func_arg_type(resolved) {
                            Some(t) => t,
                            None => v.typ,
                        }
                    },
                    None => v.typ,
                },
                None => v.typ,
            },
        VariableAntecedent::Argument => v.typ,
        VariableAntecedent::MatchVariant { .. } => v.typ,
    }
}

/// Resolves one variable's type on demand.
pub fn resolve_generics(
    variable: &Variable,
    code_genie: &CodeGenie,
    env: &ExecutionEnvironment,
) -> (r: Type)
    ensures
        r@ == resolve_generics_view(variable@, code_genie@, env@),
{
    match &variable.variable_type {
        VariableAntecedent::Assignment { assignment_id } => {
            match code_genie.find_node(*assignment_id) {
                Some(decl) => code_genie.try_to_resolve_all_generics(decl, &variable.typ,
                    env),
                None => variable.typ.duplicate(),
            }
        },
        VariableAntecedent::AnonFuncArgument { anonymous_function_id } => {
            match code_genie.find_node(*anonymous_function_id) {
                Some(af) => {
                    match code_genie.guess_type(af, env) {
                        Some(full) => {
                            let resolved = code_genie.try_to_resolve_all_generics(af,
                                &full, env);
                            if resolved.typespec_id == crate::env::ANON_FUNC_TYPESPEC_ID
                                && resolved.params.len() >= 1 {
                                proof {
                                    crate::lang::lemma_type_views(resolved.params@);
                                }
                                resolved.params[0].duplicate()
                            } else {
                                proof {
                                    crate::lang::lemma_type_views(resolved.params@);
                                }
                                variable.typ.duplicate()
                            }
                        },
                        None => variable.typ.duplicate(),
                    }
                },
                None => variable.typ.duplicate(),
            }
        },
        VariableAntecedent::Argument => variable.typ.duplicate(),
        VariableAntecedent::MatchVariant { .. } => variable.typ.duplicate(),
    }
}

/// Every variable visible at the search position, each type resolved on
/// demand through its antecedent.
pub fn find_all_locals_preceding_with_resolving_generics(
    search_position: SearchPosition,
    code_genie: &CodeGenie,
    env: &ExecutionEnvironment,
) -> (r: Vec<Variable>)
    ensures
        r@.len() == locals_view(code_genie@, env@, search_position).len(),
        forall|i: int| 0 <= i < r@.len() ==> {
            let base = locals_view(code_genie@, env@, search_position)[i];
            (#[trigger] r@[i])@ == (VariableView {
                typ: resolve_generics_view(base, code_genie@, env@),
                ..base
            })
        },
{
    let ghost target = locals_view(code_genie@, env@, search_position);
    let vars = find_all_locals_preceding_without_resolving_generics(search_position,
        code_genie, env);
    let mut r: Vec<Variable> = Vec::new();
    let mut i: usize = 0;
    while i < vars.len()
        invariant
            i <= vars@.len(),
            vars@.len() == target.len(),
            target == locals_view(code_genie@, env@, search_position),
            forall|k: int| 0 <= k < vars@.len() ==> (#[trigger] vars@[k])@ == target[k],
            r@.len() == i,
            forall|k: int| 0 <= k < i ==> (#[trigger] r@[k])@ == (VariableView {
                typ: resolve_generics_view(target[k], code_genie@, env@),
                ..target[k]
            }),
        decreases vars@.len() - i,
    {
        let v = &vars[i];
        let typ = resolve_generics(v, code_genie, env);
        r.push(Variable {
            variable_type: v.variable_type,
            locals_id: v.locals_id,
            typ,
            name: v.name.clone(),
        });
        i = i + 1;
    }
    r
}

// ---------------------------------------------------------------------------
// Elementwise characterizations
// ---------------------------------------------------------------------------

pub proof fn lemma_vars_from_assignments(root: NodeView, env: EnvView, s: Seq<NodeView>)
    requires
        forall|k: int| 0 <= k < s.len() ==> (#[trigger] s[k]) is Assignment,
    ensures
        vars_from_assignments(root, env, s).len() == s.len(),
        forall|k: int| 0 <= k < s.len()
            ==> vars_from_assignments(root, env, s)[k] == (VariableView {
                variable_type: VariableAntecedent::Assignment {
                    assignment_id: (#[trigger] s[k]).nid(),
                },
                locals_id: s[k].nid(),
                typ: assignment_var_type(root, s[k], env),
                name: s[k]->Assignment_name,
            }),
    decreases s.len(),
{
    if s.len() > 0 {
        let rest = s.subrange(1, s.len() as int);
        assert forall|k: int| 0 <= k < rest.len()
            implies (#[trigger] rest[k]) is Assignment by {
            assert(rest[k] == s[k + 1]);
        }
        lemma_vars_from_assignments(root, env, rest);
        assert forall|k: int| 0 <= k < s.len()
            implies vars_from_assignments(root, env, s)[k] == (VariableView {
                variable_type: VariableAntecedent::Assignment {
                    assignment_id: (#[trigger] s[k]).nid(),
                },
                locals_id: s[k].nid(),
                typ: assignment_var_type(root, s[k], env),
                name: s[k]->Assignment_name,
            }) by {
            if k > 0 {
                assert(rest[k - 1] == s[k]);
                assert(vars_from_assignments(root, env, s)[k]
                    == vars_from_assignments(root, env, rest)[k - 1]);
            }
        }
    }
}

pub proof fn lemma_vars_from_args(args: Seq<ArgDefView>)
    ensures
        vars_from_args(args).len() == args.len(),
        forall|k: int| 0 <= k < args.len()
            ==> vars_from_args(args)[k] == (VariableView {
                variable_type: VariableAntecedent::Argument,
                locals_id: (#[trigger] args[k]).id,
                typ: args[k].arg_type,
                name: args[k].short_name,
            }),
    decreases args.len(),
{
    if args.len() > 0 {
        let rest = args.subrange(1, args.len() as int);
        lemma_vars_from_args(rest);
        assert forall|k: int| 0 <= k < args.len()
            implies vars_from_args(args)[k] == (VariableView {
                variable_type: VariableAntecedent::Argument,
                locals_id: (#[trigger] args[k]).id,
                typ: args[k].arg_type,
                name: args[k].short_name,
            }) by {
            if k > 0 {
                assert(rest[k - 1] == args[k]);
                assert(vars_from_args(args)[k] == vars_from_args(rest)[k - 1]);
            }
        }
    }
}

pub proof fn lemma_vars_from_branches(match_id: ID, bs: Seq<BranchView>)
    ensures
        vars_from_branches(match_id, bs).len() == bs.len(),
        forall|k: int| 0 <= k < bs.len()
            ==> vars_from_branches(match_id, bs)[k] == (VariableView {
                variable_type: VariableAntecedent::MatchVariant {
                    match_statement_id: match_id,
                    variant_id: (#[trigger] bs[k]).variant_id,
                },
                locals_id: bs[k].variant_id,
                typ: null_type_view(),
                name: Seq::empty(),
            }),
    decreases bs.len(),
{
    if bs.len() > 0 {
        let rest = bs.subrange(1, bs.len() as int);
        lemma_vars_from_branches(match_id, rest);
        assert forall|k: int| 0 <= k < bs.len()
            implies vars_from_branches(match_id, bs)[k] == (VariableView {
                variable_type: VariableAntecedent::MatchVariant {
                    match_statement_id: match_id,
                    variant_id: (#[trigger] bs[k]).variant_id,
                },
                locals_id: bs[k].variant_id,
                typ: null_type_view(),
                name: Seq::empty(),
            }) by {
            if k > 0 {
                assert(rest[k - 1] == bs[k]);
                assert(vars_from_branches(match_id, bs)[k]
                    == vars_from_branches(match_id, rest)[k - 1]);
            }
        }
    }
}

pub proof fn lemma_vars_from_matches_push(s: Seq<NodeView>, e: NodeView)
    ensures
        vars_from_matches(s.push(e)) == vars_from_matches(s) + (match e {
            NodeView::Match { id, branches, .. } => vars_from_branches(id, branches),
            _ => Seq::<VariableView>::empty(),
        }),
    decreases s.len(),
{
    let sp = s.push(e);
    let tail: Seq<VariableView> = match e {
        NodeView::Match { id, branches, .. } => vars_from_branches(id, branches),
        _ => Seq::empty(),
    };
    if s.len() == 0 {
        assert(sp[0] == e);
        assert(sp.subrange(1, sp.len() as int) =~= Seq::<NodeView>::empty());
        assert(vars_from_matches(Seq::<NodeView>::empty()) == Seq::<VariableView>::empty());
        assert(vars_from_matches(s) == Seq::<VariableView>::empty());
        assert(vars_from_matches(sp) == tail + Seq::<VariableView>::empty());
        assert(tail + Seq::<VariableView>::empty()
            =~= Seq::<VariableView>::empty() + tail);
    } else {
        let rest = s.subrange(1, s.len() as int);
        lemma_vars_from_matches_push(rest, e);
        assert(sp[0] == s[0]);
        assert(sp.subrange(1, sp.len() as int) =~= rest.push(e));
        let head: Seq<VariableView> = match s[0] {
            NodeView::Match { id, branches, .. } => vars_from_branches(id, branches),
            _ => Seq::empty(),
        };
        assert(head + (vars_from_matches(rest) + tail)
            =~= (head + vars_from_matches(rest)) + tail);
    }
}

pub proof fn lemma_vars_from_anons_push(s: Seq<NodeView>, e: NodeView)
    ensures
        vars_from_anons(s.push(e)) == vars_from_anons(s) + (match e {
            NodeView::AnonymousFunction { id, takes_arg, .. } => seq![VariableView {
                variable_type: VariableAntecedent::AnonFuncArgument {
                    anonymous_function_id: id,
                },
                locals_id: takes_arg.id,
                typ: takes_arg.arg_type,
                name: takes_arg.short_name,
            }],
            _ => Seq::<VariableView>::empty(),
        }),
    decreases s.len(),
{
    let sp = s.push(e);
    let tail: Seq<VariableView> = match e {
        NodeView::AnonymousFunction { id, takes_arg, .. } => seq![VariableView {
            variable_type: VariableAntecedent::AnonFuncArgument {
                anonymous_function_id: id,
            },
            locals_id: takes_arg.id,
            typ: takes_arg.arg_type,
            name: takes_arg.short_name,
        }],
        _ => Seq::empty(),
    };
    if s.len() == 0 {
        assert(sp[0] == e);
        assert(sp.subrange(1, sp.len() as int) =~= Seq::<NodeView>::empty());
        assert(vars_from_anons(Seq::<NodeView>::empty()) == Seq::<VariableView>::empty());
        assert(vars_from_anons(s) == Seq::<VariableView>::empty());
        assert(vars_from_anons(sp) == tail + Seq::<VariableView>::empty());
        assert(tail + Seq::<VariableView>::empty()
            =~= Seq::<VariableView>::empty() + tail);
    } else {
        let rest = s.subrange(1, s.len() as int);
        lemma_vars_from_anons_push(rest, e);
        assert(sp[0] == s[0]);
        assert(sp.subrange(1, sp.len() as int) =~= rest.push(e));
        let head: Seq<VariableView> = match s[0] {
            NodeView::AnonymousFunction { id, takes_arg, .. } => seq![VariableView {
                variable_type: VariableAntecedent::AnonFuncArgument {
                    anonymous_function_id: id,
                },
                locals_id: takes_arg.id,
                typ: takes_arg.arg_type,
                name: takes_arg.short_name,
            }],
            _ => Seq::<VariableView>::empty(),
        };
        assert(head + (vars_from_anons(rest) + tail)
            =~= (head + vars_from_anons(rest)) + tail);
    }
}

// ---------------------------------------------------------------------------
// Scope monotonicity
// ---------------------------------------------------------------------------

proof fn lemma_assignments_in_member(s: Seq<NodeView>, i: int)
    requires
        0 <= i < s.len(),
        s[i] is Assignment,
    ensures
        exists|k: int| 0 <= k < assignments_in(s).len()
            && #[trigger] assignments_in(s)[k] == s[i],
    decreases s.len(),
{
    let rest = s.subrange(1, s.len() as int);
    if i == 0 {
        assert(assignments_in(s)[0] == s[0]);
    } else {
        lemma_assignments_in_member(rest, i - 1);
        let k = choose|k: int| 0 <= k < assignments_in(rest).len()
            && #[trigger] assignments_in(rest)[k] == rest[i - 1];
        if s[0] is Assignment {
            assert(assignments_in(s)[k + 1] == assignments_in(rest)[k]);
        } else {
            assert(assignments_in(s)[k] == assignments_in(rest)[k]);
        }
        assert(rest[i - 1] == s[i]);
    }
}

proof fn lemma_assignments_in_source(s: Seq<NodeView>, k: int)
    requires
        0 <= k < assignments_in(s).len(),
    ensures
        exists|m: int| 0 <= m < s.len() && #[trigger] s[m] == assignments_in(s)[k]
            && s[m] is Assignment,
    decreases s.len(),
{
    if s.len() > 0 {
        let rest = s.subrange(1, s.len() as int);
        if s[0] is Assignment {
            if k == 0 {
                assert(assignments_in(s)[0] == s[0]);
            } else {
                lemma_assignments_in_source(rest, k - 1);
                let m = choose|m: int| 0 <= m < rest.len()
                    && #[trigger] rest[m] == assignments_in(rest)[k - 1]
                    && rest[m] is Assignment;
                assert(s[m + 1] == rest[m]);
                assert(assignments_in(s)[k] == assignments_in(rest)[k - 1]);
            }
        } else {
            lemma_assignments_in_source(rest, k);
            let m = choose|m: int| 0 <= m < rest.len()
                && #[trigger] rest[m] == assignments_in(rest)[k]
                && rest[m] is Assignment;
            assert(s[m + 1] == rest[m]);
        }
    }
}

/// The view keeps the variant tag: a node's view is of a given variant
/// exactly when the node is.
pub proof fn lemma_view_variant_kinds(n: CodeNode)
    ensures
        (node_view(n) is Match) == (n is Match),
        (node_view(n) is Argument) == (n is Argument),
        (node_view(n) is Assignment) == (n is Assignment),
        (node_view(n) is AnonymousFunction) == (n is AnonymousFunction),
        (node_view(n) is Block) == (n is Block),
        (node_view(n) is FunctionCall) == (n is FunctionCall),
        (node_view(n) is StructLiteral) == (n is StructLiteral),
        (node_view(n) is ListLiteral) == (n is ListLiteral),
        (node_view(n) is Placeholder) == (n is Placeholder),
{
    match n {
        CodeNode::FunctionCall(x) => {
            assert(node_view(n) == (NodeView::FunctionCall {
                id: x.id,
                function_reference: Box::new(node_view(*x.function_reference)),
                args: crate::lang::node_views(x.args@),
            }));
        },
        CodeNode::FunctionReference(x) => {
            assert(node_view(n) == (NodeView::FunctionReference {
                id: x.id,
                function_id: x.function_id,
            }));
        },
        CodeNode::Argument(x) => {
            assert(node_view(n) == (NodeView::Argument {
                id: x.id,
                argument_definition_id: x.argument_definition_id,
                expr: Box::new(node_view(*x.expr)),
            }));
        },
        CodeNode::StringLiteral(x) => {
            assert(node_view(n) == (NodeView::StringLiteral { id: x.id, value: x.value@ }));
        },
        CodeNode::NumberLiteral(x) => {
            assert(node_view(n) == (NodeView::NumberLiteral { id: x.id, value: x.value }));
        },
        CodeNode::NullLiteral(id) => {
            assert(node_view(n) == (NodeView::NullLiteral { id }));
        },
        CodeNode::Assignment(x) => {
            assert(node_view(n) == (NodeView::Assignment {
                id: x.id,
                name: x.name@,
                expression: Box::new(node_view(*x.expression)),
            }));
        },
        CodeNode::Block(x) => {
            assert(node_view(n) == (NodeView::Block {
                id: x.id,
                expressions: crate::lang::node_views(x.expressions@),
            }));
        },
        CodeNode::VariableReference(x) => {
            assert(node_view(n) == (NodeView::VariableReference {
                id: x.id,
                assignment_id: x.assignment_id,
            }));
        },
        CodeNode::Placeholder(x) => {
            assert(node_view(n) == (NodeView::Placeholder {
                id: x.id,
                description: x.description@,
                typ: x.typ@,
            }));
        },
        CodeNode::StructLiteral(x) => {
            assert(node_view(n) == (NodeView::StructLiteral {
                id: x.id,
                struct_id: x.struct_id,
                fields: crate::lang::node_views(x.fields@),
            }));
        },
        CodeNode::StructLiteralField(x) => {
            assert(node_view(n) == (NodeView::StructLiteralField {
                id: x.id,
                struct_field_id: x.struct_field_id,
                expr: Box::new(node_view(*x.expr)),
            }));
        },
        CodeNode::Conditional(x) => {
            assert(node_view(n) == (NodeView::Conditional {
                id: x.id,
                condition: Box::new(node_view(*x.condition)),
                true_branch: Box::new(node_view(*x.true_branch)),
                false_branch: Box::new(node_view(*x.false_branch)),
            }));
        },
        CodeNode::ListLiteral(x) => {
            assert(node_view(n) == (NodeView::ListLiteral {
                id: x.id,
                element_type: x.element_type@,
                elements: crate::lang::node_views(x.elements@),
            }));
        },
        CodeNode::Match(x) => {
            assert(node_view(n) == (NodeView::Match {
                id: x.id,
                scrutinee: Box::new(node_view(*x.scrutinee)),
                branches: crate::lang::branch_views(x.branches@),
            }));
        },
        CodeNode::AnonymousFunction(x) => {
            assert(node_view(n) == (NodeView::AnonymousFunction {
                id: x.id,
                takes_arg: x.takes_arg@,
                block: Box::new(node_view(*x.block)),
            }));
        },
    }
}

proof fn lemma_matches_in_source(s: Seq<NodeView>, k: int)
    requires
        0 <= k < matches_in(s).len(),
    ensures
        matches_in(s)[k] is Match,
    decreases s.len(),
{
    if s.len() > 0 {
        let rest = s.subrange(1, s.len() as int);
        if s[0] is Match {
            if k > 0 {
                lemma_matches_in_source(rest, k - 1);
                assert(matches_in(s)[k] == matches_in(rest)[k - 1]);
            }
        } else {
            lemma_matches_in_source(rest, k);
        }
    }
}

/// Scope monotonicity.  If the statement at position `ip` of the block
/// enclosing `y` is an assignment and it strictly precedes `y`'s own
/// statement, then its variable is among the locals visible at `y`; and
/// every assignment-born variable visible at `y` stems from a statement
/// strictly preceding `y`'s, so statements at or after `y` contribute
/// nothing.
pub proof fn lemma_scope_monotonicity(root: NodeView, env: EnvView, y: ID, ip: int)
    requires
        enclosing_stmt(root, y) is Some,
        parent_view(root, enclosing_stmt(root, y).unwrap()) matches Some(b) && b is Block,
        stmt_position(parent_view(root, enclosing_stmt(root, y).unwrap())
            .unwrap()->Block_expressions, enclosing_stmt(root, y).unwrap()) is Some,
        0 <= ip < stmt_position(parent_view(root, enclosing_stmt(root, y).unwrap())
            .unwrap()->Block_expressions, enclosing_stmt(root, y).unwrap()).unwrap(),
        parent_view(root, enclosing_stmt(root, y).unwrap())
            .unwrap()->Block_expressions[ip] is Assignment,
    ensures
        ({
            let exprs = parent_view(root, enclosing_stmt(root, y).unwrap())
                .unwrap()->Block_expressions;
            let locals = locals_view(root, env, SearchPosition {
                before_code_id: y,
                is_search_inclusive: false,
            });
            (exists|k: int| 0 <= k < locals.len()
                && (#[trigger] locals[k]).locals_id == exprs[ip].nid()
                && locals[k].variable_type == (VariableAntecedent::Assignment {
                    assignment_id: exprs[ip].nid(),
                }))
            && (forall|k: int| 0 <= k < locals.len()
                && (#[trigger] locals[k]).variable_type is Assignment
                ==> exists|m: int| 0 <= m
                    < stmt_position(exprs, enclosing_stmt(root, y).unwrap()).unwrap()
                    && (#[trigger] exprs[m]).nid() == locals[k].locals_id)
        }),
{
    let sid = enclosing_stmt(root, y).unwrap();
    let b = parent_view(root, sid).unwrap();
    let exprs = b->Block_expressions;
    let jp = stmt_position(exprs, sid).unwrap();
    let pos = SearchPosition { before_code_id: y, is_search_inclusive: false };
    let prefix = scope_stmts(root, y, false);
    assert(prefix == exprs.subrange(0, jp));
    crate::mutation::lemma_stmt_position_bounds(exprs, sid);
    let asgs = assignments_in(prefix);
    assert forall|k: int| 0 <= k < asgs.len()
        implies (#[trigger] asgs[k]) is Assignment by {
        lemma_assignments_in_source(prefix, k);
    }
    lemma_vars_from_assignments(root, env, asgs);
    let locals = locals_view(root, env, pos);
    let vfa = vars_from_assignments(root, env, asgs);

    // the assignment at ip is present
    assert(prefix[ip] == exprs[ip]);
    lemma_assignments_in_member(prefix, ip);
    let k0 = choose|k: int| 0 <= k < asgs.len() && #[trigger] asgs[k] == prefix[ip];
    assert(vfa[k0].locals_id == exprs[ip].nid());
    assert(locals[k0] == vfa[k0]);

    // every assignment-born variable stems from the strict prefix
    assert forall|k: int| 0 <= k < locals.len()
        && (#[trigger] locals[k]).variable_type is Assignment
        implies exists|m: int| 0 <= m < jp
            && (#[trigger] exprs[m]).nid() == locals[k].locals_id by {
        lemma_vars_from_args(code_args_view(env.code_args, root.nid()));
        if k < vfa.len() {
            assert(locals[k] == vfa[k]);
            lemma_assignments_in_source(prefix, k);
            let m = choose|m: int| 0 <= m < prefix.len()
                && #[trigger] prefix[m] == asgs[k] && prefix[m] is Assignment;
            assert(exprs[m] == prefix[m]);
            assert(exprs[m].nid() == locals[k].locals_id);
        } else {
            lemma_no_assignment_antecedent_after(root, env, pos, k, vfa.len() as int);
        }
    }
}

/// Past the assignment section, no variable carries an assignment
/// antecedent.
proof fn lemma_no_assignment_antecedent_after(
    root: NodeView,
    env: EnvView,
    pos: SearchPosition,
    k: int,
    na: int,
)
    requires
        na == vars_from_assignments(root, env,
            assignments_in(scope_stmts(root, pos.before_code_id,
                pos.is_search_inclusive))).len(),
        na <= k < locals_view(root, env, pos).len(),
    ensures
        !(locals_view(root, env, pos)[k].variable_type is Assignment),
{
    let argvs = code_args_view(env.code_args, root.nid());
    let mvs = matches_in(scope_stmts(root, pos.before_code_id, pos.is_search_inclusive));
    let anvs = anon_ancestors(root, pos.before_code_id);
    lemma_vars_from_args(argvs);
    let nv = locals_view(root, env, pos)[k];
    let off = k - na;
    if off < vars_from_args(argvs).len() {
        assert(nv == vars_from_args(argvs)[off]);
        assert(vars_from_args(argvs)[off] == (VariableView {
            variable_type: VariableAntecedent::Argument,
            locals_id: argvs[off].id,
            typ: argvs[off].arg_type,
            name: argvs[off].short_name,
        }));
    } else if off - vars_from_args(argvs).len() < vars_from_matches(mvs).len() {
        lemma_vars_from_matches_shape(mvs, off - vars_from_args(argvs).len());
        assert(nv == vars_from_matches(mvs)[off - vars_from_args(argvs).len()]);
    } else {
        lemma_vars_from_anons_shape(anvs,
            off - vars_from_args(argvs).len() - vars_from_matches(mvs).len());
        assert(nv == vars_from_anons(anvs)[
            off - vars_from_args(argvs).len() - vars_from_matches(mvs).len()]);
    }
}

proof fn lemma_vars_from_matches_shape(ms: Seq<NodeView>, k: int)
    requires
        0 <= k < vars_from_matches(ms).len(),
    ensures
        vars_from_matches(ms)[k].variable_type is MatchVariant,
    decreases ms.len(),
{
    if ms.len() > 0 {
        let rest = ms.subrange(1, ms.len() as int);
        match ms[0] {
            NodeView::Match { id, branches, .. } => {
                let head = vars_from_branches(id, branches);
                assert(vars_from_matches(ms) == head + vars_from_matches(rest));
                lemma_vars_from_branches(id, branches);
                if k < head.len() {
                    assert(vars_from_matches(ms)[k] == head[k]);
                    assert(head[k].variable_type == (VariableAntecedent::MatchVariant {
                        match_statement_id: id,
                        variant_id: branches[k].variant_id,
                    }));
                } else {
                    assert(vars_from_matches(ms).len() == head.len()
                        + vars_from_matches(rest).len());
                    lemma_vars_from_matches_shape(rest, k - head.len());
                    assert(vars_from_matches(ms)[k]
                        == vars_from_matches(rest)[k - head.len()]);
                }
            },
            _ => {
                assert(vars_from_matches(ms)
                    == Seq::<VariableView>::empty() + vars_from_matches(rest));
                assert(vars_from_matches(ms) =~= vars_from_matches(rest));
                lemma_vars_from_matches_shape(rest, k);
            },
        }
    }
}

proof fn lemma_vars_from_anons_shape(afs: Seq<NodeView>, k: int)
    requires
        0 <= k < vars_from_anons(afs).len(),
    ensures
        vars_from_anons(afs)[k].variable_type is AnonFuncArgument,
    decreases afs.len(),
{
    if afs.len() > 0 {
        let rest = afs.subrange(1, afs.len() as int);
        match afs[0] {
            NodeView::AnonymousFunction { id, takes_arg, .. } => {
                let head = seq![VariableView {
                    variable_type: VariableAntecedent::AnonFuncArgument {
                        anonymous_function_id: id,
                    },
                    locals_id: takes_arg.id,
                    typ: takes_arg.arg_type,
                    name: takes_arg.short_name,
                }];
                assert(vars_from_anons(afs) == head + vars_from_anons(rest));
                if k >= head.len() {
                    assert(vars_from_anons(afs).len() == head.len()
                        + vars_from_anons(rest).len());
                    lemma_vars_from_anons_shape(rest, k - head.len());
                    assert(vars_from_anons(afs)[k]
                        == vars_from_anons(rest)[k - head.len()]);
                } else {
                    assert(vars_from_anons(afs)[k] == head[0]);
                    assert(head[0].variable_type is AnonFuncArgument);
                }
            },
            _ => {
                assert(vars_from_anons(afs)
                    == Seq::<VariableView>::empty() + vars_from_anons(rest));
                assert(vars_from_anons(afs) =~= vars_from_anons(rest));
                lemma_vars_from_anons_shape(rest, k);
            },
        }
    }
}

} // verus!
