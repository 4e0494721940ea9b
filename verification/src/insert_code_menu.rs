//! The context-sensitive code-completion menu: given an insertion point,
//! it offers ranked, filtered candidate nodes — function calls, variable
//! references and literals.
//!
//! Filling a fresh statement offers function calls only; filling a hole
//! filters every candidate against the hole's type.  Search text matches
//! case-insensitively as a substring of a candidate's name.
//! [`lemma_menu_filtering_correct`] proves that with a target type every
//! function and variable candidate's type matches it; the literal
//! generator's contract pins the same for literal candidates, with the
//! typed placeholder always offered as the open-ended fallback.

use vstd::prelude::*;

use crate::code_editor::InsertionPoint;
use crate::code_generation::{
    new_function_call_with_placeholder_args, new_null_literal, new_placeholder,
    new_string_literal, new_struct_literal_with_placeholders, new_variable_reference_to, IdGen,
};
use crate::code_genie::{guess_type_view, CodeGenie};
use crate::env::{
    find_struct_view, ExecutionEnvironment, EnvView, FuncDescView, NULL_TYPESPEC_ID,
    STRING_TYPESPEC_ID,
};
use crate::lang::{find_view, CodeNode, NodeView, Type, TypeView, ID};
use crate::locals::{
    find_all_locals_preceding_without_resolving_generics, locals_view, SearchPosition,
    VariableView,
};

verus! {

// ---------------------------------------------------------------------------
// Case folding and trimming (trusted wrappers over std)
// ---------------------------------------------------------------------------

/// What `str::to_lowercase` returns for the given characters.
pub uninterp spec fn lower_of(s: Seq<char>) -> Seq<char>;

/// What `str::trim` returns for the given characters.
pub uninterp spec fn trim_of(s: Seq<char>) -> Seq<char>;

/// Relies on `str::to_lowercase`: the lowercase form depends on the
/// characters alone, and an empty string stays empty.
#[verifier::external_body]
fn lowercase(s: &str) -> (r: String)
    ensures
        r@ == lower_of(s@),
        s@.len() == 0 ==> r@.len() == 0,
{
    s.to_lowercase()
}

/// Relies on `str::trim`: the trimmed form depends on the characters
/// alone, and an empty string stays empty.
#[verifier::external_body]
fn trim_str(s: &str) -> (r: &str)
    ensures
        r@ == trim_of(s@),
        s@.len() == 0 ==> r@.len() == 0,
{
    s.trim()
}

// ---------------------------------------------------------------------------
// Substring search
// ---------------------------------------------------------------------------

/// Whether `needle` occurs contiguously inside `hay`.
pub open spec fn is_substring(needle: Seq<char>, hay: Seq<char>) -> bool {
    exists|i: int| 0 <= i && i + needle.len() <= hay.len()
        && #[trigger] hay.subrange(i, i + needle.len() as int) == needle
}

/// Substring search over characters.
pub fn contains_chars(hay: &str, needle: &str) -> (r: bool)
    ensures
        r == is_substring(needle@, hay@),
{
    let hn = hay.unicode_len();
    let nn = needle.unicode_len();
    if nn == 0 {
        proof {
            assert(hay@.subrange(0, 0 + needle@.len() as int) =~= needle@);
        }
        return true;
    }
    if nn > hn {
        proof {
            if is_substring(needle@, hay@) {
                let i = choose|i: int| 0 <= i && i + needle@.len() <= hay@.len()
                    && #[trigger] hay@.subrange(i, i + needle@.len() as int) == needle@;
            }
        }
        return false;
    }
    let mut i: usize = 0;
    while i <= hn - nn
        invariant
            hn == hay@.len(),
            nn == needle@.len(),
            nn <= hn,
            1 <= nn,
            i <= hn - nn + 1,
            forall|k: int| 0 <= k < i
                ==> #[trigger] hay@.subrange(k, k + needle@.len() as int) != needle@,
        decreases hn - nn - i + 1,
    {
        let mut j: usize = 0;
        let mut matched = true;
        while j < nn
            invariant
                hn == hay@.len(),
                nn == needle@.len(),
                i + nn <= hn,
                j <= nn,
                matched ==> forall|m: int| 0 <= m < j ==> hay@[i + m] == needle@[m],
                !matched ==> hay@.subrange(i as int, i + needle@.len() as int) != needle@,
            decreases nn - j,
        {
            if hay.get_char(i + j) != needle.get_char(j) {
                proof {
                    assert(hay@.subrange(i as int, i + needle@.len() as int)[j as int]
                        == hay@[i + j]);
                }
                matched = false;
                j = nn;
            } else {
                j = j + 1;
            }
        }
        if matched {
            proof {
                assert(hay@.subrange(i as int, i + needle@.len() as int) =~= needle@);
            }
            return true;
        }
        i = i + 1;
    }
    proof {
        if is_substring(needle@, hay@) {
            let w = choose|w: int| 0 <= w && w + needle@.len() <= hay@.len()
                && #[trigger] hay@.subrange(w, w + needle@.len() as int) == needle@;
            assert(w < i);
        }
    }
    false
}

// ---------------------------------------------------------------------------
// Search parameters
// ---------------------------------------------------------------------------

/// What the menu searches with: the raw input text and, when filling a
/// hole, the target type.
pub struct CodeSearchParams {
    pub return_type: Option<Type>,
    pub input_str: String,
}

pub struct SearchParamsView {
    pub return_type: Option<TypeView>,
    pub input_str: Seq<char>,
}

impl View for CodeSearchParams {
    type V = SearchParamsView;

    open spec fn view(&self) -> SearchParamsView {
        SearchParamsView {
            return_type: match self.return_type {
                Some(t) => Some(t@),
                None => None,
            },
            input_str: self.input_str@,
        }
    }
}

impl CodeSearchParams {
    /// No target type and no search text.
    pub fn empty() -> (r: CodeSearchParams)
        ensures
            r@.return_type is None,
            r@.input_str == Seq::<char>::empty(),
    {
        let r = CodeSearchParams { return_type: None, input_str: String::new() };
        proof {
            assert(r@.input_str =~= Seq::<char>::empty());
        }
        r
    }

    /// A target type and no search text.
    pub fn with_type(t: &Type) -> (r: CodeSearchParams)
        ensures
            r@.return_type == Some(t@),
            r@.input_str == Seq::<char>::empty(),
    {
        let r = CodeSearchParams { return_type: Some(t.duplicate()), input_str: String::new() };
        proof {
            assert(r@.input_str =~= Seq::<char>::empty());
        }
        r
    }

    /// The search text as every generator matches it: trimmed, then
    /// lowercased.
    pub fn lowercased_trimmed_search_str(&self) -> (r: String)
        ensures
            r@ == search_of(self@),
    {
        lowercase(trim_str(self.input_str.as_str()))
    }
}

/// The normalized search text of the parameters.
pub open spec fn search_of(p: SearchParamsView) -> Seq<char> {
    lower_of(trim_of(p.input_str))
}

/// Exact type match, as the menu filters: the same type spec.
pub open spec fn type_matches(t: TypeView, target: TypeView) -> bool {
    t.typespec_id == target.typespec_id
}

/// Whether a candidate name passes the search text.
pub open spec fn name_passes(search: Seq<char>, name: Seq<char>) -> bool {
    search.len() == 0 || is_substring(search, lower_of(name))
}

/// Whether a candidate type passes the target filter.
pub open spec fn type_passes(t: TypeView, target: Option<TypeView>) -> bool {
    match target {
        Some(tt) => type_matches(t, tt),
        None => true,
    }
}

// ---------------------------------------------------------------------------
// Filters
// ---------------------------------------------------------------------------

/// The catalog functions that pass the search text and the target type.
pub open spec fn funcs_matching(
    funcs: Seq<FuncDescView>,
    search: Seq<char>,
    target: Option<TypeView>,
) -> Seq<FuncDescView>
    decreases funcs.len(),
{
    if funcs.len() == 0 {
        Seq::empty()
    } else if name_passes(search, funcs[0].name) && type_passes(funcs[0].return_type, target) {
        seq![funcs[0]] + funcs_matching(funcs.subrange(1, funcs.len() as int), search, target)
    } else {
        funcs_matching(funcs.subrange(1, funcs.len() as int), search, target)
    }
}

/// The visible variables that pass the search text and the target type.
pub open spec fn vars_matching(
    vars: Seq<VariableView>,
    search: Seq<char>,
    target: Option<TypeView>,
) -> Seq<VariableView>
    decreases vars.len(),
{
    if vars.len() == 0 {
        Seq::empty()
    } else if name_passes(search, vars[0].name) && type_passes(vars[0].typ, target) {
        seq![vars[0]] + vars_matching(vars.subrange(1, vars.len() as int), search, target)
    } else {
        vars_matching(vars.subrange(1, vars.len() as int), search, target)
    }
}

pub proof fn lemma_funcs_matching_push(
    funcs: Seq<FuncDescView>,
    e: FuncDescView,
    search: Seq<char>,
    target: Option<TypeView>,
)
    ensures
        funcs_matching(funcs.push(e), search, target)
            == if name_passes(search, e.name) && type_passes(e.return_type, target) {
                funcs_matching(funcs, search, target).push(e)
            } else {
                funcs_matching(funcs, search, target)
            },
    decreases funcs.len(),
{
    let sp = funcs.push(e);
    if funcs.len() == 0 {
        assert(sp[0] == e);
        assert(sp.subrange(1, sp.len() as int) =~= Seq::<FuncDescView>::empty());
        assert(funcs_matching(Seq::<FuncDescView>::empty(), search, target)
            == Seq::<FuncDescView>::empty());
        assert(funcs_matching(funcs, search, target) == Seq::<FuncDescView>::empty());
        if name_passes(search, e.name) && type_passes(e.return_type, target) {
            assert(funcs_matching(sp, search, target)
                == seq![e] + Seq::<FuncDescView>::empty());
            assert(seq![e] + Seq::<FuncDescView>::empty()
                =~= Seq::<FuncDescView>::empty().push(e));
        }
    } else {
        let rest = funcs.subrange(1, funcs.len() as int);
        lemma_funcs_matching_push(rest, e, search, target);
        assert(sp[0] == funcs[0]);
        assert(sp.subrange(1, sp.len() as int) =~= rest.push(e));
        if name_passes(search, funcs[0].name) && type_passes(funcs[0].return_type, target)
            && name_passes(search, e.name) && type_passes(e.return_type, target) {
            assert(seq![funcs[0]] + funcs_matching(rest, search, target).push(e)
                =~= (seq![funcs[0]] + funcs_matching(rest, search, target)).push(e));
        }
    }
}

pub proof fn lemma_vars_matching_push(
    vars: Seq<VariableView>,
    e: VariableView,
    search: Seq<char>,
    target: Option<TypeView>,
)
    ensures
        vars_matching(vars.push(e), search, target)
            == if name_passes(search, e.name) && type_passes(e.typ, target) {
                vars_matching(vars, search, target).push(e)
            } else {
                vars_matching(vars, search, target)
            },
    decreases vars.len(),
{
    let sp = vars.push(e);
    if vars.len() == 0 {
        assert(sp[0] == e);
        assert(sp.subrange(1, sp.len() as int) =~= Seq::<VariableView>::empty());
        assert(vars_matching(Seq::<VariableView>::empty(), search, target)
            == Seq::<VariableView>::empty());
        assert(vars_matching(vars, search, target) == Seq::<VariableView>::empty());
        if name_passes(search, e.name) && type_passes(e.typ, target) {
            assert(vars_matching(sp, search, target)
                == seq![e] + Seq::<VariableView>::empty());
            assert(seq![e] + Seq::<VariableView>::empty()
                =~= Seq::<VariableView>::empty().push(e));
        }
    } else {
        let rest = vars.subrange(1, vars.len() as int);
        lemma_vars_matching_push(rest, e, search, target);
        assert(sp[0] == vars[0]);
        assert(sp.subrange(1, sp.len() as int) =~= rest.push(e));
        if name_passes(search, vars[0].name) && type_passes(vars[0].typ, target)
            && name_passes(search, e.name) && type_passes(e.typ, target) {
            assert(seq![vars[0]] + vars_matching(rest, search, target).push(e)
                =~= (seq![vars[0]] + vars_matching(rest, search, target)).push(e));
        }
    }
}

/// Menu filtering correctness: with a target type, every function and
/// every variable the filters let through has exactly that type.
pub proof fn lemma_menu_filtering_correct(
    funcs: Seq<FuncDescView>,
    vars: Seq<VariableView>,
    search: Seq<char>,
    target: TypeView,
)
    ensures
        forall|k: int| 0 <= k < funcs_matching(funcs, search, Some(target)).len()
            ==> type_matches(
                (#[trigger] funcs_matching(funcs, search, Some(target))[k]).return_type,
                target),
        forall|k: int| 0 <= k < vars_matching(vars, search, Some(target)).len()
            ==> type_matches(
                (#[trigger] vars_matching(vars, search, Some(target))[k]).typ, target),
    decreases funcs.len() + vars.len(),
{
    if funcs.len() > 0 {
        lemma_menu_filtering_correct(funcs.subrange(1, funcs.len() as int), vars, search,
            target);
        assert forall|k: int| 0 <= k < funcs_matching(funcs, search, Some(target)).len()
            implies type_matches(
                (#[trigger] funcs_matching(funcs, search, Some(target))[k]).return_type,
                target) by {
            let rest = funcs.subrange(1, funcs.len() as int);
            if name_passes(search, funcs[0].name)
                && type_passes(funcs[0].return_type, Some(target)) {
                if k > 0 {
                    assert(funcs_matching(funcs, search, Some(target))[k]
                        == funcs_matching(rest, search, Some(target))[k - 1]);
                }
            } else {
                assert(funcs_matching(funcs, search, Some(target))[k]
                    == funcs_matching(rest, search, Some(target))[k]);
            }
        }
    } else if vars.len() > 0 {
        lemma_menu_filtering_correct(funcs, vars.subrange(1, vars.len() as int), search,
            target);
        assert forall|k: int| 0 <= k < vars_matching(vars, search, Some(target)).len()
            implies type_matches(
                (#[trigger] vars_matching(vars, search, Some(target))[k]).typ, target) by {
            let rest = vars.subrange(1, vars.len() as int);
            if name_passes(search, vars[0].name) && type_passes(vars[0].typ, Some(target)) {
                if k > 0 {
                    assert(vars_matching(vars, search, Some(target))[k]
                        == vars_matching(rest, search, Some(target))[k - 1]);
                }
            } else {
                assert(vars_matching(vars, search, Some(target))[k]
                    == vars_matching(rest, search, Some(target))[k]);
            }
        }
    }
}

// ---------------------------------------------------------------------------
// Menu options
// ---------------------------------------------------------------------------

/// One candidate the menu offers.
pub struct InsertCodeMenuOption {
    pub label: String,
    pub new_node: CodeNode,
    pub is_selected: bool,
}

/// The generators a menu runs, in order.
#[derive(Clone, Copy, Debug, PartialEq, Eq, Structural)]
pub enum OptionGeneratorKind {
    InsertFunction,
    InsertVariableReference,
    InsertLiteral,
}

/// The function-call candidates: one per catalog function that passes
/// the filters, labelled with the function's name.
pub fn insert_function_options(
    search_params: &CodeSearchParams,
    env: &ExecutionEnvironment,
    id_gen: &mut IdGen,
) -> (r: Vec<InsertCodeMenuOption>)
    ensures
        r@.len() == funcs_matching(env@.funcs, search_of(search_params@),
            search_params@.return_type).len(),
        forall|k: int| 0 <= k < r@.len()
            ==> !(#[trigger] r@[k]).is_selected
                && function_option_at(search_params@, env@, k, r@[k].label@,
                    r@[k].new_node@),
{
    let ghost search = search_of(search_params@);
    let ghost target = search_params@.return_type;
    let input = search_params.lowercased_trimmed_search_str();
    let funcs = env.list_functions();
    let mut r: Vec<InsertCodeMenuOption> = Vec::new();
    let mut i: usize = 0;
    while i < funcs.len()
        invariant
            i <= funcs@.len(),
            funcs@.len() == env@.funcs.len(),
            search == search_of(search_params@),
            target == search_params@.return_type,
            input@ == search,
            forall|k: int| 0 <= k < funcs@.len() ==> (#[trigger] funcs@[k])@ == env@.funcs[k],
            r@.len() == funcs_matching(env@.funcs.subrange(0, i as int), search, target).len(),
            forall|k: int| 0 <= k < r@.len() ==> {
                let kept = funcs_matching(env@.funcs.subrange(0, i as int), search, target);
                (#[trigger] r@[k]).label@ == kept[k].name
                    && !r@[k].is_selected
                    && (r@[k].new_node@ matches NodeView::FunctionCall {
                        function_reference,
                        ..
                    } && *function_reference matches NodeView::FunctionReference {
                        function_id,
                        ..
                    } && function_id == kept[k].id)
            },
        decreases funcs@.len() - i,
    {
        let ghost prefix = env@.funcs.subrange(0, i as int);
        let f = funcs[i];
        let name_ok = if input.as_str().unicode_len() == 0 {
            true
        } else {
            let lowered = lowercase(f.name.as_str());
            contains_chars(lowered.as_str(), input.as_str())
        };
        let type_ok = match &search_params.return_type {
            Some(t) => f.return_type.typespec_id == t.typespec_id,
            None => true,
        };
        if name_ok && type_ok {
            let node = new_function_call_with_placeholder_args(f, id_gen);
            proof {
                assert(node@ matches NodeView::FunctionCall { .. });
            }
            r.push(InsertCodeMenuOption {
                label: f.name.clone(),
                new_node: node,
                is_selected: false,
            });
        }
        proof {
            assert(env@.funcs.subrange(0, (i + 1) as int)
                =~= prefix.push(env@.funcs[i as int]));
            lemma_funcs_matching_push(prefix, env@.funcs[i as int], search, target);
        }
        i = i + 1;
    }
    proof {
        assert(env@.funcs.subrange(0, env@.funcs.len() as int) =~= env@.funcs);
    }
    r
}

/// The variable-reference candidates: one per visible variable that
/// passes the filters, labelled with the variable's name.
pub fn insert_variable_options(
    search_params: &CodeSearchParams,
    insertion_id: ID,
    genie: &CodeGenie,
    env: &ExecutionEnvironment,
    id_gen: &mut IdGen,
) -> (r: Vec<InsertCodeMenuOption>)
    ensures
        r@.len() == vars_matching(
            locals_view(genie@, env@, SearchPosition {
                before_code_id: insertion_id,
                is_search_inclusive: false,
            }),
            search_of(search_params@), search_params@.return_type).len(),
        forall|k: int| 0 <= k < r@.len()
            ==> !(#[trigger] r@[k]).is_selected
                && variable_option_at(search_params@, insertion_id, genie@, env@, k,
                    r@[k].label@, r@[k].new_node@),
{
    let ghost search = search_of(search_params@);
    let ghost target = search_params@.return_type;
    let input = search_params.lowercased_trimmed_search_str();
    let position = SearchPosition::not_inclusive(insertion_id);
    let vars = find_all_locals_preceding_without_resolving_generics(position, genie, env);
    let ghost lvs = locals_view(genie@, env@, SearchPosition {
        before_code_id: insertion_id,
        is_search_inclusive: false,
    });
    let mut r: Vec<InsertCodeMenuOption> = Vec::new();
    let mut i: usize = 0;
    while i < vars.len()
        invariant
            i <= vars@.len(),
            vars@.len() == lvs.len(),
            search == search_of(search_params@),
            target == search_params@.return_type,
            input@ == search,
            forall|k: int| 0 <= k < vars@.len() ==> (#[trigger] vars@[k])@ == lvs[k],
            r@.len() == vars_matching(lvs.subrange(0, i as int), search, target).len(),
            forall|k: int| 0 <= k < r@.len() ==> {
                let kept = vars_matching(lvs.subrange(0, i as int), search, target);
                (#[trigger] r@[k]).label@ == kept[k].name
                    && !r@[k].is_selected
                    && r@[k].new_node@ == (NodeView::VariableReference {
                        id: r@[k].new_node@.nid(),
                        assignment_id: kept[k].locals_id,
                    })
            },
        decreases vars@.len() - i,
    {
        let ghost prefix = lvs.subrange(0, i as int);
        let v = &vars[i];
        let name_ok = if input.as_str().unicode_len() == 0 {
            true
        } else {
            let lowered = lowercase(v.name.as_str());
            contains_chars(lowered.as_str(), input.as_str())
        };
        let type_ok = match &search_params.return_type {
            Some(t) => v.typ.typespec_id == t.typespec_id,
            None => true,
        };
        if name_ok && type_ok {
            let node = new_variable_reference_to(v.locals_id, id_gen);
            r.push(InsertCodeMenuOption {
                label: v.name.clone(),
                new_node: node,
                is_selected: false,
            });
        }
        proof {
            assert(lvs.subrange(0, (i + 1) as int) =~= prefix.push(lvs[i as int]));
            lemma_vars_matching_push(prefix, lvs[i as int], search, target);
        }
        i = i + 1;
    }
    proof {
        assert(lvs.subrange(0, lvs.len() as int) =~= lvs);
    }
    r
}

/// The literal candidates for a target type: a string literal when the
/// target is the string type, a null literal when it is the null type, a
/// struct literal when the target names a known struct — and always a
/// typed placeholder, so the user is never blocked from leaving the hole
/// open.  Without a target type there are no literal candidates.
pub fn insert_literal_options(
    search_params: &CodeSearchParams,
    env: &ExecutionEnvironment,
    id_gen: &mut IdGen,
) -> (r: Vec<InsertCodeMenuOption>)
    ensures
        r@.len() == literal_count(search_params@, env@),
        forall|k: int| 0 <= k < r@.len()
            ==> !(#[trigger] r@[k]).is_selected
                && literal_option_at(search_params@, env@, k, r@[k].label@,
                    r@[k].new_node@),
        search_params@.return_type matches Some(t)
            ==> (r@.len() > 0
                ==> (r@[r@.len() - 1].new_node@ matches NodeView::Placeholder { typ, .. }
                    && typ == t)),
{
    let target = match &search_params.return_type {
        Some(t) => t,
        None => {
            return Vec::new();
        },
    };
    let mut r: Vec<InsertCodeMenuOption> = Vec::new();
    if target.typespec_id == STRING_TYPESPEC_ID {
        let node = new_string_literal(search_params.input_str.as_str(), id_gen);
        r.push(InsertCodeMenuOption {
            label: search_params.input_str.clone(),
            new_node: node,
            is_selected: false,
        });
    } else if target.typespec_id == NULL_TYPESPEC_ID {
        let node = new_null_literal(id_gen);
        r.push(InsertCodeMenuOption {
            label: "null".to_owned(),
            new_node: node,
            is_selected: false,
        });
    } else {
        match env.find_struct(target.typespec_id) {
            Some(strukt) => {
                let node = new_struct_literal_with_placeholders(strukt, id_gen);
                r.push(InsertCodeMenuOption {
                    label: strukt.name.clone(),
                    new_node: node,
                    is_selected: false,
                });
            },
            None => {},
        }
    }
    let ph = new_placeholder(search_params.input_str.clone(), target.duplicate(), id_gen);
    r.push(InsertCodeMenuOption {
        label: search_params.input_str.clone(),
        new_node: ph,
        is_selected: false,
    });
    r
}

/// Whether a literal candidate fits the target type: it is the matching
/// literal kind, a literal of the struct the catalog names for the
/// target, or the typed placeholder.
pub open spec fn literal_option_fits(n: NodeView, target: TypeView, env: EnvView) -> bool {
    ||| (n is StringLiteral && target.typespec_id == STRING_TYPESPEC_ID)
    ||| (n is NullLiteral && target.typespec_id == NULL_TYPESPEC_ID)
    ||| (n matches NodeView::StructLiteral { struct_id, .. }
        && find_struct_view(env.typespecs, target.typespec_id) matches Some(sd)
        && struct_id == sd.id)
    ||| (n matches NodeView::Placeholder { typ, .. } && typ.typespec_id == target.typespec_id)
}

/// How many literal candidates a target type yields: the matching
/// literal plus the placeholder where a literal kind or struct matches,
/// the placeholder alone otherwise, nothing without a target.
pub open spec fn literal_count(p: SearchParamsView, env: EnvView) -> nat {
    match p.return_type {
        None => 0,
        Some(t) => if t.typespec_id == STRING_TYPESPEC_ID
            || t.typespec_id == NULL_TYPESPEC_ID
            || find_struct_view(env.typespecs, t.typespec_id) is Some {
            2
        } else {
            1
        },
    }
}

/// What the function-call candidate at position `i` holds: the name of
/// the `i`-th function that passes the filters as its label, and a call
/// of that function as its node.
pub open spec fn function_option_at(
    p: SearchParamsView,
    env: EnvView,
    i: int,
    label: Seq<char>,
    node: NodeView,
) -> bool {
    let kept = funcs_matching(env.funcs, search_of(p), p.return_type);
    &&& 0 <= i < kept.len()
    &&& label == kept[i].name
    &&& (node matches NodeView::FunctionCall { function_reference, .. }
        && *function_reference matches NodeView::FunctionReference { function_id, .. }
        && function_id == kept[i].id)
}

/// What the variable candidate at position `i` holds: the name of the
/// `i`-th visible variable that passes the filters, and a reference to
/// its declaration.
pub open spec fn variable_option_at(
    p: SearchParamsView,
    anchor: ID,
    root: NodeView,
    env: EnvView,
    i: int,
    label: Seq<char>,
    node: NodeView,
) -> bool {
    let kept = vars_matching(locals_view(root, env, SearchPosition {
        before_code_id: anchor,
        is_search_inclusive: false,
    }), search_of(p), p.return_type);
    &&& 0 <= i < kept.len()
    &&& label == kept[i].name
    &&& node == (NodeView::VariableReference {
        id: node.nid(),
        assignment_id: kept[i].locals_id,
    })
}

/// What the literal candidate at position `i` holds: first the literal
/// the target type calls for, last the typed placeholder.
pub open spec fn literal_option_at(
    p: SearchParamsView,
    env: EnvView,
    i: int,
    label: Seq<char>,
    node: NodeView,
) -> bool {
    match p.return_type {
        None => false,
        Some(t) => 0 <= i < literal_count(p, env) && literal_option_fits(node, t, env)
            && if i + 1 < literal_count(p, env) {
                if t.typespec_id == STRING_TYPESPEC_ID {
                    node matches NodeView::StringLiteral { value, .. }
                        && value == p.input_str && label == p.input_str
                } else if t.typespec_id == NULL_TYPESPEC_ID {
                    node is NullLiteral && label == "null"@
                } else {
                    find_struct_view(env.typespecs, t.typespec_id) matches Some(sd)
                        && (node matches NodeView::StructLiteral { struct_id, .. }
                            && struct_id == sd.id)
                        && label == sd.name
                }
            } else {
                node matches NodeView::Placeholder { description, typ, .. }
                    && description == p.input_str && typ == t && label == p.input_str
            },
    }
}

/// What one generator's candidate at position `i` holds.
pub open spec fn option_matches(
    k: OptionGeneratorKind,
    menu_ip: InsertionPoint,
    p: SearchParamsView,
    root: NodeView,
    env: EnvView,
    i: int,
    label: Seq<char>,
    node: NodeView,
) -> bool {
    match k {
        OptionGeneratorKind::InsertFunction => function_option_at(p, env, i, label, node),
        OptionGeneratorKind::InsertVariableReference => variable_option_at(p,
            crate::code_editor::ip_node_id(menu_ip), root, env, i, label, node),
        OptionGeneratorKind::InsertLiteral => literal_option_at(p, env, i, label, node),
    }
}

/// How many candidates one generator yields.
pub open spec fn generator_count(
    k: OptionGeneratorKind,
    menu_ip: InsertionPoint,
    p: SearchParamsView,
    root: NodeView,
    env: EnvView,
) -> nat {
    match k {
        OptionGeneratorKind::InsertFunction =>
            funcs_matching(env.funcs, search_of(p), p.return_type).len(),
        OptionGeneratorKind::InsertVariableReference =>
            vars_matching(locals_view(root, env, SearchPosition {
                before_code_id: crate::code_editor::ip_node_id(menu_ip),
                is_search_inclusive: false,
            }), search_of(p), p.return_type).len(),
        OptionGeneratorKind::InsertLiteral => literal_count(p, env),
    }
}

/// How many candidates a list of generators yields in all.
pub open spec fn generators_total(
    gens: Seq<OptionGeneratorKind>,
    menu_ip: InsertionPoint,
    p: SearchParamsView,
    root: NodeView,
    env: EnvView,
) -> nat
    decreases gens.len(),
{
    if gens.len() == 0 {
        0
    } else {
        generator_count(gens[0], menu_ip, p, root, env)
            + generators_total(gens.subrange(1, gens.len() as int), menu_ip, p, root, env)
    }
}

/// The label and node of one offered candidate; the selection mark is
/// kept aside, so marking an option does not change what it offers.
pub struct OptionView {
    pub label: Seq<char>,
    pub node: NodeView,
}

/// The labels and nodes of an option list.
pub open spec fn option_views(s: Seq<InsertCodeMenuOption>) -> Seq<OptionView> {
    s.map_values(|o: InsertCodeMenuOption| OptionView { label: o.label@, node: o.new_node@ })
}

/// Whether an option list is exactly the concatenation, in generator
/// order, of each generator's candidates.
pub open spec fn options_ok(
    gens: Seq<OptionGeneratorKind>,
    opts: Seq<OptionView>,
    menu_ip: InsertionPoint,
    p: SearchParamsView,
    root: NodeView,
    env: EnvView,
) -> bool
    decreases gens.len(),
{
    if gens.len() == 0 {
        opts.len() == 0
    } else {
        let c = generator_count(gens[0], menu_ip, p, root, env);
        &&& opts.len() >= c
        &&& (forall|i: int| 0 <= i < c ==> option_matches(gens[0], menu_ip, p, root, env,
            i, (#[trigger] opts[i]).label, opts[i].node))
        &&& options_ok(gens.subrange(1, gens.len() as int),
            opts.subrange(c as int, opts.len() as int), menu_ip, p, root, env)
    }
}

/// An option list that the generators account for has exactly their
/// total length.
pub proof fn lemma_options_ok_len(
    gens: Seq<OptionGeneratorKind>,
    opts: Seq<OptionView>,
    menu_ip: InsertionPoint,
    p: SearchParamsView,
    root: NodeView,
    env: EnvView,
)
    requires
        options_ok(gens, opts, menu_ip, p, root, env),
    ensures
        opts.len() == generators_total(gens, menu_ip, p, root, env),
    decreases gens.len(),
{
    if gens.len() > 0 {
        let c = generator_count(gens[0], menu_ip, p, root, env);
        lemma_options_ok_len(gens.subrange(1, gens.len() as int),
            opts.subrange(c as int, opts.len() as int), menu_ip, p, root, env);
    }
}

/// Appending one more generator's exact batch keeps the list accounted
/// for.
proof fn lemma_options_ok_push(
    gens: Seq<OptionGeneratorKind>,
    k: OptionGeneratorKind,
    opts: Seq<OptionView>,
    batch: Seq<OptionView>,
    menu_ip: InsertionPoint,
    p: SearchParamsView,
    root: NodeView,
    env: EnvView,
)
    requires
        options_ok(gens, opts, menu_ip, p, root, env),
        batch.len() == generator_count(k, menu_ip, p, root, env),
        forall|i: int| 0 <= i < batch.len() ==> option_matches(k, menu_ip, p, root, env,
            i, (#[trigger] batch[i]).label, batch[i].node),
    ensures
        options_ok(gens.push(k), opts + batch, menu_ip, p, root, env),
    decreases gens.len(),
{
    let gp = gens.push(k);
    let combined = opts + batch;
    if gens.len() == 0 {
        assert(opts.len() == 0);
        assert(combined =~= batch);
        assert(gp[0] == k);
        assert(gp.subrange(1, gp.len() as int) =~= Seq::<OptionGeneratorKind>::empty());
        let c = generator_count(k, menu_ip, p, root, env);
        assert(combined.subrange(c as int, combined.len() as int)
            =~= Seq::<OptionView>::empty());
        assert(options_ok(Seq::<OptionGeneratorKind>::empty(),
            Seq::<OptionView>::empty(), menu_ip, p, root, env));
    } else {
        let c0 = generator_count(gens[0], menu_ip, p, root, env);
        assert(gp[0] == gens[0]);
        assert(gp.subrange(1, gp.len() as int)
            =~= gens.subrange(1, gens.len() as int).push(k));
        lemma_options_ok_push(gens.subrange(1, gens.len() as int), k,
            opts.subrange(c0 as int, opts.len() as int), batch, menu_ip, p, root, env);
        assert(combined.subrange(c0 as int, combined.len() as int)
            =~= opts.subrange(c0 as int, opts.len() as int) + batch);
        assert forall|i: int| 0 <= i < c0 implies option_matches(gp[0], menu_ip, p, root,
            env, i, (#[trigger] combined[i]).label, combined[i].node) by {
            assert(combined[i] == opts[i]);
        }
    }
}

/// Whether a node is what the candidate at flat position `pos` of the
/// generator list offers, for some label.
pub open spec fn node_at_matches(
    gens: Seq<OptionGeneratorKind>,
    pos: int,
    node: NodeView,
    menu_ip: InsertionPoint,
    p: SearchParamsView,
    root: NodeView,
    env: EnvView,
) -> bool
    decreases gens.len(),
{
    if gens.len() == 0 {
        false
    } else {
        let c = generator_count(gens[0], menu_ip, p, root, env);
        if pos < c {
            exists|label: Seq<char>| option_matches(gens[0], menu_ip, p, root, env, pos,
                label, node)
        } else {
            node_at_matches(gens.subrange(1, gens.len() as int), pos - c, node, menu_ip,
                p, root, env)
        }
    }
}

/// An accounted-for option list's node at any position is what the
/// generators offer there.
proof fn lemma_options_ok_at(
    gens: Seq<OptionGeneratorKind>,
    opts: Seq<OptionView>,
    pos: int,
    menu_ip: InsertionPoint,
    p: SearchParamsView,
    root: NodeView,
    env: EnvView,
)
    requires
        options_ok(gens, opts, menu_ip, p, root, env),
        0 <= pos < opts.len(),
    ensures
        node_at_matches(gens, pos, opts[pos].node, menu_ip, p, root, env),
    decreases gens.len(),
{
    if gens.len() > 0 {
        let c = generator_count(gens[0], menu_ip, p, root, env);
        if pos < c {
            assert(option_matches(gens[0], menu_ip, p, root, env, pos, opts[pos].label,
                opts[pos].node));
        } else {
            lemma_options_ok_len(gens, opts, menu_ip, p, root, env);
            lemma_options_ok_at(gens.subrange(1, gens.len() as int),
                opts.subrange(c as int, opts.len() as int), pos - c, menu_ip, p, root,
                env);
            assert(opts.subrange(c as int, opts.len() as int)[pos - c] == opts[pos]);
        }
    }
}

// ---------------------------------------------------------------------------
// The menu
// ---------------------------------------------------------------------------

/// The insert-code menu: the generators to run, the search state, the
/// wrapping selection index and the insertion point being filled.
pub struct InsertCodeMenu {
    pub option_generators: Vec<OptionGeneratorKind>,
    pub selected_option_index: usize,
    pub search_params: CodeSearchParams,
    pub insertion_point: InsertionPoint,
}

impl InsertCodeMenu {
    /// The menu for an insertion point: fresh statements offer function
    /// calls; holes offer variables, functions and literals filtered by
    /// the hole's type.  In-place edits have no menu.
    pub fn for_insertion_point(
        insertion_point: InsertionPoint,
        genie: &CodeGenie,
        env: &ExecutionEnvironment,
    ) -> (r: Option<InsertCodeMenu>)
        ensures
            match r {
                Some(menu) => menu.insertion_point == insertion_point
                    && menu.selected_index_view() == 0
                    && menu.search_params@.input_str == Seq::<char>::empty()
                    && !(insertion_point matches InsertionPoint::Editing(_))
                    && ((insertion_point matches InsertionPoint::BeginningOfBlock(_)
                        || insertion_point matches InsertionPoint::Before(_)
                        || insertion_point matches InsertionPoint::After(_))
                        ==> (menu.option_generators@
                            == seq![OptionGeneratorKind::InsertFunction]
                            && menu.search_params@.return_type is None))
                    && ((insertion_point matches InsertionPoint::Argument(_)
                        || insertion_point matches InsertionPoint::StructLiteralField(_)
                        || insertion_point
                            matches InsertionPoint::ListLiteralElement { .. })
                        ==> (menu.option_generators@ == seq![
                            OptionGeneratorKind::InsertVariableReference,
                            OptionGeneratorKind::InsertFunction,
                            OptionGeneratorKind::InsertLiteral,
                        ] && menu.search_params@.return_type == guess_type_view(genie@,
                            find_view(genie@,
                                crate::code_editor::ip_node_id(insertion_point)).unwrap(),
                            env@, usize::MAX as nat))),
                None => insertion_point matches InsertionPoint::Editing(_)
                    || (find_view(genie@, crate::code_editor::ip_node_id(insertion_point))
                        is None
                        && (insertion_point matches InsertionPoint::Argument(_)
                            || insertion_point matches InsertionPoint::StructLiteralField(_)
                            || insertion_point
                                matches InsertionPoint::ListLiteralElement { .. })),
            },
    {
        match insertion_point {
            InsertionPoint::BeginningOfBlock(_)
            | InsertionPoint::Before(_)
            | InsertionPoint::After(_) => {
                Some(Self::new_expression_inside_code_block(insertion_point))
            },
            InsertionPoint::Argument(field_id)
            | InsertionPoint::StructLiteralField(field_id) => {
                Self::fill_in_field_with_exact_type(field_id, genie, env, insertion_point)
            },
            InsertionPoint::ListLiteralElement { list_literal_id, .. } => {
                Self::fill_in_field_with_exact_type(list_literal_id, genie, env,
                    insertion_point)
            },
            InsertionPoint::Editing(_) => None,
        }
    }

    /// The menu for a fresh statement: function calls only, no target
    /// type.
    pub fn new_expression_inside_code_block(insertion_point: InsertionPoint)
        -> (r: InsertCodeMenu)
        ensures
            r.insertion_point == insertion_point,
            r.selected_index_view() == 0,
            r.search_params@.return_type is None,
            r.search_params@.input_str == Seq::<char>::empty(),
            r.option_generators@ == seq![OptionGeneratorKind::InsertFunction],
    {
        let mut generators: Vec<OptionGeneratorKind> = Vec::new();
        generators.push(OptionGeneratorKind::InsertFunction);
        proof {
            assert(generators@ =~= seq![OptionGeneratorKind::InsertFunction]);
        }
        InsertCodeMenu {
            option_generators: generators,
            selected_option_index: 0,
            search_params: CodeSearchParams::empty(),
            insertion_point,
        }
    }

    /// The menu for a hole: variables, functions and literals, filtered
    /// by the hole's inferred type.
    pub fn fill_in_field_with_exact_type(
        id: ID,
        genie: &CodeGenie,
        env: &ExecutionEnvironment,
        insertion_point: InsertionPoint,
    ) -> (r: Option<InsertCodeMenu>)
        ensures
            match r {
                Some(menu) => menu.insertion_point == insertion_point
                    && menu.selected_index_view() == 0
                    && menu.search_params@.input_str == Seq::<char>::empty()
                    && menu.option_generators@ == seq![
                        OptionGeneratorKind::InsertVariableReference,
                        OptionGeneratorKind::InsertFunction,
                        OptionGeneratorKind::InsertLiteral,
                    ]
                    && menu.search_params@.return_type == guess_type_view(genie@,
                        find_view(genie@, id).unwrap(), env@, usize::MAX as nat),
                None => find_view(genie@, id) is None,
            },
    {
        let node = match genie.find_node(id) {
            Some(n) => n,
            None => {
                return None;
            },
        };
        let search_params = match genie.guess_type(node, env) {
            Some(t) => CodeSearchParams::with_type(&t),
            None => CodeSearchParams::empty(),
        };
        let mut generators: Vec<OptionGeneratorKind> = Vec::new();
        generators.push(OptionGeneratorKind::InsertVariableReference);
        generators.push(OptionGeneratorKind::InsertFunction);
        generators.push(OptionGeneratorKind::InsertLiteral);
        proof {
            assert(generators@ =~= seq![
                OptionGeneratorKind::InsertVariableReference,
                OptionGeneratorKind::InsertFunction,
                OptionGeneratorKind::InsertLiteral,
            ]);
        }
        Some(InsertCodeMenu {
            option_generators: generators,
            selected_option_index: 0,
            search_params,
            insertion_point,
        })
    }

    /// The raw selection counter.
    pub open spec fn selected_index_view(&self) -> nat {
        self.selected_option_index as nat
    }

    /// The raw search text.
    pub fn search_str(&self) -> (r: &str)
        ensures
            r@ == self.search_params@.input_str,
    {
        self.search_params.input_str.as_str()
    }

    /// Replaces the search text; a change resets the selection.
    pub fn set_search_str(&mut self, input_str: &str)
        ensures
            final(self).search_params@.input_str == input_str@,
            final(self).search_params@.return_type
                == old(self).search_params@.return_type,
            final(self).insertion_point == old(self).insertion_point,
            final(self).option_generators == old(self).option_generators,
            input_str@ == old(self).search_params@.input_str
                ==> final(self).selected_index_view() == old(self).selected_index_view(),
            input_str@ != old(self).search_params@.input_str
                ==> final(self).selected_index_view() == 0,
    {
        let new_text = input_str.to_owned();
        if !new_text.eq(&self.search_params.input_str) {
            self.search_params.input_str = new_text;
            self.selected_option_index = 0;
        } else {
            self.search_params.input_str = new_text;
        }
    }

    /// Advances the wrapping selection.
    pub fn select_next(&mut self)
        ensures
            *final(self) == (InsertCodeMenu {
                selected_option_index: if old(self).selected_option_index < usize::MAX {
                    (old(self).selected_option_index + 1) as usize
                } else {
                    0
                },
                ..*old(self)
            }),
    {
        if self.selected_option_index < usize::MAX {
            self.selected_option_index = self.selected_option_index + 1;
        } else {
            self.selected_option_index = 0;
        }
    }

    /// The selection folded into the option count.
    pub fn selected_index(&self, num_options: usize) -> (r: usize)
        requires
            num_options > 0,
        ensures
            r == self.selected_index_view() % (num_options as nat),
    {
        self.selected_option_index % num_options
    }

    /// Every candidate the generators offer: the concatenation, in
    /// generator order, of each generator's option list, with exactly the
    /// candidate at the wrapping selected index marked.
    pub fn list_options(
        &self,
        code_genie: &CodeGenie,
        env: &ExecutionEnvironment,
        id_gen: &mut IdGen,
    ) -> (r: Vec<InsertCodeMenuOption>)
        ensures
            options_ok(self.option_generators@, option_views(r@), self.insertion_point,
                self.search_params@, code_genie@, env@),
            r@.len() == generators_total(self.option_generators@, self.insertion_point,
                self.search_params@, code_genie@, env@),
            forall|k: int| 0 <= k < r@.len()
                ==> ((#[trigger] r@[k]).is_selected
                    <==> k == self.selected_index_view() % (r@.len() as nat)),
    {
        let ghost gens = self.option_generators@;
        let ghost p = self.search_params@;
        let ghost root = code_genie@;
        let mut all: Vec<InsertCodeMenuOption> = Vec::new();
        let mut g: usize = 0;
        proof {
            assert(option_views(all@) =~= Seq::<OptionView>::empty());
            assert(gens.subrange(0, 0) =~= Seq::<OptionGeneratorKind>::empty());
        }
        while g < self.option_generators.len()
            invariant
                g <= gens.len(),
                gens == self.option_generators@,
                p == self.search_params@,
                root == code_genie@,
                options_ok(gens.subrange(0, g as int), option_views(all@),
                    self.insertion_point, p, root, env@),
                forall|k: int| 0 <= k < all@.len() ==> !(#[trigger] all@[k]).is_selected,
            decreases gens.len() - g,
        {
            let ghost prefix = gens.subrange(0, g as int);
            let ghost pre = option_views(all@);
            let kind = self.option_generators[g];
            let mut batch = match kind {
                OptionGeneratorKind::InsertFunction => {
                    insert_function_options(&self.search_params, env, id_gen)
                },
                OptionGeneratorKind::InsertVariableReference => {
                    insert_variable_options(&self.search_params,
                        self.insertion_point.node_id(), code_genie, env, id_gen)
                },
                OptionGeneratorKind::InsertLiteral => {
                    insert_literal_options(&self.search_params, env, id_gen)
                },
            };
            let ghost batchvs = option_views(batch@);
            proof {
                assert(batchvs.len() == batch@.len());
                assert forall|i: int| 0 <= i < batchvs.len()
                    implies option_matches(kind, self.insertion_point, p, root, env@, i,
                        (#[trigger] batchvs[i]).label, batchvs[i].node) by {
                    assert(batchvs[i] == (OptionView {
                        label: batch@[i].label@,
                        node: batch@[i].new_node@,
                    }));
                }
            }
            all.append(&mut batch);
            proof {
                assert(option_views(all@) =~= pre + batchvs);
                assert(gens.subrange(0, (g + 1) as int) =~= prefix.push(gens[g as int]));
                lemma_options_ok_push(prefix, gens[g as int], pre, batchvs,
                    self.insertion_point, p, root, env@);
            }
            g = g + 1;
        }
        proof {
            assert(gens.subrange(0, gens.len() as int) =~= gens);
            lemma_options_ok_len(gens, option_views(all@), self.insertion_point, p, root,
                env@);
        }
        if all.len() > 0 {
            let ghost pre = option_views(all@);
            let sel = self.selected_index(all.len());
            let chosen = &all[sel];
            let marked = InsertCodeMenuOption {
                label: chosen.label.clone(),
                new_node: chosen.new_node.duplicate(),
                is_selected: true,
            };
            all.set(sel, marked);
            proof {
                assert(option_views(all@) =~= pre);
            }
        }
        all
    }

    /// The candidate node the current selection picks: present exactly
    /// when the generators offer anything, and then the node of the
    /// option at the wrapping selected index.
    pub fn selected_option_code(
        &self,
        code_genie: &CodeGenie,
        env: &ExecutionEnvironment,
        id_gen: &mut IdGen,
    ) -> (r: Option<CodeNode>)
        ensures
            r is Some <==> generators_total(self.option_generators@, self.insertion_point,
                self.search_params@, code_genie@, env@) > 0,
            r matches Some(n) ==> node_at_matches(self.option_generators@,
                (self.selected_index_view() % (generators_total(self.option_generators@,
                    self.insertion_point, self.search_params@, code_genie@,
                    env@))) as int,
                n@, self.insertion_point, self.search_params@, code_genie@, env@),
    {
        let all_options = self.list_options(code_genie, env, id_gen);
        if all_options.len() == 0 {
            return None;
        }
        let selected = self.selected_index(all_options.len());
        let node = all_options[selected].new_node.duplicate();
        proof {
            lemma_options_ok_at(self.option_generators@, option_views(all_options@),
                selected as int, self.insertion_point, self.search_params@, code_genie@,
                env@);
            assert(option_views(all_options@)[selected as int].node
                == all_options@[selected as int].new_node@);
        }
        Some(node)
    }
}

} // verus!
