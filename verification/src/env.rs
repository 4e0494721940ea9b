//! The function and type catalog the editor consults: an explicit registry
//! of function descriptors, type specs and per-code argument lists, keyed
//! by id.
//!
//! The editing core never evaluates code; it only asks the catalog what a
//! function is called, what it returns and which arguments it takes, so a
//! descriptor holds exactly that.  User-supplied function objects enter
//! the registry through the [`Function`] trait, which hands over one
//! descriptor per function.

use vstd::prelude::*;

use crate::lang::{
    type_views, ArgDefView, ArgumentDefinition, Type, TypeView, ID,
};

verus! {

// ---------------------------------------------------------------------------
// Builtin type specs
// ---------------------------------------------------------------------------

pub const STRING_TYPESPEC_ID: ID = 1;
pub const NUMBER_TYPESPEC_ID: ID = 2;
pub const NULL_TYPESPEC_ID: ID = 3;
pub const LIST_TYPESPEC_ID: ID = 4;
pub const ANON_FUNC_TYPESPEC_ID: ID = 5;

/// What a type spec is: a builtin, a user-defined struct, or a generic
/// type parameter that resolution may later bind.
#[derive(Debug)]
pub enum TypeSpecKind {
    Builtin,
    Strukt(StructDesc),
    Generic,
}

/// One entry of the type-spec registry.
#[derive(Debug)]
pub struct TypeSpecDesc {
    pub id: ID,
    pub readable_name: String,
    pub symbol: String,
    pub num_params: usize,
    pub kind: TypeSpecKind,
}

/// A user-defined struct: name, symbol and typed fields.
#[derive(Debug)]
pub struct StructDesc {
    pub id: ID,
    pub name: String,
    pub symbol: String,
    pub fields: Vec<StructField>,
}

/// One field of a user-defined struct.
#[derive(Debug)]
pub struct StructField {
    pub id: ID,
    pub name: String,
    pub field_type: Type,
}

pub struct StructFieldView {
    pub id: ID,
    pub name: Seq<char>,
    pub field_type: TypeView,
}

pub struct StructDescView {
    pub id: ID,
    pub name: Seq<char>,
    pub symbol: Seq<char>,
    pub fields: Seq<StructFieldView>,
}

pub enum TypeSpecKindView {
    Builtin,
    Strukt(StructDescView),
    Generic,
}

pub struct TypeSpecDescView {
    pub id: ID,
    pub readable_name: Seq<char>,
    pub symbol: Seq<char>,
    pub num_params: nat,
    pub kind: TypeSpecKindView,
}

impl View for StructField {
    type V = StructFieldView;

    open spec fn view(&self) -> StructFieldView {
        StructFieldView { id: self.id, name: self.name@, field_type: self.field_type@ }
    }
}

impl View for StructDesc {
    type V = StructDescView;

    open spec fn view(&self) -> StructDescView {
        StructDescView {
            id: self.id,
            name: self.name@,
            symbol: self.symbol@,
            fields: struct_fields_view(self.fields@),
        }
    }
}

impl View for TypeSpecDesc {
    type V = TypeSpecDescView;

    open spec fn view(&self) -> TypeSpecDescView {
        TypeSpecDescView {
            id: self.id,
            readable_name: self.readable_name@,
            symbol: self.symbol@,
            num_params: self.num_params as nat,
            kind: match self.kind {
                TypeSpecKind::Builtin => TypeSpecKindView::Builtin,
                TypeSpecKind::Strukt(s) => TypeSpecKindView::Strukt(s@),
                TypeSpecKind::Generic => TypeSpecKindView::Generic,
            },
        }
    }
}

/// The type that applies a type spec to no parameters.
pub fn type_from_spec_id(typespec_id: ID) -> (r: Type)
    ensures
        r@ == (TypeView { typespec_id, params: Seq::empty() }),
{
    let r = Type { typespec_id, params: Vec::new() };
    proof {
        assert(type_views(r.params@) =~= Seq::<TypeView>::empty());
    }
    r
}

/// The type that applies a type spec to the given parameters.
pub fn type_with_params(typespec_id: ID, params: Vec<Type>) -> (r: Type)
    ensures
        r@ == (TypeView { typespec_id, params: type_views(params@) }),
{
    Type { typespec_id, params }
}

/// The builtin string type.
pub fn string_type() -> (r: Type)
    ensures
        r@ == (TypeView { typespec_id: STRING_TYPESPEC_ID, params: Seq::empty() }),
{
    type_from_spec_id(STRING_TYPESPEC_ID)
}

/// The builtin number type.
pub fn number_type() -> (r: Type)
    ensures
        r@ == (TypeView { typespec_id: NUMBER_TYPESPEC_ID, params: Seq::empty() }),
{
    type_from_spec_id(NUMBER_TYPESPEC_ID)
}

/// The builtin null (unit) type.
pub fn null_type() -> (r: Type)
    ensures
        r@ == (TypeView { typespec_id: NULL_TYPESPEC_ID, params: Seq::empty() }),
{
    type_from_spec_id(NULL_TYPESPEC_ID)
}

// ---------------------------------------------------------------------------
// Function descriptors
// ---------------------------------------------------------------------------

/// What the catalog records of one callable function.
#[derive(Debug)]
pub struct FuncDesc {
    pub id: ID,
    pub name: String,
    pub return_type: Type,
    pub args: Vec<ArgumentDefinition>,
}

pub struct FuncDescView {
    pub id: ID,
    pub name: Seq<char>,
    pub return_type: TypeView,
    pub args: Seq<ArgDefView>,
}

impl View for FuncDesc {
    type V = FuncDescView;

    open spec fn view(&self) -> FuncDescView {
        FuncDescView {
            id: self.id,
            name: self.name@,
            return_type: self.return_type@,
            args: args_view(self.args@),
        }
    }
}

impl FuncDesc {
    /// A structurally equal copy.
    pub fn duplicate(&self) -> (r: FuncDesc)
        ensures
            r@ == self@,
    {
        let mut args: Vec<ArgumentDefinition> = Vec::new();
        let mut i: usize = 0;
        while i < self.args.len()
            invariant
                i <= self.args@.len(),
                args@.len() == i,
                forall|k: int| 0 <= k < i ==> (#[trigger] args@[k])@ == self.args@[k]@,
            decreases self.args@.len() - i,
        {
            args.push(self.args[i].duplicate());
            i = i + 1;
        }
        let r = FuncDesc {
            id: self.id,
            name: self.name.clone(),
            return_type: self.return_type.duplicate(),
            args,
        };
        proof {
            assert(r@.args =~= self@.args);
        }
        r
    }
}

/// A callable function as the registry takes it in: everything the editor
/// needs to offer and display a call, as one descriptor.  The execution
/// environment that runs calls lives outside this crate; implementors of
/// this trait bridge to it.
pub trait Function {
    /// The function's process-unique id.
    fn id(&self) -> ID;

    /// The display name the insert menu searches.
    fn name(&self) -> String;

    /// The declared return type.
    fn return_type(&self) -> Type;

    /// The declared arguments, in call order.
    fn takes_args(&self) -> Vec<ArgumentDefinition>;
}

// ---------------------------------------------------------------------------
// Spec-level registry lookups
// ---------------------------------------------------------------------------

/// The views of a list of struct fields.
pub open spec fn struct_fields_view(s: Seq<StructField>) -> Seq<StructFieldView> {
    s.map_values(|f: StructField| f@)
}

/// The views of a list of argument definitions.
pub open spec fn args_view(s: Seq<ArgumentDefinition>) -> Seq<ArgDefView> {
    s.map_values(|a: ArgumentDefinition| a@)
}

/// The views of a list of function descriptors.
pub open spec fn funcs_view(s: Seq<FuncDesc>) -> Seq<FuncDescView> {
    s.map_values(|f: FuncDesc| f@)
}

/// The views of a list of type specs.
pub open spec fn typespecs_view(s: Seq<TypeSpecDesc>) -> Seq<TypeSpecDescView> {
    s.map_values(|t: TypeSpecDesc| t@)
}

/// The views of a list of per-code argument entries.
pub open spec fn code_args_list_view(s: Seq<CodeArgs>) -> Seq<CodeArgsView> {
    s.map_values(|c: CodeArgs| c@)
}

/// The functions of the list whose id differs from the given one, in
/// order: what deleting or replacing an id keeps.
pub open spec fn other_funcs(s: Seq<FuncDescView>, id: ID) -> Seq<FuncDescView>
    decreases s.len(),
{
    if s.len() == 0 {
        Seq::empty()
    } else if s[0].id == id {
        other_funcs(s.subrange(1, s.len() as int), id)
    } else {
        seq![s[0]] + other_funcs(s.subrange(1, s.len() as int), id)
    }
}

/// The type specs of the list whose id differs from the given one.
pub open spec fn other_typespecs(s: Seq<TypeSpecDescView>, id: ID) -> Seq<TypeSpecDescView>
    decreases s.len(),
{
    if s.len() == 0 {
        Seq::empty()
    } else if s[0].id == id {
        other_typespecs(s.subrange(1, s.len() as int), id)
    } else {
        seq![s[0]] + other_typespecs(s.subrange(1, s.len() as int), id)
    }
}

/// How keeping the other ids behaves when one more entry arrives.
pub proof fn lemma_other_funcs_push(s: Seq<FuncDescView>, e: FuncDescView, id: ID)
    ensures
        other_funcs(s.push(e), id) == if e.id != id {
            other_funcs(s, id).push(e)
        } else {
            other_funcs(s, id)
        },
    decreases s.len(),
{
    let sp = s.push(e);
    if s.len() == 0 {
        assert(sp[0] == e);
        assert(sp.subrange(1, sp.len() as int) =~= Seq::<FuncDescView>::empty());
        assert(other_funcs(Seq::<FuncDescView>::empty(), id)
            == Seq::<FuncDescView>::empty());
        assert(other_funcs(s, id) == Seq::<FuncDescView>::empty());
        if e.id != id {
            assert(other_funcs(sp, id) == seq![e] + Seq::<FuncDescView>::empty());
            assert(seq![e] + Seq::<FuncDescView>::empty()
                =~= Seq::<FuncDescView>::empty().push(e));
        } else {
            assert(other_funcs(sp, id) == Seq::<FuncDescView>::empty());
        }
    } else {
        let rest = s.subrange(1, s.len() as int);
        lemma_other_funcs_push(rest, e, id);
        assert(sp[0] == s[0]);
        assert(sp.subrange(1, sp.len() as int) =~= rest.push(e));
        if s[0].id == id {
        } else {
            if e.id != id {
                assert(seq![s[0]] + other_funcs(rest, id).push(e)
                    =~= (seq![s[0]] + other_funcs(rest, id)).push(e));
            }
        }
    }
}

/// How keeping the other ids behaves when one more type spec arrives.
pub proof fn lemma_other_typespecs_push(s: Seq<TypeSpecDescView>, e: TypeSpecDescView, id: ID)
    ensures
        other_typespecs(s.push(e), id) == if e.id != id {
            other_typespecs(s, id).push(e)
        } else {
            other_typespecs(s, id)
        },
    decreases s.len(),
{
    let sp = s.push(e);
    if s.len() == 0 {
        assert(sp[0] == e);
        assert(sp.subrange(1, sp.len() as int) =~= Seq::<TypeSpecDescView>::empty());
        assert(other_typespecs(Seq::<TypeSpecDescView>::empty(), id)
            == Seq::<TypeSpecDescView>::empty());
        assert(other_typespecs(s, id) == Seq::<TypeSpecDescView>::empty());
        if e.id != id {
            assert(other_typespecs(sp, id) == seq![e] + Seq::<TypeSpecDescView>::empty());
            assert(seq![e] + Seq::<TypeSpecDescView>::empty()
                =~= Seq::<TypeSpecDescView>::empty().push(e));
        } else {
            assert(other_typespecs(sp, id) == Seq::<TypeSpecDescView>::empty());
        }
    } else {
        let rest = s.subrange(1, s.len() as int);
        lemma_other_typespecs_push(rest, e, id);
        assert(sp[0] == s[0]);
        assert(sp.subrange(1, sp.len() as int) =~= rest.push(e));
        if s[0].id == id {
        } else {
            if e.id != id {
                assert(seq![s[0]] + other_typespecs(rest, id).push(e)
                    =~= (seq![s[0]] + other_typespecs(rest, id)).push(e));
            }
        }
    }
}

/// The first function of the list with the given id.
pub open spec fn find_func_view(s: Seq<FuncDescView>, id: ID) -> Option<FuncDescView>
    decreases s.len(),
{
    if s.len() == 0 {
        None
    } else if s[0].id == id {
        Some(s[0])
    } else {
        find_func_view(s.subrange(1, s.len() as int), id)
    }
}

/// The first type spec of the list with the given id.
pub open spec fn find_typespec_view(
    s: Seq<TypeSpecDescView>,
    id: ID,
) -> Option<TypeSpecDescView>
    decreases s.len(),
{
    if s.len() == 0 {
        None
    } else if s[0].id == id {
        Some(s[0])
    } else {
        find_typespec_view(s.subrange(1, s.len() as int), id)
    }
}

/// The first struct type spec of the list with the given id.
pub open spec fn find_struct_view(s: Seq<TypeSpecDescView>, id: ID) -> Option<StructDescView>
    decreases s.len(),
{
    if s.len() == 0 {
        None
    } else if s[0].id == id && s[0].kind is Strukt {
        Some(s[0].kind->Strukt_0)
    } else {
        find_struct_view(s.subrange(1, s.len() as int), id)
    }
}

/// The declared type of the argument definition, searching every function
/// of the list in order.
pub open spec fn arg_type_view(s: Seq<FuncDescView>, arg_def_id: ID) -> Option<TypeView>
    decreases s.len(),
{
    if s.len() == 0 {
        None
    } else {
        match arg_type_in_args(s[0].args, arg_def_id) {
            Some(t) => Some(t),
            None => arg_type_view(s.subrange(1, s.len() as int), arg_def_id),
        }
    }
}

/// The declared type of the argument definition within one argument list.
pub open spec fn arg_type_in_args(args: Seq<ArgDefView>, arg_def_id: ID) -> Option<TypeView>
    decreases args.len(),
{
    if args.len() == 0 {
        None
    } else if args[0].id == arg_def_id {
        Some(args[0].arg_type)
    } else {
        arg_type_in_args(args.subrange(1, args.len() as int), arg_def_id)
    }
}

// ---------------------------------------------------------------------------
// The registry
// ---------------------------------------------------------------------------

/// The arguments in scope for one code root: when a function's body is
/// edited, the function's declared parameters are visible as locals.
#[derive(Debug)]
pub struct CodeArgs {
    pub code_id: ID,
    pub args: Vec<ArgumentDefinition>,
}

pub struct CodeArgsView {
    pub code_id: ID,
    pub args: Seq<ArgDefView>,
}

impl View for CodeArgs {
    type V = CodeArgsView;

    open spec fn view(&self) -> CodeArgsView {
        CodeArgsView {
            code_id: self.code_id,
            args: args_view(self.args@),
        }
    }
}

/// The arguments recorded for the given code root.
pub open spec fn code_args_view(s: Seq<CodeArgsView>, code_id: ID) -> Seq<ArgDefView>
    decreases s.len(),
{
    if s.len() == 0 {
        Seq::empty()
    } else if s[0].code_id == code_id {
        s[0].args
    } else {
        code_args_view(s.subrange(1, s.len() as int), code_id)
    }
}

/// The registry of functions, type specs and per-code argument lists that
/// the editing core consults.
pub struct ExecutionEnvironment {
    pub functions: Vec<FuncDesc>,
    pub typespecs: Vec<TypeSpecDesc>,
    pub code_args: Vec<CodeArgs>,
}

pub struct EnvView {
    pub funcs: Seq<FuncDescView>,
    pub typespecs: Seq<TypeSpecDescView>,
    pub code_args: Seq<CodeArgsView>,
}

impl View for ExecutionEnvironment {
    type V = EnvView;

    open spec fn view(&self) -> EnvView {
        EnvView {
            funcs: funcs_view(self.functions@),
            typespecs: typespecs_view(self.typespecs@),
            code_args: code_args_list_view(self.code_args@),
        }
    }
}

impl ExecutionEnvironment {
    /// An empty registry, with the builtin type specs preloaded.
    pub fn new() -> (r: ExecutionEnvironment)
        ensures
            r@.funcs == Seq::<FuncDescView>::empty(),
            r@.code_args == Seq::<CodeArgsView>::empty(),
            find_typespec_view(r@.typespecs, STRING_TYPESPEC_ID) is Some,
            find_typespec_view(r@.typespecs, NUMBER_TYPESPEC_ID) is Some,
            find_typespec_view(r@.typespecs, NULL_TYPESPEC_ID) is Some,
            find_typespec_view(r@.typespecs, LIST_TYPESPEC_ID) is Some,
    {
        let mut typespecs: Vec<TypeSpecDesc> = Vec::new();
        typespecs.push(TypeSpecDesc {
            id: STRING_TYPESPEC_ID,
            readable_name: "String".to_owned(),
            symbol: "str".to_owned(),
            num_params: 0,
            kind: TypeSpecKind::Builtin,
        });
        typespecs.push(TypeSpecDesc {
            id: NUMBER_TYPESPEC_ID,
            readable_name: "Number".to_owned(),
            symbol: "num".to_owned(),
            num_params: 0,
            kind: TypeSpecKind::Builtin,
        });
        typespecs.push(TypeSpecDesc {
            id: NULL_TYPESPEC_ID,
            readable_name: "Null".to_owned(),
            symbol: "null".to_owned(),
            num_params: 0,
            kind: TypeSpecKind::Builtin,
        });
        typespecs.push(TypeSpecDesc {
            id: LIST_TYPESPEC_ID,
            readable_name: "List".to_owned(),
            symbol: "list".to_owned(),
            num_params: 1,
            kind: TypeSpecKind::Builtin,
        });
        let r = ExecutionEnvironment { functions: Vec::new(), typespecs, code_args: Vec::new() };
        proof {
            assert(r@.funcs =~= Seq::<FuncDescView>::empty());
            assert(r@.code_args =~= Seq::<CodeArgsView>::empty());
            assert(r@.typespecs.len() == 4);
            assert(r@.typespecs[0].id == STRING_TYPESPEC_ID);
            assert(r@.typespecs[1].id == NUMBER_TYPESPEC_ID);
            assert(r@.typespecs[2].id == NULL_TYPESPEC_ID);
            assert(r@.typespecs[3].id == LIST_TYPESPEC_ID);
            lemma_find_typespec_index(r@.typespecs, STRING_TYPESPEC_ID, 0);
            lemma_find_typespec_index(r@.typespecs, NUMBER_TYPESPEC_ID, 1);
            lemma_find_typespec_index(r@.typespecs, NULL_TYPESPEC_ID, 2);
            lemma_find_typespec_index(r@.typespecs, LIST_TYPESPEC_ID, 3);
        }
        r
    }

    /// Registers a function descriptor, replacing any entry that carries
    /// the same id.
    pub fn add_function_desc(&mut self, func: FuncDesc)
        ensures
            final(self)@.funcs == other_funcs(old(self)@.funcs, func@.id).push(func@),
            final(self)@.typespecs == old(self)@.typespecs,
            final(self)@.code_args == old(self)@.code_args,
    {
        let ghost fid = func@.id;
        let mut kept: Vec<FuncDesc> = Vec::new();
        let mut i: usize = 0;
        while i < self.functions.len()
            invariant
                i <= self.functions@.len(),
                fid == func@.id,
                funcs_view(kept@) =~= other_funcs(funcs_view(self.functions@
                    .subrange(0, i as int)), fid),
            decreases self.functions@.len() - i,
        {
            let ghost pre = funcs_view(kept@);
            let ghost prefix = funcs_view(self.functions@.subrange(0, i as int));
            if self.functions[i].id != func.id {
                let dup = self.functions[i].duplicate();
                kept.push(dup);
                proof {
                    assert(funcs_view(kept@)
                        =~= pre.push(self.functions@[i as int]@));
                }
            }
            proof {
                let prefix2 = funcs_view(self.functions@.subrange(0, (i + 1) as int));
                assert(prefix2 =~= prefix.push(self.functions@[i as int]@));
                lemma_other_funcs_push(prefix, self.functions@[i as int]@, fid);
                assert(funcs_view(kept@) =~= other_funcs(prefix2, fid));
            }
            i = i + 1;
        }
        proof {
            assert(self.functions@.subrange(0, self.functions@.len() as int)
                =~= self.functions@);
        }
        kept.push(func);
        self.functions = kept;
    }

    /// Registers or replaces a function through the [`Function`] trait.
    /// The trait promises nothing of what its methods return, so only
    /// the descriptor's arrival is promised: some descriptor is
    /// appended, replacing any entry that carried its id.
    pub fn add_function<F: Function>(&mut self, function: F)
        ensures
            exists|f: FuncDescView| final(self)@.funcs
                == other_funcs(old(self)@.funcs, f.id).push(f),
            final(self)@.typespecs == old(self)@.typespecs,
            final(self)@.code_args == old(self)@.code_args,
    {
        let desc = FuncDesc {
            id: function.id(),
            name: function.name(),
            return_type: function.return_type(),
            args: function.takes_args(),
        };
        let ghost dv = desc@;
        self.add_function_desc(desc);
        proof {
            assert(final(self)@.funcs == other_funcs(old(self)@.funcs, dv.id).push(dv));
        }
    }

    /// Removes the functions that carry the given id.
    pub fn delete_function(&mut self, id: ID)
        ensures
            final(self)@.funcs == other_funcs(old(self)@.funcs, id),
            final(self)@.typespecs == old(self)@.typespecs,
            final(self)@.code_args == old(self)@.code_args,
    {
        let mut kept: Vec<FuncDesc> = Vec::new();
        let mut i: usize = 0;
        while i < self.functions.len()
            invariant
                i <= self.functions@.len(),
                funcs_view(kept@) =~= other_funcs(funcs_view(self.functions@
                    .subrange(0, i as int)), id),
            decreases self.functions@.len() - i,
        {
            let ghost pre = funcs_view(kept@);
            let ghost prefix = funcs_view(self.functions@.subrange(0, i as int));
            if self.functions[i].id != id {
                let dup = self.functions[i].duplicate();
                kept.push(dup);
                proof {
                    assert(funcs_view(kept@)
                        =~= pre.push(self.functions@[i as int]@));
                }
            }
            proof {
                let prefix2 = funcs_view(self.functions@.subrange(0, (i + 1) as int));
                assert(prefix2 =~= prefix.push(self.functions@[i as int]@));
                lemma_other_funcs_push(prefix, self.functions@[i as int]@, id);
                assert(funcs_view(kept@) =~= other_funcs(prefix2, id));
            }
            i = i + 1;
        }
        proof {
            assert(self.functions@.subrange(0, self.functions@.len() as int)
                =~= self.functions@);
        }
        self.functions = kept;
    }

    /// The first registered function with the given id.
    pub fn find_function(&self, id: ID) -> (r: Option<&FuncDesc>)
        ensures
            match r {
                Some(f) => find_func_view(self@.funcs, id) == Some(f@),
                None => find_func_view(self@.funcs, id) is None,
            },
    {
        let mut i: usize = 0;
        while i < self.functions.len()
            invariant
                i <= self.functions@.len(),
                forall|k: int| 0 <= k < i ==> (#[trigger] self.functions@[k])@.id != id,
            decreases self.functions@.len() - i,
        {
            if self.functions[i].id == id {
                proof {
                    lemma_find_func_index(self@.funcs, id, i as int);
                }
                return Some(&self.functions[i]);
            }
            i = i + 1;
        }
        proof {
            lemma_find_func_none(self@.funcs, id);
        }
        None
    }

    /// Every registered function, in registration order.
    pub fn list_functions(&self) -> (r: Vec<&FuncDesc>)
        ensures
            r@.len() == self@.funcs.len(),
            forall|i: int| 0 <= i < r@.len() ==> (#[trigger] r@[i])@ == self@.funcs[i],
    {
        let mut r: Vec<&FuncDesc> = Vec::new();
        let mut i: usize = 0;
        while i < self.functions.len()
            invariant
                i <= self.functions@.len(),
                r@.len() == i,
                forall|k: int| 0 <= k < i ==> (#[trigger] r@[k])@ == self@.funcs[k],
            decreases self.functions@.len() - i,
        {
            r.push(&self.functions[i]);
            i = i + 1;
        }
        r
    }

    /// Registers a type spec, replacing any entry that carries the same id.
    pub fn add_typespec(&mut self, typespec: TypeSpecDesc)
        ensures
            final(self)@.typespecs
                == other_typespecs(old(self)@.typespecs, typespec@.id).push(typespec@),
            final(self)@.funcs == old(self)@.funcs,
            final(self)@.code_args == old(self)@.code_args,
    {
        let ghost tid = typespec@.id;
        let mut kept: Vec<TypeSpecDesc> = Vec::new();
        let mut i: usize = 0;
        while i < self.typespecs.len()
            invariant
                i <= self.typespecs@.len(),
                tid == typespec@.id,
                typespecs_view(kept@) =~= other_typespecs(typespecs_view(self.typespecs@
                    .subrange(0, i as int)), tid),
            decreases self.typespecs@.len() - i,
        {
            let ghost pre = typespecs_view(kept@);
            let ghost prefix = typespecs_view(self.typespecs@.subrange(0, i as int));
            let keep = self.typespecs[i].id != typespec.id;
            if keep {
                let dup = duplicate_typespec(&self.typespecs[i]);
                kept.push(dup);
                proof {
                    assert(typespecs_view(kept@)
                        =~= pre.push(self.typespecs@[i as int]@));
                }
            }
            proof {
                let prefix2 = typespecs_view(self.typespecs@.subrange(0, (i + 1) as int));
                assert(prefix2 =~= prefix.push(self.typespecs@[i as int]@));
                lemma_other_typespecs_push(prefix, self.typespecs@[i as int]@, tid);
                assert(typespecs_view(kept@) =~= other_typespecs(prefix2, tid));
            }
            i = i + 1;
        }
        proof {
            assert(self.typespecs@.subrange(0, self.typespecs@.len() as int)
                =~= self.typespecs@);
        }
        kept.push(typespec);
        self.typespecs = kept;
    }

    /// The first registered type spec with the given id.
    pub fn find_typespec(&self, id: ID) -> (r: Option<&TypeSpecDesc>)
        ensures
            match r {
                Some(t) => find_typespec_view(self@.typespecs, id) == Some(t@),
                None => find_typespec_view(self@.typespecs, id) is None,
            },
    {
        let mut i: usize = 0;
        while i < self.typespecs.len()
            invariant
                i <= self.typespecs@.len(),
                forall|k: int| 0 <= k < i ==> (#[trigger] self.typespecs@[k])@.id != id,
            decreases self.typespecs@.len() - i,
        {
            if self.typespecs[i].id == id {
                proof {
                    lemma_find_typespec_index(self@.typespecs, id, i as int);
                }
                return Some(&self.typespecs[i]);
            }
            i = i + 1;
        }
        proof {
            lemma_find_typespec_none(self@.typespecs, id);
        }
        None
    }

    /// Every registered type spec, in registration order.
    pub fn list_typespecs(&self) -> (r: Vec<&TypeSpecDesc>)
        ensures
            r@.len() == self@.typespecs.len(),
            forall|i: int| 0 <= i < r@.len() ==> (#[trigger] r@[i])@ == self@.typespecs[i],
    {
        let mut r: Vec<&TypeSpecDesc> = Vec::new();
        let mut i: usize = 0;
        while i < self.typespecs.len()
            invariant
                i <= self.typespecs@.len(),
                r@.len() == i,
                forall|k: int| 0 <= k < i ==> (#[trigger] r@[k])@ == self@.typespecs[k],
            decreases self.typespecs@.len() - i,
        {
            r.push(&self.typespecs[i]);
            i = i + 1;
        }
        r
    }

    /// The first registered struct with the given id.
    pub fn find_struct(&self, id: ID) -> (r: Option<&StructDesc>)
        ensures
            match r {
                Some(s) => find_struct_view(self@.typespecs, id) == Some(s@),
                None => find_struct_view(self@.typespecs, id) is None,
            },
    {
        let mut i: usize = 0;
        while i < self.typespecs.len()
            invariant
                i <= self.typespecs@.len(),
                forall|k: int| 0 <= k < i
                    ==> !((#[trigger] self.typespecs@[k])@.id == id
                        && self.typespecs@[k]@.kind is Strukt),
            decreases self.typespecs@.len() - i,
        {
            let ts = &self.typespecs[i];
            if ts.id == id {
                match &ts.kind {
                    TypeSpecKind::Strukt(s) => {
                        proof {
                            lemma_find_struct_index(self@.typespecs, id, i as int);
                        }
                        return Some(s);
                    },
                    _ => {},
                }
            }
            i = i + 1;
        }
        proof {
            lemma_find_struct_none(self@.typespecs, id);
        }
        None
    }

    /// The declared type of an argument definition, searched across every
    /// registered function.
    pub fn get_type_for_arg(&self, arg_def_id: ID) -> (r: Option<Type>)
        ensures
            match r {
                Some(t) => arg_type_view(self@.funcs, arg_def_id) == Some(t@),
                None => arg_type_view(self@.funcs, arg_def_id) is None,
            },
    {
        proof {
            assert(self@.funcs.len() == self.functions@.len());
        }
        let mut i: usize = 0;
        while i < self.functions.len()
            invariant
                i <= self.functions@.len(),
                self@.funcs.len() == self.functions@.len(),
                forall|k: int| 0 <= k < i
                    ==> arg_type_in_args((#[trigger] self@.funcs[k]).args, arg_def_id)
                        is None,
            decreases self.functions@.len() - i,
        {
            let f = &self.functions[i];
            proof {
                assert(self@.funcs[i as int] == f@);
                assert(f@.args.len() == f.args@.len());
            }
            let mut j: usize = 0;
            while j < f.args.len()
                invariant
                    j <= f.args@.len(),
                    0 <= i < self@.funcs.len(),
                    self@.funcs[i as int] == f@,
                    f@.args.len() == f.args@.len(),
                    forall|k: int| 0 <= k < i
                        ==> arg_type_in_args((#[trigger] self@.funcs[k]).args, arg_def_id)
                            is None,
                    forall|k: int| 0 <= k < j ==> (#[trigger] f@.args[k]).id != arg_def_id,
            decreases f.args@.len() - j,
            {
                proof {
                    assert(f@.args[j as int] == f.args@[j as int]@);
                }
                if f.args[j].id == arg_def_id {
                    proof {
                        lemma_arg_type_in_args_index(f@.args, arg_def_id, j as int);
                        lemma_arg_type_index(self@.funcs, arg_def_id, i as int);
                        assert(f@.args[j as int].arg_type == f.args@[j as int]@.arg_type);
                    }
                    return Some(f.args[j].arg_type.duplicate());
                }
                j = j + 1;
            }
            proof {
                lemma_arg_type_in_args_none(f@.args, arg_def_id);
            }
            i = i + 1;
        }
        proof {
            lemma_arg_type_none(self@.funcs, arg_def_id);
        }
        None
    }

    /// Records the arguments in scope for a code root.
    pub fn set_code_args(&mut self, code_args: CodeArgs)
        ensures
            final(self)@.code_args == old(self)@.code_args.push(code_args@),
            final(self)@.funcs == old(self)@.funcs,
            final(self)@.typespecs == old(self)@.typespecs,
    {
        self.code_args.push(code_args);
        proof {
            assert(final(self)@.code_args =~= old(self)@.code_args.push(code_args@));
        }
    }

    /// The arguments in scope for the given code root, in declaration
    /// order.
    pub fn code_takes_args(&self, code_id: ID) -> (r: Vec<ArgumentDefinition>)
        ensures
            args_view(r@)
                == code_args_view(self@.code_args, code_id),
    {
        let mut i: usize = 0;
        while i < self.code_args.len()
            invariant
                i <= self.code_args@.len(),
                forall|k: int| 0 <= k < i
                    ==> (#[trigger] self.code_args@[k])@.code_id != code_id,
            decreases self.code_args@.len() - i,
        {
            if self.code_args[i].code_id == code_id {
                let entry = &self.code_args[i];
                let mut r: Vec<ArgumentDefinition> = Vec::new();
                let mut j: usize = 0;
                while j < entry.args.len()
                    invariant
                        j <= entry.args@.len(),
                        r@.len() == j,
                        forall|k: int| 0 <= k < j ==> (#[trigger] r@[k])@ == entry.args@[k]@,
                    decreases entry.args@.len() - j,
                {
                    r.push(entry.args[j].duplicate());
                    j = j + 1;
                }
                proof {
                    lemma_code_args_index(self@.code_args, code_id, i as int);
                    assert(args_view(r@) =~= self@.code_args[i as int].args);
                }
                return r;
            }
            i = i + 1;
        }
        proof {
            lemma_code_args_none(self@.code_args, code_id);
            assert(args_view(Seq::<ArgumentDefinition>::empty())
                =~= Seq::<ArgDefView>::empty());
        }
        Vec::new()
    }
}

/// The declared type of a struct field, by field id.
pub open spec fn field_type_view(fields: Seq<StructFieldView>, id: ID) -> Option<TypeView>
    decreases fields.len(),
{
    if fields.len() == 0 {
        None
    } else if fields[0].id == id {
        Some(fields[0].field_type)
    } else {
        field_type_view(fields.subrange(1, fields.len() as int), id)
    }
}

impl StructDesc {
    /// The declared type of the field with the given id.
    pub fn get_field_type(&self, id: ID) -> (r: Option<Type>)
        ensures
            match r {
                Some(t) => field_type_view(self@.fields, id) == Some(t@),
                None => field_type_view(self@.fields, id) is None,
            },
    {
        let mut i: usize = 0;
        while i < self.fields.len()
            invariant
                i <= self.fields@.len(),
                self@.fields.len() == self.fields@.len(),
                forall|k: int| 0 <= k < i ==> (#[trigger] self@.fields[k]).id != id,
                forall|k: int| 0 <= k < self.fields@.len()
                    ==> self@.fields[k] == (#[trigger] self.fields@[k])@,
            decreases self.fields@.len() - i,
        {
            if self.fields[i].id == id {
                proof {
                    lemma_field_type_index(self@.fields, id, i as int);
                }
                return Some(self.fields[i].field_type.duplicate());
            }
            i = i + 1;
        }
        proof {
            lemma_field_type_none(self@.fields, id);
        }
        None
    }
}

proof fn lemma_field_type_index(fields: Seq<StructFieldView>, id: ID, j: int)
    requires
        0 <= j < fields.len(),
        forall|k: int| 0 <= k < j ==> (#[trigger] fields[k]).id != id,
        fields[j].id == id,
    ensures
        field_type_view(fields, id) == Some(fields[j].field_type),
    decreases fields.len(),
{
    if j > 0 {
        let rest = fields.subrange(1, fields.len() as int);
        assert forall|k: int| 0 <= k < j - 1 implies (#[trigger] rest[k]).id != id by {
            assert(rest[k] == fields[k + 1]);
        }
        assert(rest[j - 1] == fields[j]);
        lemma_field_type_index(rest, id, j - 1);
    }
}

proof fn lemma_field_type_none(fields: Seq<StructFieldView>, id: ID)
    requires
        forall|k: int| 0 <= k < fields.len() ==> (#[trigger] fields[k]).id != id,
    ensures
        field_type_view(fields, id) is None,
    decreases fields.len(),
{
    if fields.len() > 0 {
        let rest = fields.subrange(1, fields.len() as int);
        assert forall|k: int| 0 <= k < rest.len() implies (#[trigger] rest[k]).id != id by {
            assert(rest[k] == fields[k + 1]);
        }
        lemma_field_type_none(rest, id);
    }
}

/// Whether the type spec with the given id is a generic type parameter.
pub open spec fn is_generic_view(typespecs: Seq<TypeSpecDescView>, id: ID) -> bool {
    match find_typespec_view(typespecs, id) {
        Some(ts) => ts.kind is Generic,
        None => false,
    }
}

impl ExecutionEnvironment {
    /// Whether the given type spec id names a generic type parameter.
    pub fn is_generic_typespec(&self, id: ID) -> (r: bool)
        ensures
            r == is_generic_view(self@.typespecs, id),
    {
        match self.find_typespec(id) {
            Some(ts) => match &ts.kind {
                TypeSpecKind::Generic => true,
                _ => false,
            },
            None => false,
        }
    }
}

fn duplicate_typespec(ts: &TypeSpecDesc) -> (r: TypeSpecDesc)
    ensures
        r@ == ts@,
{
    let kind = match &ts.kind {
        TypeSpecKind::Builtin => TypeSpecKind::Builtin,
        TypeSpecKind::Generic => TypeSpecKind::Generic,
        TypeSpecKind::Strukt(s) => {
            let mut fields: Vec<StructField> = Vec::new();
            let mut i: usize = 0;
            while i < s.fields.len()
                invariant
                    i <= s.fields@.len(),
                    fields@.len() == i,
                    forall|k: int| 0 <= k < i ==> (#[trigger] fields@[k])@ == s.fields@[k]@,
                decreases s.fields@.len() - i,
            {
                let f = &s.fields[i];
                fields.push(StructField {
                    id: f.id,
                    name: f.name.clone(),
                    field_type: f.field_type.duplicate(),
                });
                i = i + 1;
            }
            proof {
                assert(struct_fields_view(fields@) =~= struct_fields_view(s.fields@));
            }
            TypeSpecKind::Strukt(StructDesc {
                id: s.id,
                name: s.name.clone(),
                symbol: s.symbol.clone(),
                fields,
            })
        },
    };
    TypeSpecDesc {
        id: ts.id,
        readable_name: ts.readable_name.clone(),
        symbol: ts.symbol.clone(),
        num_params: ts.num_params,
        kind,
    }
}

// ---------------------------------------------------------------------------
// Walk lemmas for the registry lookups
// ---------------------------------------------------------------------------

proof fn lemma_find_func_index(s: Seq<FuncDescView>, id: ID, j: int)
    requires
        0 <= j < s.len(),
        forall|k: int| 0 <= k < j ==> (#[trigger] s[k]).id != id,
        s[j].id == id,
    ensures
        find_func_view(s, id) == Some(s[j]),
    decreases s.len(),
{
    if j > 0 {
        let rest = s.subrange(1, s.len() as int);
        assert forall|k: int| 0 <= k < j - 1 implies (#[trigger] rest[k]).id != id by {
            assert(rest[k] == s[k + 1]);
        }
        assert(rest[j - 1] == s[j]);
        lemma_find_func_index(rest, id, j - 1);
    }
}

proof fn lemma_find_func_none(s: Seq<FuncDescView>, id: ID)
    requires
        forall|k: int| 0 <= k < s.len() ==> (#[trigger] s[k]).id != id,
    ensures
        find_func_view(s, id) is None,
    decreases s.len(),
{
    if s.len() > 0 {
        let rest = s.subrange(1, s.len() as int);
        assert forall|k: int| 0 <= k < rest.len() implies (#[trigger] rest[k]).id != id by {
            assert(rest[k] == s[k + 1]);
        }
        lemma_find_func_none(rest, id);
    }
}

proof fn lemma_find_typespec_index(s: Seq<TypeSpecDescView>, id: ID, j: int)
    requires
        0 <= j < s.len(),
        forall|k: int| 0 <= k < j ==> (#[trigger] s[k]).id != id,
        s[j].id == id,
    ensures
        find_typespec_view(s, id) == Some(s[j]),
    decreases s.len(),
{
    if j > 0 {
        let rest = s.subrange(1, s.len() as int);
        assert forall|k: int| 0 <= k < j - 1 implies (#[trigger] rest[k]).id != id by {
            assert(rest[k] == s[k + 1]);
        }
        assert(rest[j - 1] == s[j]);
        lemma_find_typespec_index(rest, id, j - 1);
    }
}

proof fn lemma_find_typespec_none(s: Seq<TypeSpecDescView>, id: ID)
    requires
        forall|k: int| 0 <= k < s.len() ==> (#[trigger] s[k]).id != id,
    ensures
        find_typespec_view(s, id) is None,
    decreases s.len(),
{
    if s.len() > 0 {
        let rest = s.subrange(1, s.len() as int);
        assert forall|k: int| 0 <= k < rest.len() implies (#[trigger] rest[k]).id != id by {
            assert(rest[k] == s[k + 1]);
        }
        lemma_find_typespec_none(rest, id);
    }
}

proof fn lemma_find_struct_index(s: Seq<TypeSpecDescView>, id: ID, j: int)
    requires
        0 <= j < s.len(),
        forall|k: int| 0 <= k < j
            ==> !((#[trigger] s[k]).id == id && s[k].kind is Strukt),
        s[j].id == id,
        s[j].kind is Strukt,
    ensures
        find_struct_view(s, id) == Some(s[j].kind->Strukt_0),
    decreases s.len(),
{
    if j > 0 {
        let rest = s.subrange(1, s.len() as int);
        assert forall|k: int| 0 <= k < j - 1
            implies !((#[trigger] rest[k]).id == id && rest[k].kind is Strukt) by {
            assert(rest[k] == s[k + 1]);
        }
        assert(rest[j - 1] == s[j]);
        lemma_find_struct_index(rest, id, j - 1);
    }
}

proof fn lemma_find_struct_none(s: Seq<TypeSpecDescView>, id: ID)
    requires
        forall|k: int| 0 <= k < s.len()
            ==> !((#[trigger] s[k]).id == id && s[k].kind is Strukt),
    ensures
        find_struct_view(s, id) is None,
    decreases s.len(),
{
    if s.len() > 0 {
        let rest = s.subrange(1, s.len() as int);
        assert forall|k: int| 0 <= k < rest.len()
            implies !((#[trigger] rest[k]).id == id && rest[k].kind is Strukt) by {
            assert(rest[k] == s[k + 1]);
        }
        lemma_find_struct_none(rest, id);
    }
}

proof fn lemma_arg_type_in_args_index(args: Seq<ArgDefView>, arg_def_id: ID, j: int)
    requires
        0 <= j < args.len(),
        forall|k: int| 0 <= k < j ==> (#[trigger] args[k]).id != arg_def_id,
        args[j].id == arg_def_id,
    ensures
        arg_type_in_args(args, arg_def_id) == Some(args[j].arg_type),
    decreases args.len(),
{
    if j > 0 {
        let rest = args.subrange(1, args.len() as int);
        assert forall|k: int| 0 <= k < j - 1
            implies (#[trigger] rest[k]).id != arg_def_id by {
            assert(rest[k] == args[k + 1]);
        }
        assert(rest[j - 1] == args[j]);
        lemma_arg_type_in_args_index(rest, arg_def_id, j - 1);
    }
}

proof fn lemma_arg_type_in_args_none(args: Seq<ArgDefView>, arg_def_id: ID)
    requires
        forall|k: int| 0 <= k < args.len() ==> (#[trigger] args[k]).id != arg_def_id,
    ensures
        arg_type_in_args(args, arg_def_id) is None,
    decreases args.len(),
{
    if args.len() > 0 {
        let rest = args.subrange(1, args.len() as int);
        assert forall|k: int| 0 <= k < rest.len()
            implies (#[trigger] rest[k]).id != arg_def_id by {
            assert(rest[k] == args[k + 1]);
        }
        lemma_arg_type_in_args_none(rest, arg_def_id);
    }
}

proof fn lemma_arg_type_index(s: Seq<FuncDescView>, arg_def_id: ID, j: int)
    requires
        0 <= j < s.len(),
        forall|k: int| 0 <= k < j
            ==> arg_type_in_args((#[trigger] s[k]).args, arg_def_id) is None,
        arg_type_in_args(s[j].args, arg_def_id) is Some,
    ensures
        arg_type_view(s, arg_def_id) == arg_type_in_args(s[j].args, arg_def_id),
    decreases s.len(),
{
    if j > 0 {
        let rest = s.subrange(1, s.len() as int);
        assert forall|k: int| 0 <= k < j - 1
            implies arg_type_in_args((#[trigger] rest[k]).args, arg_def_id) is None by {
            assert(rest[k] == s[k + 1]);
        }
        assert(rest[j - 1] == s[j]);
        lemma_arg_type_index(rest, arg_def_id, j - 1);
    }
}

proof fn lemma_arg_type_none(s: Seq<FuncDescView>, arg_def_id: ID)
    requires
        forall|k: int| 0 <= k < s.len()
            ==> arg_type_in_args((#[trigger] s[k]).args, arg_def_id) is None,
    ensures
        arg_type_view(s, arg_def_id) is None,
    decreases s.len(),
{
    if s.len() > 0 {
        let rest = s.subrange(1, s.len() as int);
        assert forall|k: int| 0 <= k < rest.len()
            implies arg_type_in_args((#[trigger] rest[k]).args, arg_def_id) is None by {
            assert(rest[k] == s[k + 1]);
        }
        lemma_arg_type_none(rest, arg_def_id);
    }
}

proof fn lemma_code_args_index(s: Seq<CodeArgsView>, code_id: ID, j: int)
    requires
        0 <= j < s.len(),
        forall|k: int| 0 <= k < j ==> (#[trigger] s[k]).code_id != code_id,
        s[j].code_id == code_id,
    ensures
        code_args_view(s, code_id) == s[j].args,
    decreases s.len(),
{
    if j > 0 {
        let rest = s.subrange(1, s.len() as int);
        assert forall|k: int| 0 <= k < j - 1
            implies (#[trigger] rest[k]).code_id != code_id by {
            assert(rest[k] == s[k + 1]);
        }
        assert(rest[j - 1] == s[j]);
        lemma_code_args_index(rest, code_id, j - 1);
    }
}

proof fn lemma_code_args_none(s: Seq<CodeArgsView>, code_id: ID)
    requires
        forall|k: int| 0 <= k < s.len() ==> (#[trigger] s[k]).code_id != code_id,
    ensures
        code_args_view(s, code_id) == Seq::<ArgDefView>::empty(),
    decreases s.len(),
{
    if s.len() > 0 {
        let rest = s.subrange(1, s.len() as int);
        assert forall|k: int| 0 <= k < rest.len()
            implies (#[trigger] rest[k]).code_id != code_id by {
            assert(rest[k] == s[k + 1]);
        }
        lemma_code_args_none(rest, code_id);
    }
}

} // verus!
