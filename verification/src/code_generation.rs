//! Fresh-node construction: the id allocator and the builders that the
//! insert menu uses to offer candidate nodes.
//!
//! Ids are issued by a monotone counter, so every node built here carries
//! ids the tree has never seen as long as the counter started above them.
//! Each builder says exactly which node it builds and how far the counter
//! moves, whenever the counter has room left.

use vstd::prelude::*;

use crate::env::{FuncDesc, FuncDescView, StructDesc, StructDescView};
use crate::lang::{
    ArgDefView, Argument, Assignment, CodeNode, FunctionCall, FunctionReference, NodeView,
    Placeholder, StringLiteral, StructLiteral, StructLiteralField, Type, VariableReference, ID,
};

verus! {

/// The id allocator: hands out ids counting upward, never reusing one
/// until the counter space is exhausted.
pub struct IdGen {
    pub next: ID,
}

impl IdGen {
    /// An allocator that starts at the given id.
    pub fn new(start: ID) -> (r: IdGen)
        ensures
            r.next == start,
    {
        IdGen { next: start }
    }

    /// The next fresh id.  The counter saturates at the end of the id
    /// space instead of wrapping, so it never hands an old id out again.
    pub fn fresh(&mut self) -> (r: ID)
        ensures
            r == old(self).next,
            final(self).next == if old(self).next < u64::MAX {
                (old(self).next + 1) as u64
            } else {
                u64::MAX
            },
    {
        let r = self.next;
        if self.next < u64::MAX {
            self.next = self.next + 1;
        }
        r
    }
}

/// The hole built for one declared argument: an `Argument` whose
/// expression is a typed placeholder carrying the argument's short name.
pub open spec fn arg_template(a: ArgDefView, base: int) -> NodeView {
    NodeView::Argument {
        id: base as u64,
        argument_definition_id: a.id,
        expr: Box::new(NodeView::Placeholder {
            id: (base + 1) as u64,
            description: a.short_name,
            typ: a.arg_type,
        }),
    }
}

/// The holes built for a declared argument list, two ids per argument.
pub open spec fn args_template(args: Seq<ArgDefView>, base: int) -> Seq<NodeView> {
    Seq::new(args.len(), |i: int| arg_template(args[i], base + 2 * i))
}

/// The call built for a function: one placeholder hole per declared
/// argument, then the call node and its function reference.
pub open spec fn call_template(f: FuncDescView, base: int) -> NodeView {
    NodeView::FunctionCall {
        id: (base + 2 * f.args.len()) as u64,
        function_reference: Box::new(NodeView::FunctionReference {
            id: (base + 2 * f.args.len() + 1) as u64,
            function_id: f.id,
        }),
        args: args_template(f.args, base),
    }
}

/// A call of the function with every argument slot holding a typed
/// placeholder.
pub fn new_function_call_with_placeholder_args(func: &FuncDesc, id_gen: &mut IdGen)
    -> (r: CodeNode)
    ensures
        old(id_gen).next + 2 * func@.args.len() + 2 <= u64::MAX ==> {
            &&& r@ == call_template(func@, old(id_gen).next as int)
            &&& final(id_gen).next == old(id_gen).next + 2 * func@.args.len() + 2
        },
        (r@ matches NodeView::FunctionCall { function_reference, args, .. }
            && *function_reference matches NodeView::FunctionReference { function_id, .. }
            && function_id == func@.id
            && args.len() == func@.args.len()),
{
    let ghost base = old(id_gen).next as int;
    let ghost room = old(id_gen).next + 2 * func@.args.len() + 2 <= u64::MAX;
    let mut args: Vec<CodeNode> = Vec::new();
    let mut i: usize = 0;
    while i < func.args.len()
        invariant
            i <= func.args@.len(),
            func@.args.len() == func.args@.len(),
            forall|k: int| 0 <= k < func.args@.len()
                ==> func@.args[k] == (#[trigger] func.args@[k])@,
            room == (base + 2 * func@.args.len() + 2 <= u64::MAX),
            room ==> id_gen.next == base + 2 * i,
            args@.len() == i,
            room ==> forall|k: int| 0 <= k < i
                ==> (#[trigger] args@[k])@ == arg_template(func@.args[k], base + 2 * k),
        decreases func.args@.len() - i,
    {
        let arg_def = &func.args[i];
        let arg_id = id_gen.fresh();
        let ph_id = id_gen.fresh();
        let ph = CodeNode::Placeholder(Placeholder {
            id: ph_id,
            description: arg_def.short_name.clone(),
            typ: arg_def.arg_type.duplicate(),
        });
        proof {
            assert(ph@ == (NodeView::Placeholder {
                id: ph_id,
                description: arg_def.short_name@,
                typ: arg_def.arg_type@,
            }));
        }
        let ghost phv = ph@;
        let node = CodeNode::Argument(Argument {
            id: arg_id,
            argument_definition_id: arg_def.id,
            expr: Box::new(ph),
        });
        proof {
            assert(func@.args[i as int] == arg_def@);
            assert(node@ == (NodeView::Argument {
                id: arg_id,
                argument_definition_id: arg_def.id,
                expr: Box::new(phv),
            }));
            if room {
                assert(node@ == arg_template(func@.args[i as int], base + 2 * i));
            }
        }
        args.push(node);
        i = i + 1;
    }
    let call_id = id_gen.fresh();
    let fr_id = id_gen.fresh();
    let fr = CodeNode::FunctionReference(FunctionReference { id: fr_id, function_id: func.id });
    proof {
        assert(fr@ == (NodeView::FunctionReference { id: fr_id, function_id: func.id }));
    }
    let ghost frv = fr@;
    let ghost argvs = args@;
    let r = CodeNode::FunctionCall(FunctionCall {
        id: call_id,
        function_reference: Box::new(fr),
        args,
    });
    proof {
        assert(r@ == (NodeView::FunctionCall {
            id: call_id,
            function_reference: Box::new(frv),
            args: crate::lang::node_views(argvs),
        }));
        crate::lang::lemma_node_views(argvs);
        if room {
            assert forall|k: int| 0 <= k < argvs.len()
                implies crate::lang::node_views(argvs)[k]
                    == args_template(func@.args, base)[k] by {
                assert(crate::lang::node_views(argvs)[k]
                    == crate::lang::node_view(argvs[k]));
                assert(argvs[k]@ == arg_template(func@.args[k], base + 2 * k));
            }
            assert(crate::lang::node_views(argvs) =~= args_template(func@.args, base));
        }
    }
    r
}

/// A reference to the variable an assignment binds.
pub fn new_variable_reference(assignment: &Assignment, id_gen: &mut IdGen) -> (r: CodeNode)
    ensures
        r@ == (NodeView::VariableReference {
            id: old(id_gen).next,
            assignment_id: assignment.id,
        }),
        final(id_gen).next == if old(id_gen).next < u64::MAX {
            (old(id_gen).next + 1) as u64
        } else {
            u64::MAX
        },
{
    CodeNode::VariableReference(VariableReference {
        id: id_gen.fresh(),
        assignment_id: assignment.id,
    })
}

/// A reference to the variable with the given declaration id.
pub fn new_variable_reference_to(assignment_id: ID, id_gen: &mut IdGen) -> (r: CodeNode)
    ensures
        r@ == (NodeView::VariableReference { id: old(id_gen).next, assignment_id }),
        final(id_gen).next == if old(id_gen).next < u64::MAX {
            (old(id_gen).next + 1) as u64
        } else {
            u64::MAX
        },
{
    CodeNode::VariableReference(VariableReference { id: id_gen.fresh(), assignment_id })
}

/// A string literal holding the given text.
pub fn new_string_literal(string: &str, id_gen: &mut IdGen) -> (r: CodeNode)
    ensures
        r@ == (NodeView::StringLiteral { id: old(id_gen).next, value: string@ }),
        final(id_gen).next == if old(id_gen).next < u64::MAX {
            (old(id_gen).next + 1) as u64
        } else {
            u64::MAX
        },
{
    CodeNode::StringLiteral(StringLiteral { id: id_gen.fresh(), value: string.to_owned() })
}

/// A null literal.
pub fn new_null_literal(id_gen: &mut IdGen) -> (r: CodeNode)
    ensures
        r@ == (NodeView::NullLiteral { id: old(id_gen).next }),
        final(id_gen).next == if old(id_gen).next < u64::MAX {
            (old(id_gen).next + 1) as u64
        } else {
            u64::MAX
        },
{
    CodeNode::NullLiteral(id_gen.fresh())
}

/// A typed hole with a description.
pub fn new_placeholder(description: String, typ: Type, id_gen: &mut IdGen) -> (r: CodeNode)
    ensures
        r@ == (NodeView::Placeholder {
            id: old(id_gen).next,
            description: description@,
            typ: typ@,
        }),
        final(id_gen).next == if old(id_gen).next < u64::MAX {
            (old(id_gen).next + 1) as u64
        } else {
            u64::MAX
        },
{
    CodeNode::Placeholder(Placeholder { id: id_gen.fresh(), description, typ })
}

/// The hole built for one struct field.
pub open spec fn field_template(f: crate::env::StructFieldView, base: int) -> NodeView {
    NodeView::StructLiteralField {
        id: base as u64,
        struct_field_id: f.id,
        expr: Box::new(NodeView::Placeholder {
            id: (base + 1) as u64,
            description: f.name,
            typ: f.field_type,
        }),
    }
}

/// The holes built for a struct's field list, two ids per field.
pub open spec fn fields_template(fields: Seq<crate::env::StructFieldView>, base: int)
    -> Seq<NodeView> {
    Seq::new(fields.len(), |i: int| field_template(fields[i], base + 2 * i))
}

/// The literal built for a struct: one placeholder hole per field.
pub open spec fn struct_literal_template(sd: StructDescView, base: int) -> NodeView {
    NodeView::StructLiteral {
        id: (base + 2 * sd.fields.len()) as u64,
        struct_id: sd.id,
        fields: fields_template(sd.fields, base),
    }
}

/// A literal of the struct with every field holding a typed placeholder.
pub fn new_struct_literal_with_placeholders(strukt: &StructDesc, id_gen: &mut IdGen)
    -> (r: CodeNode)
    ensures
        old(id_gen).next + 2 * strukt@.fields.len() + 1 <= u64::MAX ==> {
            &&& r@ == struct_literal_template(strukt@, old(id_gen).next as int)
            &&& final(id_gen).next == old(id_gen).next + 2 * strukt@.fields.len() + 1
        },
        (r@ matches NodeView::StructLiteral { struct_id, fields, .. }
            && struct_id == strukt@.id && fields.len() == strukt@.fields.len()),
{
    let ghost base = old(id_gen).next as int;
    let ghost room = old(id_gen).next + 2 * strukt@.fields.len() + 1 <= u64::MAX;
    let mut fields: Vec<CodeNode> = Vec::new();
    let mut i: usize = 0;
    while i < strukt.fields.len()
        invariant
            i <= strukt.fields@.len(),
            strukt@.fields.len() == strukt.fields@.len(),
            forall|k: int| 0 <= k < strukt.fields@.len()
                ==> strukt@.fields[k] == (#[trigger] strukt.fields@[k])@,
            room == (base + 2 * strukt@.fields.len() + 1 <= u64::MAX),
            room ==> id_gen.next == base + 2 * i,
            fields@.len() == i,
            room ==> forall|k: int| 0 <= k < i
                ==> (#[trigger] fields@[k])@ == field_template(strukt@.fields[k], base + 2 * k),
        decreases strukt.fields@.len() - i,
    {
        let field = &strukt.fields[i];
        let field_id = id_gen.fresh();
        let ph_id = id_gen.fresh();
        let ph = CodeNode::Placeholder(Placeholder {
            id: ph_id,
            description: field.name.clone(),
            typ: field.field_type.duplicate(),
        });
        proof {
            assert(ph@ == (NodeView::Placeholder {
                id: ph_id,
                description: field.name@,
                typ: field.field_type@,
            }));
        }
        let ghost phv = ph@;
        let node = CodeNode::StructLiteralField(StructLiteralField {
            id: field_id,
            struct_field_id: field.id,
            expr: Box::new(ph),
        });
        proof {
            assert(strukt@.fields[i as int] == field@);
            assert(node@ == (NodeView::StructLiteralField {
                id: field_id,
                struct_field_id: field.id,
                expr: Box::new(phv),
            }));
            if room {
                assert(node@ == field_template(strukt@.fields[i as int], base + 2 * i));
            }
        }
        fields.push(node);
        i = i + 1;
    }
    let lit_id = id_gen.fresh();
    let ghost fieldvs = fields@;
    let r = CodeNode::StructLiteral(StructLiteral {
        id: lit_id,
        struct_id: strukt.id,
        fields,
    });
    proof {
        assert(r@ == (NodeView::StructLiteral {
            id: lit_id,
            struct_id: strukt.id,
            fields: crate::lang::node_views(fieldvs),
        }));
        crate::lang::lemma_node_views(fieldvs);
        if room {
            assert forall|k: int| 0 <= k < fieldvs.len()
                implies crate::lang::node_views(fieldvs)[k]
                    == fields_template(strukt@.fields, base)[k] by {
                assert(crate::lang::node_views(fieldvs)[k]
                    == crate::lang::node_view(fieldvs[k]));
                assert(fieldvs[k]@ == field_template(strukt@.fields[k], base + 2 * k));
            }
            assert(crate::lang::node_views(fieldvs)
                =~= fields_template(strukt@.fields, base));
        }
    }
    r
}

} // verus!
