//! The locals resolver: the four sources of visible variables, the
//! strict-prefix rule, and on-demand generic resolution.

use cs::code_genie::CodeGenie;
use cs::env::{
    string_type, type_with_params, CodeArgs, ExecutionEnvironment, FuncDesc, TypeSpecDesc,
    TypeSpecKind, LIST_TYPESPEC_ID, STRING_TYPESPEC_ID,
};
use cs::lang::{
    AnonymousFunction, Argument, ArgumentDefinition, Assignment, Block, CodeNode,
    FunctionCall, FunctionReference, ListLiteral, Match, MatchBranch, Placeholder,
    StringLiteral, Type,
};
use cs::locals::{
    find_all_locals_preceding_with_resolving_generics,
    find_all_locals_preceding_without_resolving_generics, resolve_generics, SearchPosition,
    VariableAntecedent,
};

fn strlit(id: u64, value: &str) -> CodeNode {
    CodeNode::StringLiteral(StringLiteral { id, value: value.to_string() })
}

fn assignment(id: u64, name: &str, expr: CodeNode) -> CodeNode {
    CodeNode::Assignment(Assignment {
        id,
        name: name.to_string(),
        expression: Box::new(expr),
    })
}

#[test]
fn assignments_preceding_the_position_are_visible() {
    let env = ExecutionEnvironment::new();
    let genie = CodeGenie::new(CodeNode::Block(Block {
        id: 1,
        expressions: vec![
            assignment(2, "x", strlit(3, "a")),
            assignment(4, "y", strlit(5, "b")),
            CodeNode::Placeholder(Placeholder {
                id: 6,
                description: "open".to_string(),
                typ: cs::env::null_type(),
            }),
        ],
    }));

    let at_end = find_all_locals_preceding_without_resolving_generics(
        SearchPosition::not_inclusive(6), &genie, &env);
    assert_eq!(at_end.len(), 2);
    assert_eq!(at_end[0].name, "x");
    assert_eq!(at_end[0].locals_id, 2);
    assert_eq!(at_end[1].name, "y");

    // scope monotonicity on concrete values: x precedes y, so x is
    // visible at y; nothing at or after y is
    let at_y = find_all_locals_preceding_without_resolving_generics(
        SearchPosition::not_inclusive(4), &genie, &env);
    assert_eq!(at_y.len(), 1);
    assert_eq!(at_y[0].locals_id, 2);

    let at_x = find_all_locals_preceding_without_resolving_generics(
        SearchPosition::not_inclusive(2), &genie, &env);
    assert_eq!(at_x.len(), 0);
}

#[test]
fn enclosing_function_parameters_are_visible() {
    let mut env = ExecutionEnvironment::new();
    env.set_code_args(CodeArgs {
        code_id: 1,
        args: vec![ArgumentDefinition {
            id: 50,
            arg_type: string_type(),
            short_name: "who".to_string(),
        }],
    });
    let genie = CodeGenie::new(CodeNode::Block(Block {
        id: 1,
        expressions: vec![CodeNode::Placeholder(Placeholder {
            id: 6,
            description: "open".to_string(),
            typ: cs::env::null_type(),
        })],
    }));
    let locals = find_all_locals_preceding_without_resolving_generics(
        SearchPosition::not_inclusive(6), &genie, &env);
    assert_eq!(locals.len(), 1);
    assert_eq!(locals[0].name, "who");
    assert_eq!(locals[0].variable_type, VariableAntecedent::Argument);
    assert_eq!(locals[0].typ.typespec_id, STRING_TYPESPEC_ID);
}

#[test]
fn match_bindings_and_anonymous_function_arguments_are_visible() {
    let env = ExecutionEnvironment::new();
    // an anonymous function whose block holds a match statement and then
    // an open placeholder
    let tree = CodeNode::AnonymousFunction(AnonymousFunction {
        id: 10,
        takes_arg: ArgumentDefinition {
            id: 11,
            arg_type: string_type(),
            short_name: "item".to_string(),
        },
        block: Box::new(CodeNode::Block(Block {
            id: 12,
            expressions: vec![
                CodeNode::Match(Match {
                    id: 13,
                    scrutinee: Box::new(strlit(14, "s")),
                    branches: vec![MatchBranch { variant_id: 15, body: strlit(16, "b") }],
                }),
                CodeNode::Placeholder(Placeholder {
                    id: 17,
                    description: "open".to_string(),
                    typ: cs::env::null_type(),
                }),
            ],
        })),
    });
    let genie = CodeGenie::new(tree);
    let locals = find_all_locals_preceding_without_resolving_generics(
        SearchPosition::not_inclusive(17), &genie, &env);
    assert_eq!(locals.len(), 2);
    assert_eq!(locals[0].variable_type, VariableAntecedent::MatchVariant {
        match_statement_id: 13,
        variant_id: 15,
    });
    assert_eq!(locals[0].locals_id, 15);
    assert_eq!(locals[1].variable_type, VariableAntecedent::AnonFuncArgument {
        anonymous_function_id: 10,
    });
    assert_eq!(locals[1].locals_id, 11);
    assert_eq!(locals[1].name, "item");
    assert_eq!(locals[1].typ.typespec_id, STRING_TYPESPEC_ID);
}

fn generic_env() -> ExecutionEnvironment {
    let mut env = ExecutionEnvironment::new();
    // a generic type parameter T, and a function
    // first(list: List<T>) -> T
    env.add_typespec(TypeSpecDesc {
        id: 90,
        readable_name: "T".to_string(),
        symbol: "t".to_string(),
        num_params: 0,
        kind: TypeSpecKind::Generic,
    });
    env.add_function_desc(FuncDesc {
        id: 60,
        name: "First".to_string(),
        return_type: Type { typespec_id: 90, params: vec![] },
        args: vec![ArgumentDefinition {
            id: 61,
            arg_type: type_with_params(LIST_TYPESPEC_ID,
                vec![Type { typespec_id: 90, params: vec![] }]),
            short_name: "of".to_string(),
        }],
    });
    env
}

fn generic_call_tree() -> CodeNode {
    // a = First([] of String); the call returns the generic T
    CodeNode::Block(Block {
        id: 1,
        expressions: vec![
            assignment(2, "a", CodeNode::FunctionCall(FunctionCall {
                id: 3,
                function_reference: Box::new(CodeNode::FunctionReference(
                    FunctionReference { id: 4, function_id: 60 })),
                args: vec![CodeNode::Argument(Argument {
                    id: 5,
                    argument_definition_id: 61,
                    expr: Box::new(CodeNode::ListLiteral(ListLiteral {
                        id: 6,
                        element_type: string_type(),
                        elements: vec![],
                    })),
                })],
            })),
            CodeNode::Placeholder(Placeholder {
                id: 7,
                description: "open".to_string(),
                typ: cs::env::null_type(),
            }),
        ],
    })
}

#[test]
fn generic_resolution_binds_the_call_site_argument_type() {
    let env = generic_env();
    let genie = CodeGenie::new(generic_call_tree());
    // without resolution the variable's type is the bare generic
    let raw = find_all_locals_preceding_without_resolving_generics(
        SearchPosition::not_inclusive(7), &genie, &env);
    assert_eq!(raw.len(), 1);
    assert_eq!(raw[0].typ.typespec_id, 90);

    // resolving substitutes the concrete type supplied at the call site
    let resolved = find_all_locals_preceding_with_resolving_generics(
        SearchPosition::not_inclusive(7), &genie, &env);
    assert_eq!(resolved.len(), 1);
    assert_eq!(resolved[0].typ.typespec_id, STRING_TYPESPEC_ID);

    // the single-variable path agrees
    let t = resolve_generics(&raw[0], &genie, &env);
    assert_eq!(t.typespec_id, STRING_TYPESPEC_ID);
}

#[test]
fn plain_arguments_and_match_bindings_stay_unresolved() {
    let env = generic_env();
    let genie = CodeGenie::new(generic_call_tree());
    let var = cs::locals::Variable {
        variable_type: VariableAntecedent::Argument,
        locals_id: 99,
        typ: Type { typespec_id: 90, params: vec![] },
        name: "p".to_string(),
    };
    let t = resolve_generics(&var, &genie, &env);
    assert_eq!(t.typespec_id, 90);
}
