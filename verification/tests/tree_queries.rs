//! The tree query layer: lookup by id, parent lookup, the enclosing
//! block statement, scope prefixes and structural type inference.

use cs::builtin_funcs::{Capitalize, CAPITALIZE_FUNC_ID};
use cs::code_genie::CodeGenie;
use cs::env::{ExecutionEnvironment, NULL_TYPESPEC_ID, STRING_TYPESPEC_ID};
use cs::lang::{
    Argument, Assignment, Block, CodeNode, FunctionCall, FunctionReference, Placeholder,
    StringLiteral, VariableReference,
};

fn strlit(id: u64, value: &str) -> CodeNode {
    CodeNode::StringLiteral(StringLiteral { id, value: value.to_string() })
}

fn assignment(id: u64, name: &str, expr: CodeNode) -> CodeNode {
    CodeNode::Assignment(Assignment {
        id,
        name: name.to_string(),
        expression: Box::new(expr),
    })
}

fn two_line_tree() -> CodeNode {
    CodeNode::Block(Block {
        id: 1,
        expressions: vec![
            assignment(2, "x", strlit(3, "hi")),
            assignment(4, "y", CodeNode::VariableReference(VariableReference {
                id: 5,
                assignment_id: 2,
            })),
        ],
    })
}

#[test]
fn find_node_and_parent_by_id() {
    let genie = CodeGenie::new(two_line_tree());
    assert_eq!(genie.find_node(3).unwrap().id(), 3);
    assert_eq!(genie.find_node(999).map(|n| n.id()), None);
    assert_eq!(genie.find_parent(3).unwrap().id(), 2);
    assert_eq!(genie.find_parent(2).unwrap().id(), 1);
    assert!(genie.find_parent(1).is_none());
}

#[test]
fn enclosing_block_statement_anchors_queries() {
    let genie = CodeGenie::new(two_line_tree());
    // the literal inside the first assignment belongs to statement 2
    assert_eq!(genie.find_expression_inside_block_that_contains(3), Some(2));
    assert_eq!(genie.find_expression_inside_block_that_contains(2), Some(2));
    assert_eq!(genie.find_expression_inside_block_that_contains(5), Some(4));
    // the root block itself has no enclosing statement
    assert_eq!(genie.find_expression_inside_block_that_contains(1), None);
}

#[test]
fn assignments_preceding_are_the_strict_prefix() {
    let genie = CodeGenie::new(two_line_tree());
    let before_y = genie.find_assignments_that_come_before_code(4, false);
    assert_eq!(before_y.len(), 1);
    assert_eq!(before_y[0].id, 2);
    assert_eq!(before_y[0].name, "x");

    let before_x = genie.find_assignments_that_come_before_code(2, false);
    assert_eq!(before_x.len(), 0);

    // an inclusive search takes the anchor statement itself in as well
    let with_y = genie.find_assignments_that_come_before_code(4, true);
    assert_eq!(with_y.len(), 2);
    assert_eq!(with_y[1].id, 4);
}

#[test]
fn replace_swaps_exactly_the_identified_subtree() {
    let mut genie = CodeGenie::new(two_line_tree());
    genie.replace(strlit(3, "changed"));
    match genie.find_node(3).unwrap() {
        CodeNode::StringLiteral(s) => assert_eq!(s.value, "changed"),
        other => panic!("expected a string literal, got {:?}", other),
    }
    // everything else is untouched
    assert_eq!(genie.find_node(4).unwrap().id(), 4);
}

#[test]
fn guess_type_follows_the_structure() {
    let mut env = ExecutionEnvironment::new();
    env.add_function(Capitalize {});
    let call = CodeNode::FunctionCall(FunctionCall {
        id: 10,
        function_reference: Box::new(CodeNode::FunctionReference(FunctionReference {
            id: 11,
            function_id: CAPITALIZE_FUNC_ID,
        })),
        args: vec![],
    });
    let tree = CodeNode::Block(Block {
        id: 1,
        expressions: vec![assignment(2, "x", strlit(3, "hi")), call],
    });
    let genie = CodeGenie::new(tree);

    // a literal is a string
    let t = genie.guess_type(genie.find_node(3).unwrap(), &env).unwrap();
    assert_eq!(t.typespec_id, STRING_TYPESPEC_ID);
    // an assignment takes its expression's type
    let t = genie.guess_type(genie.find_node(2).unwrap(), &env).unwrap();
    assert_eq!(t.typespec_id, STRING_TYPESPEC_ID);
    // a call takes its function's declared return type
    let t = genie.guess_type(genie.find_node(10).unwrap(), &env).unwrap();
    assert_eq!(t.typespec_id, STRING_TYPESPEC_ID);
    // a block takes its last statement's type
    let t = genie.guess_type(genie.find_node(1).unwrap(), &env).unwrap();
    assert_eq!(t.typespec_id, STRING_TYPESPEC_ID);
    // an empty block is the null type
    let empty = CodeGenie::new(CodeNode::Block(Block { id: 7, expressions: vec![] }));
    let t = empty.guess_type(empty.find_node(7).unwrap(), &env).unwrap();
    assert_eq!(t.typespec_id, NULL_TYPESPEC_ID);
}

#[test]
fn guess_type_resolves_variable_references_through_declarations() {
    let env = ExecutionEnvironment::new();
    let genie = CodeGenie::new(two_line_tree());
    let t = genie.guess_type(genie.find_node(5).unwrap(), &env).unwrap();
    assert_eq!(t.typespec_id, STRING_TYPESPEC_ID);
    // a reference to a missing declaration degrades to "cannot infer"
    let dangling = CodeGenie::new(CodeNode::VariableReference(VariableReference {
        id: 6,
        assignment_id: 999,
    }));
    assert!(dangling.guess_type(dangling.find_node(6).unwrap(), &env).is_none());
}

#[test]
fn argument_holes_take_their_declared_type() {
    let mut env = ExecutionEnvironment::new();
    env.add_function(Capitalize {});
    let arg = CodeNode::Argument(Argument {
        id: 20,
        argument_definition_id: cs::builtin_funcs::CAPITALIZE_ARG_ID,
        expr: Box::new(CodeNode::Placeholder(Placeholder {
            id: 21,
            description: "slot".to_string(),
            typ: cs::env::string_type(),
        })),
    });
    let genie = CodeGenie::new(arg);
    let t = genie.guess_type(genie.find_node(20).unwrap(), &env).unwrap();
    assert_eq!(t.typespec_id, STRING_TYPESPEC_ID);
}

#[test]
fn descriptions_name_the_kind_and_the_content() {
    assert_eq!(strlit(1, "hey").description(), "String literal: hey");
    assert_eq!(assignment(2, "x", strlit(3, "v")).description(), "Assignment: x");
    assert_eq!(CodeNode::NullLiteral(4).description(), "Null literal");
    assert_eq!(
        CodeNode::Placeholder(Placeholder {
            id: 5,
            description: "slot".to_string(),
            typ: cs::env::null_type(),
        })
        .description(),
        "Placeholder: slot"
    );
}
