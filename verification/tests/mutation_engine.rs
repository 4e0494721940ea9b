//! The mutation engine directly: each insertion point kind, deletion
//! from blocks and list literals, and the post-insertion cursor rules.

use cs::code_editor::InsertionPoint;
use cs::code_genie::CodeGenie;
use cs::lang::{
    Argument, Assignment, Block, CodeNode, FunctionCall, FunctionReference, ListLiteral,
    Placeholder, StringLiteral, StructLiteral, StructLiteralField,
};
use cs::mutation::{post_insertion_cursor, MutationMaster, PostInsertionAction};

fn strlit(id: u64, value: &str) -> CodeNode {
    CodeNode::StringLiteral(StringLiteral { id, value: value.to_string() })
}

fn assignment(id: u64, name: &str, expr: CodeNode) -> CodeNode {
    CodeNode::Assignment(Assignment {
        id,
        name: name.to_string(),
        expression: Box::new(expr),
    })
}

fn placeholder(id: u64) -> CodeNode {
    CodeNode::Placeholder(Placeholder {
        id,
        description: "open".to_string(),
        typ: cs::env::string_type(),
    })
}

#[test]
fn insert_before_after_and_at_beginning_of_block() {
    let genie = CodeGenie::new(CodeNode::Block(Block {
        id: 1,
        expressions: vec![assignment(2, "x", strlit(3, "a"))],
    }));
    let master = MutationMaster::new();

    let first = master
        .insert_code(&strlit(10, "front"), InsertionPoint::BeginningOfBlock(1), &genie)
        .unwrap();
    match &first {
        CodeNode::Block(b) => {
            assert_eq!(b.expressions.len(), 2);
            assert_eq!(b.expressions[0].id(), 10);
            assert_eq!(b.expressions[1].id(), 2);
        }
        other => panic!("expected a block, got {:?}", other),
    }

    let before = master
        .insert_code(&strlit(11, "pre"), InsertionPoint::Before(2), &genie)
        .unwrap();
    match &before {
        CodeNode::Block(b) => {
            assert_eq!(b.expressions[0].id(), 11);
            assert_eq!(b.expressions[1].id(), 2);
        }
        other => panic!("expected a block, got {:?}", other),
    }

    let after = master
        .insert_code(&strlit(12, "post"), InsertionPoint::After(2), &genie)
        .unwrap();
    match &after {
        CodeNode::Block(b) => {
            assert_eq!(b.expressions[0].id(), 2);
            assert_eq!(b.expressions[1].id(), 12);
        }
        other => panic!("expected a block, got {:?}", other),
    }
}

#[test]
fn insert_fills_argument_and_struct_literal_holes() {
    let genie = CodeGenie::new(CodeNode::Block(Block {
        id: 1,
        expressions: vec![
            CodeNode::Argument(Argument {
                id: 2,
                argument_definition_id: 77,
                expr: Box::new(placeholder(3)),
            }),
            CodeNode::StructLiteralField(StructLiteralField {
                id: 4,
                struct_field_id: 78,
                expr: Box::new(placeholder(5)),
            }),
        ],
    }));
    let master = MutationMaster::new();

    let filled = master
        .insert_code(&strlit(10, "v"), InsertionPoint::Argument(2), &genie)
        .unwrap();
    let check = CodeGenie::new(filled);
    match check.find_node(2).unwrap() {
        CodeNode::Argument(a) => assert_eq!(a.expr.id(), 10),
        other => panic!("expected an argument, got {:?}", other),
    }

    let filled = master
        .insert_code(&strlit(11, "w"), InsertionPoint::StructLiteralField(4), &genie)
        .unwrap();
    let check = CodeGenie::new(filled);
    match check.find_node(4).unwrap() {
        CodeNode::StructLiteralField(f) => assert_eq!(f.expr.id(), 11),
        other => panic!("expected a field, got {:?}", other),
    }
}

#[test]
fn insert_into_list_literal_is_bounds_checked() {
    let genie = CodeGenie::new(CodeNode::ListLiteral(ListLiteral {
        id: 1,
        element_type: cs::env::string_type(),
        elements: vec![strlit(2, "a")],
    }));
    let master = MutationMaster::new();

    let grown = master
        .insert_code(&strlit(10, "b"),
            InsertionPoint::ListLiteralElement { list_literal_id: 1, pos: 1 }, &genie)
        .unwrap();
    match &grown {
        CodeNode::ListLiteral(l) => {
            assert_eq!(l.elements.len(), 2);
            assert_eq!(l.elements[1].id(), 10);
        }
        other => panic!("expected a list literal, got {:?}", other),
    }

    // a position past the end is refused
    let refused = master.insert_code(&strlit(11, "c"),
        InsertionPoint::ListLiteralElement { list_literal_id: 1, pos: 5 }, &genie);
    assert!(refused.is_none());
    // an in-place edit point is never an insertion
    let refused = master.insert_code(&strlit(12, "d"), InsertionPoint::Editing(2), &genie);
    assert!(refused.is_none());
}

#[test]
fn delete_from_block_selects_the_same_line_or_the_previous_one() {
    let genie = CodeGenie::new(CodeNode::Block(Block {
        id: 1,
        expressions: vec![
            assignment(2, "x", strlit(3, "a")),
            assignment(4, "y", strlit(5, "b")),
        ],
    }));
    let master = MutationMaster::new();

    // deleting the first statement selects the statement that took its place
    let r = master.delete_code(2, &genie, Some(2));
    assert_eq!(r.new_cursor_position, Some(4));
    match &r.new_root {
        CodeNode::Block(b) => assert_eq!(b.expressions.len(), 1),
        other => panic!("expected a block, got {:?}", other),
    }

    // deleting the last statement selects the previous one
    let r = master.delete_code(4, &genie, Some(4));
    assert_eq!(r.new_cursor_position, Some(2));
}

#[test]
fn delete_from_list_falls_back_to_the_list_itself() {
    let genie = CodeGenie::new(CodeNode::Block(Block {
        id: 1,
        expressions: vec![CodeNode::ListLiteral(ListLiteral {
            id: 2,
            element_type: cs::env::string_type(),
            elements: vec![strlit(3, "only")],
        })],
    }));
    let master = MutationMaster::new();
    let r = master.delete_code(3, &genie, Some(3));
    assert_eq!(r.new_cursor_position, Some(2));
    let check = CodeGenie::new(r.new_root);
    match check.find_node(2).unwrap() {
        CodeNode::ListLiteral(l) => assert_eq!(l.elements.len(), 0),
        other => panic!("expected a list literal, got {:?}", other),
    }
}

#[test]
fn deleting_a_hole_content_is_a_no_op() {
    let genie = CodeGenie::new(CodeNode::Argument(Argument {
        id: 1,
        argument_definition_id: 77,
        expr: Box::new(strlit(2, "kept")),
    }));
    let master = MutationMaster::new();
    // only block statements and list elements are independently deletable
    let r = master.delete_code(2, &genie, Some(2));
    assert_eq!(r.new_cursor_position, Some(2));
    let check = CodeGenie::new(r.new_root);
    assert!(check.find_node(2).is_some());
}

#[test]
fn post_insertion_cursor_enters_the_first_hole_and_chains_to_the_next() {
    let call = CodeNode::FunctionCall(FunctionCall {
        id: 10,
        function_reference: Box::new(CodeNode::FunctionReference(FunctionReference {
            id: 11,
            function_id: 99,
        })),
        args: vec![
            CodeNode::Argument(Argument {
                id: 12,
                argument_definition_id: 77,
                expr: Box::new(strlit(13, "done")),
            }),
            CodeNode::Argument(Argument {
                id: 14,
                argument_definition_id: 78,
                expr: Box::new(placeholder(15)),
            }),
        ],
    });
    let genie = CodeGenie::new(CodeNode::Block(Block {
        id: 1,
        expressions: vec![call.duplicate()],
    }));

    // inserting a call with holes goes into its first hole
    let action = post_insertion_cursor(&call, &genie);
    assert_eq!(action, PostInsertionAction::MarkAsEditing(InsertionPoint::Argument(12)));

    // filling the first hole chains into the next open hole
    let filled = genie.find_node(13).unwrap();
    let action = post_insertion_cursor(filled, &genie);
    assert_eq!(action, PostInsertionAction::MarkAsEditing(InsertionPoint::Argument(14)));

    // a bare literal simply stays selected
    let lone = CodeGenie::new(strlit(20, "alone"));
    let action = post_insertion_cursor(lone.find_node(20).unwrap(), &lone);
    assert_eq!(action, PostInsertionAction::SelectNode(20));
}

#[test]
fn struct_literal_insertion_enters_its_first_field() {
    let literal = CodeNode::StructLiteral(StructLiteral {
        id: 30,
        struct_id: 90,
        fields: vec![CodeNode::StructLiteralField(StructLiteralField {
            id: 31,
            struct_field_id: 91,
            expr: Box::new(placeholder(32)),
        })],
    });
    let genie = CodeGenie::new(literal.duplicate());
    let action = post_insertion_cursor(&literal, &genie);
    assert_eq!(action,
        PostInsertionAction::MarkAsEditing(InsertionPoint::StructLiteralField(31)));
}
