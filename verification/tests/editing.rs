//! End-to-end editing scenarios: insert a call and fill its hole, delete
//! the only statement, and undo back to the exact pre-delete state.

use cs::builtin_funcs::{Capitalize, CAPITALIZE_FUNC_ID};
use cs::code_editor::{CodeEditor, CodeLocation, InsertionPoint};
use cs::code_generation::{new_function_call_with_placeholder_args, new_variable_reference_to, IdGen};
use cs::env::ExecutionEnvironment;
use cs::lang::{Assignment, Block, CodeNode, StringLiteral};

fn nodes_equal(a: &CodeNode, b: &CodeNode) -> bool {
    format!("{:?}", a) == format!("{:?}", b)
}

fn sample_tree() -> CodeNode {
    CodeNode::Block(Block {
        id: 1,
        expressions: vec![CodeNode::Assignment(Assignment {
            id: 2,
            name: "x".to_string(),
            expression: Box::new(CodeNode::StringLiteral(StringLiteral {
                id: 3,
                value: "hi".to_string(),
            })),
        })],
    })
}

#[test]
fn insert_call_after_assignment_and_fill_argument() {
    let mut env = ExecutionEnvironment::new();
    env.add_function(Capitalize {});
    let mut editor = CodeEditor::new(sample_tree(), CodeLocation::Script(1));
    let mut id_gen = IdGen::new(100);

    let func = env.find_function(CAPITALIZE_FUNC_ID).unwrap().duplicate();
    let call = new_function_call_with_placeholder_args(&func, &mut id_gen);
    editor.insert_code(call, InsertionPoint::After(2), &env);

    // completion chains into the call's first hole
    assert!(editor.editing);
    assert_eq!(editor.selected_node_id, Some(100));

    let vref = new_variable_reference_to(2, &mut id_gen);
    editor.insert_code(vref, InsertionPoint::Argument(100), &env);

    match editor.get_code() {
        CodeNode::Block(b) => {
            assert_eq!(b.expressions.len(), 2);
            match &b.expressions[1] {
                CodeNode::FunctionCall(fc) => {
                    match fc.function_reference.as_ref() {
                        CodeNode::FunctionReference(fr) => {
                            assert_eq!(fr.function_id, CAPITALIZE_FUNC_ID);
                        }
                        other => panic!("expected a function reference, got {:?}", other),
                    }
                    assert_eq!(fc.args.len(), 1);
                    match &fc.args[0] {
                        CodeNode::Argument(a) => match a.expr.as_ref() {
                            CodeNode::VariableReference(vr) => {
                                assert_eq!(vr.assignment_id, 2);
                            }
                            other => panic!("expected a variable reference, got {:?}", other),
                        },
                        other => panic!("expected an argument, got {:?}", other),
                    }
                }
                other => panic!("expected a function call, got {:?}", other),
            }
        }
        other => panic!("expected a block, got {:?}", other),
    }
}

#[test]
fn delete_only_statement_empties_block_and_clears_cursor() {
    let mut editor = CodeEditor::new(sample_tree(), CodeLocation::Script(1));
    editor.selected_node_id = Some(2);
    editor.delete_selected_code();
    assert_eq!(editor.selected_node_id, None);
    match editor.get_code() {
        CodeNode::Block(b) => assert_eq!(b.expressions.len(), 0),
        other => panic!("expected a block, got {:?}", other),
    }
}

#[test]
fn undo_after_delete_restores_tree_and_cursor_exactly() {
    let mut editor = CodeEditor::new(sample_tree(), CodeLocation::Script(1));
    editor.selected_node_id = Some(2);
    let before_tree = editor.get_code().duplicate();
    let before_cursor = editor.selected_node_id;

    editor.delete_selected_code();
    assert!(!nodes_equal(editor.get_code(), &before_tree));

    editor.undo();
    assert!(nodes_equal(editor.get_code(), &before_tree));
    assert_eq!(editor.selected_node_id, before_cursor);
}

#[test]
fn redo_after_undo_returns_to_deleted_state() {
    let mut editor = CodeEditor::new(sample_tree(), CodeLocation::Script(1));
    editor.selected_node_id = Some(2);
    editor.delete_selected_code();
    let deleted_tree = editor.get_code().duplicate();
    editor.undo();
    editor.redo();
    assert!(nodes_equal(editor.get_code(), &deleted_tree));
}

#[test]
fn cancel_rolls_back_the_edit_session() {
    let env = ExecutionEnvironment::new();
    let mut editor = CodeEditor::new(sample_tree(), CodeLocation::Script(1));
    let before_tree = editor.get_code().duplicate();
    editor.selected_node_id = Some(2);
    editor.mark_as_editing(InsertionPoint::After(2), &env);
    assert!(editor.editing);
    editor.handle_cancel();
    assert!(!editor.editing);
    assert!(editor.insert_code_menu.is_none());
    assert!(nodes_equal(editor.get_code(), &before_tree));
}

#[test]
fn mismatched_insertion_point_leaves_tree_unchanged() {
    let env = ExecutionEnvironment::new();
    let mut editor = CodeEditor::new(sample_tree(), CodeLocation::Script(1));
    let before_tree = editor.get_code().duplicate();
    let mut id_gen = IdGen::new(100);
    let node = new_variable_reference_to(2, &mut id_gen);
    // the anchor id does not exist, so the insertion must refuse
    editor.insert_code(node, InsertionPoint::After(999), &env);
    assert!(nodes_equal(editor.get_code(), &before_tree));
}
