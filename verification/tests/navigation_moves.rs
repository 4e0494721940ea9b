//! Cursor navigation: forward and back over the navigatable nodes in
//! traversal order, vertical moves keeping the offset, and termination
//! at the traversal's ends.

use cs::code_genie::CodeGenie;
use cs::lang::{Argument, Assignment, Block, CodeNode, FunctionCall, FunctionReference, Placeholder, StringLiteral};
use cs::navigation::Navigation;

fn strlit(id: u64, value: &str) -> CodeNode {
    CodeNode::StringLiteral(StringLiteral { id, value: value.to_string() })
}

fn assignment(id: u64, name: &str, expr: CodeNode) -> CodeNode {
    CodeNode::Assignment(Assignment {
        id,
        name: name.to_string(),
        expression: Box::new(expr),
    })
}

fn two_line_tree() -> CodeGenie {
    CodeGenie::new(CodeNode::Block(Block {
        id: 1,
        expressions: vec![
            assignment(2, "x", strlit(3, "hi")),
            assignment(4, "y", strlit(5, "ho")),
        ],
    }))
}

#[test]
fn forward_visits_navigatable_nodes_in_traversal_order() {
    let genie = two_line_tree();
    let nav = Navigation::new(&genie);
    // the block itself is not navigatable, so the walk starts at the
    // first assignment
    assert_eq!(nav.navigate_forward_from(None), Some(2));
    assert_eq!(nav.navigate_forward_from(Some(2)), Some(3));
    assert_eq!(nav.navigate_forward_from(Some(3)), Some(4));
    assert_eq!(nav.navigate_forward_from(Some(4)), Some(5));
    // the traversal ends: no silent wrap, just none
    assert_eq!(nav.navigate_forward_from(Some(5)), None);
}

#[test]
fn back_visits_navigatable_nodes_in_reverse() {
    let genie = two_line_tree();
    let nav = Navigation::new(&genie);
    assert_eq!(nav.navigate_back_from(Some(5)), Some(4));
    assert_eq!(nav.navigate_back_from(Some(4)), Some(3));
    assert_eq!(nav.navigate_back_from(Some(3)), Some(2));
    assert_eq!(nav.navigate_back_from(Some(2)), None);
    assert_eq!(nav.navigate_back_from(None), None);
}

#[test]
fn vertical_moves_keep_the_offset_within_the_line() {
    let genie = two_line_tree();
    let nav = Navigation::new(&genie);
    // the literal is the second navigatable node of its statement; going
    // down lands on the second navigatable node of the next statement
    assert_eq!(nav.navigate_down_from(Some(3)), Some(5));
    assert_eq!(nav.navigate_up_from(Some(5)), Some(3));
    // at the assignment itself, offset 0 maps to offset 0
    assert_eq!(nav.navigate_down_from(Some(2)), Some(4));
    assert_eq!(nav.navigate_up_from(Some(4)), Some(2));
    // below the last line there is nothing
    assert_eq!(nav.navigate_down_from(Some(4)), None);
    // with nothing selected, down goes to the first navigatable node
    assert_eq!(nav.navigate_down_from(None), Some(2));
    assert_eq!(nav.navigate_up_from(None), None);
}

#[test]
fn vertical_move_clamps_to_the_last_navigatable_node() {
    // the second line is shorter: a bare placeholder statement with one
    // navigatable node
    let genie = CodeGenie::new(CodeNode::Block(Block {
        id: 1,
        expressions: vec![
            assignment(2, "x", strlit(3, "hi")),
            CodeNode::Placeholder(cs::lang::Placeholder {
                id: 4,
                description: "open".to_string(),
                typ: cs::env::null_type(),
            }),
        ],
    }));
    let nav = Navigation::new(&genie);
    assert_eq!(nav.navigate_down_from(Some(3)), Some(4));
}

#[test]
fn dfs_successor_and_predecessor() {
    let genie = two_line_tree();
    let nav = Navigation::new(&genie);
    assert_eq!(nav.next_node_from(None).unwrap().id(), 1);
    assert_eq!(nav.next_node_from(Some(1)).unwrap().id(), 2);
    assert_eq!(nav.next_node_from(Some(3)).unwrap().id(), 4);
    assert!(nav.next_node_from(Some(5)).is_none());
    assert_eq!(nav.prev_node_from(4).unwrap().id(), 3);
    assert!(nav.prev_node_from(1).is_none());
}

#[test]
fn function_calls_are_entered_not_selected() {
    let genie = CodeGenie::new(CodeNode::Block(Block {
        id: 1,
        expressions: vec![CodeNode::FunctionCall(FunctionCall {
            id: 2,
            function_reference: Box::new(CodeNode::FunctionReference(FunctionReference {
                id: 3,
                function_id: 77,
            })),
            args: vec![CodeNode::Argument(Argument {
                id: 4,
                argument_definition_id: 78,
                expr: Box::new(CodeNode::Placeholder(Placeholder {
                    id: 5,
                    description: "slot".to_string(),
                    typ: cs::env::string_type(),
                })),
            })],
        })],
    }));
    let nav = Navigation::new(&genie);
    // the call and its hole are skipped; the reference and the hole's
    // content are the targets
    assert_eq!(nav.navigate_forward_from(None), Some(3));
    assert_eq!(nav.navigate_forward_from(Some(3)), Some(5));
    assert_eq!(nav.navigate_forward_from(Some(5)), None);
}
