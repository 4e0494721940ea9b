//! The outer session: loading code and catalog entries, dispatching
//! keypresses, and the builtin descriptors and scripts.

use cs::builtin_funcs::{Capitalize, HTTPGet, Print, CAPITALIZE_FUNC_ID, PRINT_FUNC_ID};
use cs::code_generation::IdGen;
use cs::editor::{Controller, Key, Keypress};
use cs::env::{Function, StructDesc, StructField, TypeSpecDesc, TypeSpecKind};
use cs::lang::{Assignment, Block, CodeNode, StringLiteral};
use cs::scripts::Script;

fn sample_tree() -> CodeNode {
    CodeNode::Block(Block {
        id: 1,
        expressions: vec![CodeNode::Assignment(Assignment {
            id: 2,
            name: "x".to_string(),
            expression: Box::new(CodeNode::StringLiteral(StringLiteral {
                id: 3,
                value: "hi".to_string(),
            })),
        })],
    })
}

#[test]
fn load_find_and_remove_functions() {
    let mut controller = Controller::new();
    controller.load_function(Print {});
    controller.load_function(Capitalize {});
    assert_eq!(controller.find_function(PRINT_FUNC_ID).unwrap().name, "Print");
    assert_eq!(controller.find_function(CAPITALIZE_FUNC_ID).unwrap().name, "Capitalize");
    controller.remove_function(PRINT_FUNC_ID);
    assert!(controller.find_function(PRINT_FUNC_ID).is_none());
    assert!(controller.find_function(CAPITALIZE_FUNC_ID).is_some());
}

#[test]
fn load_typespecs_and_list_structs() {
    let mut controller = Controller::new();
    assert_eq!(controller.list_structs().len(), 0);
    controller.load_typespec(TypeSpecDesc {
        id: 40,
        readable_name: "Point".to_string(),
        symbol: "pt".to_string(),
        num_params: 0,
        kind: TypeSpecKind::Strukt(StructDesc {
            id: 40,
            name: "Point".to_string(),
            symbol: "pt".to_string(),
            fields: vec![StructField {
                id: 41,
                name: "x".to_string(),
                field_type: cs::env::number_type(),
            }],
        }),
    });
    let structs = controller.list_structs();
    assert_eq!(structs.len(), 1);
    assert_eq!(structs[0].name, "Point");
    assert_eq!(controller.get_typespec(40).unwrap().readable_name, "Point");
    // the builtin type specs are preloaded
    assert!(controller.get_typespec(cs::env::STRING_TYPESPEC_ID).is_some());
}

#[test]
fn keypresses_drive_the_loaded_session() {
    let mut controller = Controller::new();
    controller.load_code(&sample_tree());
    assert_eq!(controller.get_selected_node_id(), None);

    // move onto the first navigatable node, then into the line
    controller.try_select_forward_one_node();
    assert_eq!(controller.get_selected_node_id(), Some(2));
    controller.handle_keypress_in_code_window(Keypress::new(Key::W, false, false));
    assert_eq!(controller.get_selected_node_id(), Some(3));
    controller.handle_keypress_in_code_window(Keypress::new(Key::B, false, false));
    assert_eq!(controller.get_selected_node_id(), Some(2));

    // delete the line, undo it back
    controller.handle_keypress_in_code_window(Keypress::new(Key::D, false, false));
    assert_eq!(controller.get_selected_node_id(), None);
    controller.handle_keypress_in_code_window(Keypress::new(Key::U, false, false));
    assert_eq!(controller.get_selected_node_id(), Some(2));
    assert!(controller.get_selected_node().is_some());
}

#[test]
fn escape_cancels_an_edit_session() {
    let mut controller = Controller::new();
    controller.load_code(&sample_tree());
    controller.set_selected_node_id(Some(2));
    // open an insertion point on the next line, then cancel it
    controller.handle_keypress_in_code_window(Keypress::new(Key::O, false, false));
    assert!(controller.insertion_point().is_some());
    controller.handle_keypress_in_code_window(Keypress::new(Key::Escape, false, false));
    assert!(controller.insertion_point().is_none());
}

#[test]
fn select_current_line_snaps_to_the_statement() {
    let mut controller = Controller::new();
    controller.load_code(&sample_tree());
    controller.set_selected_node_id(Some(3));
    assert_eq!(controller.currently_focused_block_expression(), Some(2));
    controller.handle_keypress_in_code_window(Keypress::new(Key::V, false, true));
    assert_eq!(controller.get_selected_node_id(), Some(2));
}

#[test]
fn error_console_accumulates_reports() {
    let mut controller = Controller::new();
    assert_eq!(controller.read_error_console(), "");
    controller.record_error("first\n");
    controller.record_error("second\n");
    assert_eq!(controller.read_error_console(), "first\nsecond\n");
}

#[test]
fn builtin_descriptors_expose_names_types_and_arguments() {
    assert_eq!(Print {}.name(), "Print");
    assert_eq!(Print {}.return_type().typespec_id, cs::env::NULL_TYPESPEC_ID);
    let args = Print {}.takes_args();
    assert_eq!(args.len(), 1);
    assert_eq!(args[0].short_name, "String to print");
    assert_eq!(args[0].arg_type.typespec_id, cs::env::STRING_TYPESPEC_ID);

    assert_eq!(Capitalize {}.name(), "Capitalize");
    assert_eq!(Capitalize {}.return_type().typespec_id, cs::env::STRING_TYPESPEC_ID);
    assert_eq!(HTTPGet {}.name(), "HTTP Get");
    assert_eq!(HTTPGet {}.takes_args()[0].short_name, "URL");
}

#[test]
fn a_fresh_script_ends_in_a_placeholder() {
    let mut id_gen = IdGen::new(500);
    let script = Script::new(&mut id_gen);
    assert_eq!(script.id(), 500);
    match script.code() {
        CodeNode::Block(b) => {
            assert_eq!(b.id, 500);
            assert_eq!(b.expressions.len(), 1);
            assert!(matches!(b.expressions[0], CodeNode::Placeholder(_)));
        }
        other => panic!("expected a block, got {:?}", other),
    }
}

#[test]
fn editing_mode_freezes_every_key_but_tab_and_escape() {
    let mut controller = Controller::new();
    controller.load_code(&sample_tree());
    controller.set_selected_node_id(Some(2));
    controller.handle_keypress_in_code_window(Keypress::new(Key::O, false, false));
    assert!(controller.insertion_point().is_some());

    // mid-edit, deletion and navigation do nothing
    controller.handle_keypress_in_code_window(Keypress::new(Key::D, false, false));
    controller.handle_keypress_in_code_window(Keypress::new(Key::W, false, false));
    assert!(controller.insertion_point().is_some());
    match controller.code_genie() {
        Some(genie) => match genie.root() {
            CodeNode::Block(b) => assert_eq!(b.expressions.len(), 1),
            other => panic!("expected a block, got {:?}", other),
        },
        None => panic!("expected loaded code"),
    }

    // Tab steps the menu's selection
    controller.handle_keypress_in_code_window(Keypress::new(Key::Tab, false, false));
    match &controller.editor {
        Some(e) => match &e.insert_code_menu {
            Some(menu) => assert_eq!(menu.selected_option_index, 1),
            None => panic!("expected an open menu"),
        },
        None => panic!("expected loaded code"),
    }
}
