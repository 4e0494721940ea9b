//! The insert-code menu: which candidates each generator offers, how the
//! search text and the target type filter them, and how the selection
//! index wraps.

use cs::builtin_funcs::{Capitalize, Print, CAPITALIZE_FUNC_ID};
use cs::code_generation::IdGen;
use cs::code_genie::CodeGenie;
use cs::env::{string_type, ExecutionEnvironment};
use cs::insert_code_menu::{
    contains_chars, insert_function_options, insert_literal_options, insert_variable_options,
    CodeSearchParams, InsertCodeMenu,
};
use cs::code_editor::InsertionPoint;
use cs::lang::{Assignment, Block, CodeNode, Placeholder, StringLiteral};

fn sample_genie() -> CodeGenie {
    CodeGenie::new(CodeNode::Block(Block {
        id: 1,
        expressions: vec![
            CodeNode::Assignment(Assignment {
                id: 2,
                name: "greeting".to_string(),
                expression: Box::new(CodeNode::StringLiteral(StringLiteral {
                    id: 3,
                    value: "hi".to_string(),
                })),
            }),
            CodeNode::Placeholder(Placeholder {
                id: 4,
                description: "open".to_string(),
                typ: string_type(),
            }),
        ],
    }))
}

#[test]
fn substring_search_is_exact() {
    assert!(contains_chars("capitalize", "cap"));
    assert!(contains_chars("capitalize", "ital"));
    assert!(contains_chars("capitalize", ""));
    assert!(!contains_chars("capitalize", "xyz"));
    assert!(!contains_chars("cap", "capitalize"));
}

#[test]
fn search_text_is_trimmed_and_lowercased_before_matching() {
    let mut env = ExecutionEnvironment::new();
    env.add_function(Print {});
    env.add_function(Capitalize {});
    let mut id_gen = IdGen::new(100);

    // mixed case and surrounding spaces must still find the function; if
    // folding or trimming handed its input back unchanged, no candidate
    // would match
    let params = CodeSearchParams {
        return_type: None,
        input_str: "  CAPital  ".to_string(),
    };
    let options = insert_function_options(&params, &env, &mut id_gen);
    assert_eq!(options.len(), 1);
    assert_eq!(options[0].label, "Capitalize");
}

#[test]
fn function_candidates_match_the_target_type_exactly() {
    let mut env = ExecutionEnvironment::new();
    env.add_function(Print {});
    env.add_function(Capitalize {});
    let mut id_gen = IdGen::new(100);

    // with a string target, Print (returning null) is filtered out
    let params = CodeSearchParams::with_type(&string_type());
    let options = insert_function_options(&params, &env, &mut id_gen);
    assert_eq!(options.len(), 1);
    assert_eq!(options[0].label, "Capitalize");
    match &options[0].new_node {
        CodeNode::FunctionCall(fc) => match fc.function_reference.as_ref() {
            CodeNode::FunctionReference(fr) => assert_eq!(fr.function_id, CAPITALIZE_FUNC_ID),
            other => panic!("expected a function reference, got {:?}", other),
        },
        other => panic!("expected a function call, got {:?}", other),
    }

    // without a target both are offered
    let params = CodeSearchParams::empty();
    let options = insert_function_options(&params, &env, &mut id_gen);
    assert_eq!(options.len(), 2);
}

#[test]
fn variable_candidates_come_from_the_scope_and_match_the_type() {
    let env = ExecutionEnvironment::new();
    let genie = sample_genie();
    let mut id_gen = IdGen::new(100);

    let params = CodeSearchParams::with_type(&string_type());
    let options = insert_variable_options(&params, 4, &genie, &env, &mut id_gen);
    assert_eq!(options.len(), 1);
    assert_eq!(options[0].label, "greeting");
    match &options[0].new_node {
        CodeNode::VariableReference(vr) => assert_eq!(vr.assignment_id, 2),
        other => panic!("expected a variable reference, got {:?}", other),
    }

    // a null target filters the string-typed variable out
    let params = CodeSearchParams::with_type(&cs::env::null_type());
    let options = insert_variable_options(&params, 4, &genie, &env, &mut id_gen);
    assert_eq!(options.len(), 0);
}

#[test]
fn literal_candidates_fit_the_target_and_always_include_a_placeholder() {
    let env = ExecutionEnvironment::new();
    let mut id_gen = IdGen::new(100);

    let params = CodeSearchParams {
        return_type: Some(string_type()),
        input_str: "hello".to_string(),
    };
    let options = insert_literal_options(&params, &env, &mut id_gen);
    assert_eq!(options.len(), 2);
    match &options[0].new_node {
        CodeNode::StringLiteral(s) => assert_eq!(s.value, "hello"),
        other => panic!("expected a string literal, got {:?}", other),
    }
    match &options[1].new_node {
        CodeNode::Placeholder(p) => {
            assert_eq!(p.typ.typespec_id, cs::env::STRING_TYPESPEC_ID);
            assert_eq!(p.description, "hello");
        }
        other => panic!("expected a placeholder, got {:?}", other),
    }

    let params = CodeSearchParams::with_type(&cs::env::null_type());
    let options = insert_literal_options(&params, &env, &mut id_gen);
    assert_eq!(options.len(), 2);
    assert!(matches!(options[0].new_node, CodeNode::NullLiteral(_)));

    // with no target type there are no literal candidates
    let params = CodeSearchParams::empty();
    let options = insert_literal_options(&params, &env, &mut id_gen);
    assert_eq!(options.len(), 0);
}

#[test]
fn menu_for_a_hole_runs_all_three_generators_and_marks_a_selection() {
    let mut env = ExecutionEnvironment::new();
    env.add_function(Capitalize {});
    let genie = sample_genie();
    let mut id_gen = IdGen::new(100);

    let menu = InsertCodeMenu::for_insertion_point(InsertionPoint::Argument(4), &genie, &env)
        .unwrap();
    let options = menu.list_options(&genie, &env, &mut id_gen);
    // the variable, the matching function and two literal candidates
    assert_eq!(options.len(), 4);
    assert_eq!(options.iter().filter(|o| o.is_selected).count(), 1);
    assert!(options[0].is_selected);
}

#[test]
fn selection_wraps_modulo_the_option_count_and_search_resets_it() {
    let env = ExecutionEnvironment::new();
    let genie = sample_genie();
    let mut menu =
        InsertCodeMenu::for_insertion_point(InsertionPoint::After(2), &genie, &env).unwrap();
    menu.select_next();
    menu.select_next();
    menu.select_next();
    assert_eq!(menu.selected_index(2), 1);
    assert_eq!(menu.selected_index(3), 0);
    // a changed search string resets the selection
    menu.set_search_str("pri");
    assert_eq!(menu.selected_index(2), 0);
    assert_eq!(menu.search_str(), "pri");
    // setting the same text keeps it
    menu.select_next();
    menu.set_search_str("pri");
    assert_eq!(menu.selected_index(2), 1);
}
