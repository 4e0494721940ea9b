//! The builtin function descriptors the editor ships with.  Their
//! behaviour when run belongs to the excluded execution environment; the
//! editing core only needs their names, argument lists and return types.

use vstd::prelude::*;

use crate::env::{null_type, string_type, Function};
use crate::lang::{ArgumentDefinition, Type, ID};

verus! {

pub const PRINT_FUNC_ID: ID = 101;
pub const PRINT_ARG_ID: ID = 102;
pub const CAPITALIZE_FUNC_ID: ID = 103;
pub const CAPITALIZE_ARG_ID: ID = 104;
pub const HTTP_GET_FUNC_ID: ID = 105;
pub const HTTP_GET_ARG_ID: ID = 106;

/// Writes a string to the console; returns nothing.
#[derive(Clone, Copy)]
pub struct Print {}

impl Function for Print {
    fn id(&self) -> ID {
        PRINT_FUNC_ID
    }

    fn name(&self) -> String {
        "Print".to_owned()
    }

    fn return_type(&self) -> Type {
        null_type()
    }

    fn takes_args(&self) -> Vec<ArgumentDefinition> {
        let mut args: Vec<ArgumentDefinition> = Vec::new();
        args.push(ArgumentDefinition {
            id: PRINT_ARG_ID,
            arg_type: string_type(),
            short_name: "String to print".to_owned(),
        });
        args
    }
}

/// Uppercases a string.
#[derive(Clone, Copy)]
pub struct Capitalize {}

impl Function for Capitalize {
    fn id(&self) -> ID {
        CAPITALIZE_FUNC_ID
    }

    fn name(&self) -> String {
        "Capitalize".to_owned()
    }

    fn return_type(&self) -> Type {
        string_type()
    }

    fn takes_args(&self) -> Vec<ArgumentDefinition> {
        let mut args: Vec<ArgumentDefinition> = Vec::new();
        args.push(ArgumentDefinition {
            id: CAPITALIZE_ARG_ID,
            arg_type: string_type(),
            short_name: "String to capitalize".to_owned(),
        });
        args
    }
}

/// Fetches a URL and returns the response body.
#[derive(Clone, Copy)]
pub struct HTTPGet {}

impl Function for HTTPGet {
    fn id(&self) -> ID {
        HTTP_GET_FUNC_ID
    }

    fn name(&self) -> String {
        "HTTP Get".to_owned()
    }

    fn return_type(&self) -> Type {
        string_type()
    }

    fn takes_args(&self) -> Vec<ArgumentDefinition> {
        let mut args: Vec<ArgumentDefinition> = Vec::new();
        args.push(ArgumentDefinition {
            id: HTTP_GET_ARG_ID,
            arg_type: string_type(),
            short_name: "URL".to_owned(),
        });
        args
    }
}

} // verus!
