//! Core engine of a structural ("projectional") code editor.
//!
//! Programs are edited not as text but as a typed abstract syntax tree:
//! the user navigates, inserts, replaces and deletes nodes directly.  This
//! crate holds the tree model and everything that manipulates it:
//!
//! - [`lang`]: the `CodeNode` variant family, node identity, traversal,
//!   lookup and whole-tree replacement;
//! - [`env`]: the function / type catalog the editor consults;
//! - [`code_genie`]: read-only queries over a tree (find by id, parent
//!   lookup, enclosing block statement, preceding assignments, type
//!   inference with partial generic resolution);
//! - [`locals`]: scope analysis — which variables are visible at a point;
//! - [`navigation`]: cursor movement over the tree's navigatable nodes;
//! - [`mutation`]: structural edits producing a new tree root, and the
//!   post-edit cursor placement;
//! - [`undo`]: the cursor-aware snapshot history;
//! - [`insert_code_menu`]: the context-sensitive code-completion menu;
//! - [`code_editor`] and [`editor`]: the editor sessions that tie the
//!   commands together.
//!
//! Every tree edit returns a fresh root; the sessions swap it in.  The
//! contracts state, over the spec-level model of the tree, exactly which
//! tree an edit produces and where the cursor lands.

pub mod builtin_funcs;
pub mod code_editor;
pub mod code_generation;
pub mod code_genie;
pub mod editor;
pub mod env;
pub mod insert_code_menu;
pub mod lang;
pub mod locals;
pub mod mutation;
pub mod navigation;
pub mod scripts;
pub mod undo;
