//! The editor session over one tree: current selection, editing mode,
//! the insert-code menu, the mutation engine and the undo history, driven
//! by discrete commands.

use vstd::prelude::*;

use crate::code_genie::{enclosing_stmt, guess_type_view, stmt_position, CodeGenie};
use crate::env::{EnvView, ExecutionEnvironment};
use crate::insert_code_menu::{InsertCodeMenu, OptionGeneratorKind};
use crate::lang::{find_view, parent_view, replace_view, CodeNode, NodeView, ID};
use crate::mutation::{
    delete_code_view, insert_code_view, post_insertion_cursor, post_insertion_cursor_view,
    MutationMaster, PostInsertionAction,
};
use crate::navigation::{back_view, forward_view, vertical_view, Navigation};
use crate::undo::{hist_wf, record_spec, redo_spec, undo_spec, CellView, HistView};

verus! {

/// Where an edit applies: a typed location descriptor.  Created when the
/// user asks for an edit, consumed exactly once by the mutation engine,
/// and discarded when editing ends.
#[derive(Clone, Copy, Debug, PartialEq)]
pub enum InsertionPoint {
    /// Prepend a statement to the block with this id.
    BeginningOfBlock(ID),
    /// Insert a statement before the statement with this id.
    Before(ID),
    /// Insert a statement after the statement with this id.
    After(ID),
    /// Fill the function-call hole with this id.
    Argument(ID),
    /// Fill the struct-literal hole with this id.
    StructLiteralField(ID),
    /// Edit the node with this id in place.
    Editing(ID),
    /// Insert an element into the list literal at the given position.
    ListLiteralElement { list_literal_id: ID, pos: usize },
}

/// The id the insertion point anchors on: the statement to insert
/// relative to, or the hole or list to fill.
pub open spec fn ip_node_id(ip: InsertionPoint) -> ID {
    match ip {
        InsertionPoint::BeginningOfBlock(id) => id,
        InsertionPoint::Before(id) => id,
        InsertionPoint::After(id) => id,
        InsertionPoint::Argument(id) => id,
        InsertionPoint::StructLiteralField(id) => id,
        InsertionPoint::Editing(id) => id,
        InsertionPoint::ListLiteralElement { list_literal_id, .. } => list_literal_id,
    }
}

/// The node to select when the menu opens on this insertion point, if
/// any.
pub open spec fn ip_selection(ip: InsertionPoint) -> Option<ID> {
    match ip {
        InsertionPoint::BeginningOfBlock(_) => None,
        InsertionPoint::Before(_) => None,
        InsertionPoint::After(_) => None,
        InsertionPoint::Argument(id) => Some(id),
        InsertionPoint::StructLiteralField(id) => Some(id),
        InsertionPoint::Editing(id) => Some(id),
        InsertionPoint::ListLiteralElement { list_literal_id, .. } => Some(list_literal_id),
    }
}

impl InsertionPoint {
    /// The id the insertion point anchors on.
    pub fn node_id(&self) -> (r: ID)
        ensures
            r == ip_node_id(*self),
    {
        match *self {
            InsertionPoint::BeginningOfBlock(id) => id,
            InsertionPoint::Before(id) => id,
            InsertionPoint::After(id) => id,
            InsertionPoint::Argument(id) => id,
            InsertionPoint::StructLiteralField(id) => id,
            InsertionPoint::Editing(id) => id,
            InsertionPoint::ListLiteralElement { list_literal_id, .. } => list_literal_id,
        }
    }

    /// The node to select when the menu opens on this insertion point.
    pub fn node_id_to_select_when_marking_as_editing(&self) -> (r: Option<ID>)
        ensures
            r == ip_selection(*self),
    {
        match *self {
            InsertionPoint::BeginningOfBlock(_) => None,
            InsertionPoint::Before(_) => None,
            InsertionPoint::After(_) => None,
            InsertionPoint::Argument(id) => Some(id),
            InsertionPoint::StructLiteralField(id) => Some(id),
            InsertionPoint::Editing(id) => Some(id),
            InsertionPoint::ListLiteralElement { list_literal_id, .. } =>
                Some(list_literal_id),
        }
    }

    /// Whether the insertion point creates a fresh block statement rather
    /// than filling a hole.
    pub fn is_block_expression(&self) -> (r: bool)
        ensures
            r == (*self matches InsertionPoint::BeginningOfBlock(_)
                || *self matches InsertionPoint::Before(_)
                || *self matches InsertionPoint::After(_)),
    {
        match *self {
            InsertionPoint::BeginningOfBlock(_)
            | InsertionPoint::Before(_)
            | InsertionPoint::After(_) => true,
            InsertionPoint::Argument(_)
            | InsertionPoint::StructLiteralField(_)
            | InsertionPoint::Editing(_)
            | InsertionPoint::ListLiteralElement { .. } => false,
        }
    }
}

/// Where a tree being edited lives.
#[derive(Clone, Copy, Debug)]
pub enum CodeLocation {
    Function(ID),
    Script(ID),
    Test(ID),
}

/// The editor session over one tree: the genie that holds the tree, the
/// editing flag, the current selection, the open insert menu and the
/// mutation engine with its undo history.
pub struct CodeEditor {
    pub code_genie: CodeGenie,
    pub editing: bool,
    pub selected_node_id: Option<ID>,
    pub insert_code_menu: Option<crate::insert_code_menu::InsertCodeMenu>,
    pub mutation_master: MutationMaster,
    pub location: CodeLocation,
}

/// The session's structural invariant: the undo history's index stays in
/// its log.
pub open spec fn editor_wf(e: &CodeEditor) -> bool {
    hist_wf(e.mutation_master@)
}

/// What a pure selection move leaves behind: only the selection may have
/// changed, and only when the move found a target.
pub open spec fn select_effect(o: &CodeEditor, f: &CodeEditor, r: Option<ID>) -> bool {
    &&& f.code_genie@ == o.code_genie@
    &&& f.editing == o.editing
    &&& f.selected_node_id == (if r is Some { r } else { o.selected_node_id })
    &&& f.insert_code_menu == o.insert_code_menu
    &&& f.mutation_master@ == o.mutation_master@
}

/// What undo leaves behind: the restored snapshot spliced in, the history
/// stepped back; nothing at the lower boundary.
pub open spec fn undo_effect(o: &CodeEditor, f: &CodeEditor) -> bool {
    &&& ({
        let (h2, out) = undo_spec(o.mutation_master@, CellView {
            root: o.code_genie@,
            cursor_position: o.selected_node_id,
        });
        f.mutation_master@ == h2 && match out {
            Some(cell) => f.code_genie@ == replace_view(o.code_genie@, cell.root)
                && f.selected_node_id == cell.cursor_position,
            None => f.code_genie@ == o.code_genie@
                && f.selected_node_id == o.selected_node_id,
        }
    })
    &&& f.editing == o.editing
    &&& f.insert_code_menu == o.insert_code_menu
}

/// What redo leaves behind, symmetrically.
pub open spec fn redo_effect(o: &CodeEditor, f: &CodeEditor) -> bool {
    &&& ({
        let (h2, out) = redo_spec(o.mutation_master@);
        f.mutation_master@ == h2 && match out {
            Some(cell) => f.code_genie@ == replace_view(o.code_genie@, cell.root)
                && f.selected_node_id == cell.cursor_position,
            None => f.code_genie@ == o.code_genie@
                && f.selected_node_id == o.selected_node_id,
        }
    })
    &&& f.editing == o.editing
    &&& f.insert_code_menu == o.insert_code_menu
}

/// What cancel leaves behind: editing off; if a menu was open, the edit
/// session is rolled back by one undo and the menu closed.
pub open spec fn cancel_effect(o: &CodeEditor, f: &CodeEditor) -> bool {
    if o.insert_code_menu is None {
        &&& f.code_genie@ == o.code_genie@
        &&& f.selected_node_id == o.selected_node_id
        &&& f.insert_code_menu == o.insert_code_menu
        &&& f.mutation_master@ == o.mutation_master@
        &&& !f.editing
    } else {
        &&& ({
            let (h2, out) = undo_spec(o.mutation_master@, CellView {
                root: o.code_genie@,
                cursor_position: o.selected_node_id,
            });
            f.mutation_master@ == h2 && match out {
                Some(cell) => f.code_genie@ == replace_view(o.code_genie@, cell.root)
                    && f.selected_node_id == cell.cursor_position,
                None => f.code_genie@ == o.code_genie@
                    && f.selected_node_id == o.selected_node_id,
            }
        })
        &&& f.insert_code_menu is None
        &&& !f.editing
    }
}

/// What deleting the selection leaves behind: the pre-state recorded,
/// the deletion of the selected id applied, the cursor moved as the
/// deletion decides; nothing when nothing is selected.
pub open spec fn delete_effect(o: &CodeEditor, f: &CodeEditor) -> bool {
    match o.selected_node_id {
        None => f.code_genie@ == o.code_genie@ && f.selected_node_id == o.selected_node_id
            && f.mutation_master@ == o.mutation_master@ && f.editing == o.editing
            && f.insert_code_menu == o.insert_code_menu,
        Some(id) => {
            let (new_root, new_cursor) = delete_code_view(o.code_genie@, id,
                o.selected_node_id);
            &&& f.code_genie@ == replace_view(o.code_genie@, new_root)
            &&& f.selected_node_id == new_cursor
            &&& f.mutation_master@ == record_spec(o.mutation_master@, CellView {
                root: o.code_genie@,
                cursor_position: o.selected_node_id,
            })
            &&& f.editing == o.editing
            &&& f.insert_code_menu == o.insert_code_menu
        },
    }
}

/// What opening an edit session at an insertion point leaves behind: the
/// pre-state recorded, the menu opened (where the point admits one, with
/// the generators and target type the point calls for), the point's own
/// selection taken, editing on.
pub open spec fn mark_editing_effect(
    o: &CodeEditor,
    f: &CodeEditor,
    ip: InsertionPoint,
    env: EnvView,
) -> bool {
    &&& f.code_genie@ == o.code_genie@
    &&& f.mutation_master@ == record_spec(o.mutation_master@, CellView {
        root: o.code_genie@,
        cursor_position: o.selected_node_id,
    })
    &&& f.selected_node_id == ip_selection(ip)
    &&& f.editing
    &&& ((ip matches InsertionPoint::BeginningOfBlock(_)
        || ip matches InsertionPoint::Before(_)
        || ip matches InsertionPoint::After(_)) ==> f.insert_code_menu is Some)
    &&& (((ip matches InsertionPoint::Argument(_)
        || ip matches InsertionPoint::StructLiteralField(_)
        || ip matches InsertionPoint::ListLiteralElement { .. })
        && find_view(o.code_genie@, ip_node_id(ip)) is Some)
        ==> f.insert_code_menu is Some)
    &&& (ip matches InsertionPoint::Editing(_) ==> f.insert_code_menu is None)
    &&& (f.insert_code_menu matches Some(menu) ==> {
        &&& menu.insertion_point == ip
        &&& menu.selected_index_view() == 0
        &&& menu.search_params@.input_str == Seq::<char>::empty()
        &&& ((ip matches InsertionPoint::BeginningOfBlock(_)
            || ip matches InsertionPoint::Before(_)
            || ip matches InsertionPoint::After(_))
            ==> (menu.option_generators@
                == seq![OptionGeneratorKind::InsertFunction]
                && menu.search_params@.return_type is None))
        &&& ((ip matches InsertionPoint::Argument(_)
            || ip matches InsertionPoint::StructLiteralField(_)
            || ip matches InsertionPoint::ListLiteralElement { .. })
            ==> (menu.option_generators@ == seq![
                OptionGeneratorKind::InsertVariableReference,
                OptionGeneratorKind::InsertFunction,
                OptionGeneratorKind::InsertLiteral,
            ] && menu.search_params@.return_type == guess_type_view(o.code_genie@,
                find_view(o.code_genie@, ip_node_id(ip)).unwrap(), env,
                usize::MAX as nat)))
    })
}

/// What stepping the menu selection leaves behind: the open menu's
/// selection advanced by one (wrapping at the counter's end), everything
/// else untouched; nothing without a menu.
pub open spec fn tab_effect(o: &CodeEditor, f: &CodeEditor) -> bool {
    match o.insert_code_menu {
        Some(menu) => *f == (CodeEditor {
            insert_code_menu: Some(InsertCodeMenu {
                selected_option_index: if menu.selected_option_index < usize::MAX {
                    (menu.selected_option_index + 1) as usize
                } else {
                    0
                },
                ..menu
            }),
            ..*o
        }),
        None => *f == *o,
    }
}

/// What opening an insertion line leaves behind: an edit session at the
/// beginning of the root block when nothing is selected, before or after
/// the enclosing statement otherwise, and a closed menu when the
/// selection sits outside any block.
pub open spec fn open_insertion_line_effect(
    o: &CodeEditor,
    f: &CodeEditor,
    at_next: bool,
    env: EnvView,
) -> bool {
    &&& (selection_missing(o) ==> mark_editing_effect(o, f,
        InsertionPoint::BeginningOfBlock(o.code_genie@.nid()), env))
    &&& (!selection_missing(o) ==> (enclosing_stmt(o.code_genie@,
        o.selected_node_id.unwrap()) matches Some(sid)
        ==> mark_editing_effect(o, f, if at_next {
            InsertionPoint::After(sid)
        } else {
            InsertionPoint::Before(sid)
        }, env)))
    &&& (!selection_missing(o) ==> (enclosing_stmt(o.code_genie@,
        o.selected_node_id.unwrap()) is None
        ==> *f == (CodeEditor { insert_code_menu: None, editing: false, ..*o })))
}

/// What entering replace-edit leaves behind: the hole around the
/// selection reopened where there is one, nothing otherwise.
pub open spec fn replace_edit_effect(o: &CodeEditor, f: &CodeEditor, env: EnvView) -> bool {
    &&& (o.selected_node_id is None ==> *f == *o)
    &&& (o.selected_node_id matches Some(id) ==> match parent_view(o.code_genie@, id) {
        Some(p) => if p is Argument {
            mark_editing_effect(o, f, InsertionPoint::Argument(p.nid()), env)
        } else if p is StructLiteralField {
            mark_editing_effect(o, f, InsertionPoint::StructLiteralField(p.nid()), env)
        } else {
            *f == *o
        },
        None => *f == *o,
    })
}

/// What appending leaves behind: an edit session at the front of the
/// selected list literal, or after the selected element of one; nothing
/// anywhere else.
pub open spec fn append_effect(o: &CodeEditor, f: &CodeEditor, env: EnvView) -> bool {
    &&& (o.selected_node_id is None ==> *f == *o)
    &&& (o.selected_node_id matches Some(id) ==> match find_view(o.code_genie@, id) {
        None => *f == *o,
        Some(n) => if n is ListLiteral {
            mark_editing_effect(o, f, InsertionPoint::ListLiteralElement {
                list_literal_id: n.nid(),
                pos: 0,
            }, env)
        } else {
            match parent_view(o.code_genie@, id) {
                Some(p) => if p is ListLiteral {
                    match stmt_position(p->ListLiteral_elements, id) {
                        Some(pos) => if pos + 1 <= usize::MAX {
                            mark_editing_effect(o, f, InsertionPoint::ListLiteralElement {
                                list_literal_id: p.nid(),
                                pos: (pos + 1) as usize,
                            }, env)
                        } else {
                            *f == *o
                        },
                        None => *f == *o,
                    }
                } else {
                    *f == *o
                },
                None => *f == *o,
            }
        },
    })
}

/// The whole command table: what one keypress leaves behind.  Escape
/// always cancels; while editing, every other key but Tab changes
/// nothing; otherwise each key dispatches to its command's effect, and
/// unbound keys change nothing.
pub open spec fn keypress_effect(
    o: &CodeEditor,
    f: &CodeEditor,
    kp: crate::editor::Keypress,
    env: EnvView,
) -> bool {
    if kp.key == crate::editor::Key::Escape {
        cancel_effect(o, f)
    } else if o.editing {
        if kp.key == crate::editor::Key::Tab {
            tab_effect(o, f)
        } else {
            *f == *o
        }
    } else {
        match kp.key {
            crate::editor::Key::K | crate::editor::Key::UpArrow => select_effect(o, f,
                match o.selected_node_id {
                    Some(id) => crate::navigation::vertical_view(o.code_genie@, id, false),
                    None => None,
                }),
            crate::editor::Key::J | crate::editor::Key::DownArrow => select_effect(o, f,
                match o.selected_node_id {
                    Some(id) => crate::navigation::vertical_view(o.code_genie@, id, true),
                    None => crate::navigation::forward_view(o.code_genie@, None),
                }),
            crate::editor::Key::B | crate::editor::Key::LeftArrow
            | crate::editor::Key::H => select_effect(o, f,
                crate::navigation::back_view(o.code_genie@, o.selected_node_id)),
            crate::editor::Key::W | crate::editor::Key::RightArrow
            | crate::editor::Key::L => select_effect(o, f,
                crate::navigation::forward_view(o.code_genie@, o.selected_node_id)),
            crate::editor::Key::C => match o.selected_node_id {
                Some(id) => mark_editing_effect(o, f, InsertionPoint::Editing(id), env),
                None => *f == *o,
            },
            crate::editor::Key::D => delete_effect(o, f),
            crate::editor::Key::A => append_effect(o, f, env),
            crate::editor::Key::R => if kp.ctrl && kp.shift {
                *f == *o
            } else if kp.ctrl {
                redo_effect(o, f)
            } else {
                replace_edit_effect(o, f, env)
            },
            crate::editor::Key::O => open_insertion_line_effect(o, f, !kp.shift, env),
            crate::editor::Key::U => undo_effect(o, f),
            crate::editor::Key::V => if kp.shift {
                select_effect(o, f, match o.selected_node_id {
                    Some(id) => enclosing_stmt(o.code_genie@, id),
                    None => None,
                })
            } else {
                *f == *o
            },
            crate::editor::Key::Tab => tab_effect(o, f),
            _ => *f == *o,
        }
    }
}

/// What inserting a node at an insertion point leaves behind: the new
/// root spliced in and the cursor placed by the post-insertion rules; a
/// mismatched point changes nothing.
pub open spec fn insert_effect(
    o: &CodeEditor,
    f: &CodeEditor,
    code: NodeView,
    ip: InsertionPoint,
) -> bool {
    match insert_code_view(o.code_genie@, ip, code) {
        Some(new_root) => {
            &&& f.code_genie@ == replace_view(o.code_genie@, new_root)
            &&& match post_insertion_cursor_view(f.code_genie@, code) {
                PostInsertionAction::SelectNode(id) => f.selected_node_id == Some(id)
                    && f.mutation_master@ == o.mutation_master@,
                PostInsertionAction::MarkAsEditing(ip2) =>
                    f.selected_node_id == ip_selection(ip2) && f.editing,
            }
        },
        None => *f == *o,
    }
}

/// Whether the selection points at no present node.
pub open spec fn selection_missing(o: &CodeEditor) -> bool {
    match o.selected_node_id {
        Some(id) => find_view(o.code_genie@, id) is None,
        None => true,
    }
}

impl CodeEditor {
    /// A session over the given tree.
    pub fn new(code: CodeNode, location: CodeLocation) -> (r: CodeEditor)
        ensures
            r.code_genie@ == code@,
            !r.editing,
            r.selected_node_id is None,
            r.insert_code_menu is None,
            editor_wf(&r),
            r.mutation_master@.log == Seq::<CellView>::empty(),
            r.mutation_master@.index == 0,
            r.location == location,
    {
        CodeEditor {
            code_genie: CodeGenie::new(code),
            editing: false,
            selected_node_id: None,
            insert_code_menu: None,
            mutation_master: MutationMaster::new(),
            location,
        }
    }

    /// The root's id.
    pub fn id(&self) -> (r: ID)
        ensures
            r == self.code_genie@.nid(),
    {
        self.get_code().id()
    }

    /// The held tree.
    pub fn get_code(&self) -> (r: &CodeNode)
        ensures
            r@ == self.code_genie@,
    {
        self.code_genie.root()
    }

    /// The current selection.
    pub fn get_selected_node_id(&self) -> (r: &Option<ID>)
        ensures
            r == self.selected_node_id,
    {
        &self.selected_node_id
    }

    fn set_selected_node_id(&mut self, code_node_id: Option<ID>)
        ensures
            *final(self) == (CodeEditor { selected_node_id: code_node_id, ..*old(self) }),
    {
        self.selected_node_id = code_node_id;
    }

    /// The selected node itself, if the selection points at one.
    pub fn get_selected_node(&self) -> (r: Option<&CodeNode>)
        ensures
            match r {
                Some(n) => self.selected_node_id matches Some(id)
                    && find_view(self.code_genie@, id) == Some(n@),
                None => match self.selected_node_id {
                    Some(id) => find_view(self.code_genie@, id) is None,
                    None => true,
                },
            },
    {
        match self.selected_node_id {
            Some(id) => self.code_genie.find_node(id),
            None => None,
        }
    }

    /// Whether no node of the tree is selected.
    pub fn no_node_selected(&self) -> (r: bool)
        ensures
            r == (match self.selected_node_id {
                Some(id) => find_view(self.code_genie@, id) is None,
                None => true,
            }),
    {
        self.get_selected_node().is_none()
    }

    /// Splices a changed subtree into the held tree.
    pub fn replace_code(&mut self, code: CodeNode)
        ensures
            final(self).code_genie@ == replace_view(old(self).code_genie@, code@),
            final(self).editing == old(self).editing,
            final(self).selected_node_id == old(self).selected_node_id,
            final(self).insert_code_menu == old(self).insert_code_menu,
            final(self).mutation_master@ == old(self).mutation_master@,
    {
        self.code_genie.replace(code);
    }

    /// The statement of the enclosing block the selection sits in.
    pub fn currently_focused_block_expression(&self) -> (r: Option<ID>)
        ensures
            r == match self.selected_node_id {
                Some(id) => enclosing_stmt(self.code_genie@, id),
                None => None,
            },
    {
        match self.selected_node_id {
            Some(id) => self.code_genie.find_expression_inside_block_that_contains(id),
            None => None,
        }
    }

    /// The insertion point of the open menu.
    pub fn insertion_point(&self) -> (r: Option<InsertionPoint>)
        ensures
            r == match self.insert_code_menu {
                Some(menu) => Some(menu.insertion_point),
                None => None::<InsertionPoint>,
            },
    {
        match &self.insert_code_menu {
            None => None,
            Some(menu) => Some(menu.insertion_point),
        }
    }

    /// Closes the insert menu and leaves editing mode.
    pub fn hide_insert_code_menu(&mut self)
        ensures
            *final(self) == (CodeEditor {
                insert_code_menu: None,
                editing: false,
                ..*old(self)
            }),
    {
        self.insert_code_menu = None;
        self.editing = false;
    }

    /// Leaves editing mode without touching the menu.
    pub fn mark_as_not_editing(&mut self)
        ensures
            *final(self) == (CodeEditor { editing: false, ..*old(self) }),
    {
        self.editing = false;
    }

    /// Records the current state in the undo history.
    pub fn save_current_state_to_undo_history(&mut self)
        requires
            editor_wf(old(self)),
        ensures
            editor_wf(final(self)),
            final(self).mutation_master@ == record_spec(old(self).mutation_master@,
                CellView {
                    root: old(self).code_genie@,
                    cursor_position: old(self).selected_node_id,
                }),
            final(self).code_genie@ == old(self).code_genie@,
            final(self).editing == old(self).editing,
            final(self).selected_node_id == old(self).selected_node_id,
            final(self).insert_code_menu == old(self).insert_code_menu,
    {
        let root = self.code_genie.root().duplicate();
        self.mutation_master.log_new_mutation(&root, self.selected_node_id);
    }

    /// Steps the session back one snapshot.
    pub fn undo(&mut self)
        requires
            editor_wf(old(self)),
        ensures
            editor_wf(final(self)),
            undo_effect(old(self), final(self)),
    {
        let current = self.code_genie.root().duplicate();
        match self.mutation_master.undo(&current, self.selected_node_id) {
            Some(cell) => {
                let cursor = cell.cursor_position;
                self.replace_code(cell.root);
                self.set_selected_node_id(cursor);
            },
            None => {},
        }
    }

    /// Steps the session forward one snapshot.
    pub fn redo(&mut self)
        requires
            editor_wf(old(self)),
        ensures
            editor_wf(final(self)),
            redo_effect(old(self), final(self)),
    {
        let current = self.code_genie.root().duplicate();
        match self.mutation_master.redo(&current, self.selected_node_id) {
            Some(cell) => {
                let cursor = cell.cursor_position;
                self.replace_code(cell.root);
                self.set_selected_node_id(cursor);
            },
            None => {},
        }
    }

    /// Cancels the edit in progress: rolls back to the snapshot the edit
    /// session opened with and closes the menu.
    pub fn handle_cancel(&mut self)
        requires
            editor_wf(old(self)),
        ensures
            editor_wf(final(self)),
            cancel_effect(old(self), final(self)),
    {
        self.editing = false;
        if self.insert_code_menu.is_none() {
            return;
        }
        self.undo();
        self.hide_insert_code_menu();
    }

    /// Opens an edit session at the insertion point: records the current
    /// state, opens the menu where the point admits one, and takes the
    /// point's own selection.
    pub fn mark_as_editing(&mut self, insertion_point: InsertionPoint,
        env: &ExecutionEnvironment)
        requires
            editor_wf(old(self)),
        ensures
            editor_wf(final(self)),
            mark_editing_effect(old(self), final(self), insertion_point, env@),
    {
        let menu = crate::insert_code_menu::InsertCodeMenu::for_insertion_point(
            insertion_point, &self.code_genie, env);
        self.insert_code_menu = menu;
        self.save_current_state_to_undo_history();
        self.selected_node_id = insertion_point.node_id_to_select_when_marking_as_editing();
        self.editing = true;
    }

    /// Moves the selection up one line, to the same offset.
    pub fn try_select_up_one_node(&mut self)
        ensures
            select_effect(old(self), final(self), match old(self).selected_node_id {
                Some(id) => vertical_view(old(self).code_genie@, id, false),
                None => None,
            }),
    {
        let navigation = Navigation::new(&self.code_genie);
        let r = navigation.navigate_up_from(self.selected_node_id);
        match r {
            Some(node_id) => {
                self.selected_node_id = Some(node_id);
            },
            None => {},
        }
    }

    /// Moves the selection down one line, to the same offset.
    pub fn try_select_down_one_node(&mut self)
        ensures
            select_effect(old(self), final(self), match old(self).selected_node_id {
                Some(id) => vertical_view(old(self).code_genie@, id, true),
                None => forward_view(old(self).code_genie@, None),
            }),
    {
        let navigation = Navigation::new(&self.code_genie);
        let r = navigation.navigate_down_from(self.selected_node_id);
        match r {
            Some(node_id) => {
                self.selected_node_id = Some(node_id);
            },
            None => {},
        }
    }

    /// Moves the selection back to the previous navigatable node.
    pub fn try_select_back_one_node(&mut self)
        ensures
            select_effect(old(self), final(self),
                back_view(old(self).code_genie@, old(self).selected_node_id)),
    {
        let navigation = Navigation::new(&self.code_genie);
        let r = navigation.navigate_back_from(self.selected_node_id);
        match r {
            Some(node_id) => {
                self.selected_node_id = Some(node_id);
            },
            None => {},
        }
    }

    /// Moves the selection forward to the next navigatable node.
    pub fn try_select_forward_one_node(&mut self)
        ensures
            select_effect(old(self), final(self),
                forward_view(old(self).code_genie@, old(self).selected_node_id)),
    {
        let navigation = Navigation::new(&self.code_genie);
        let r = navigation.navigate_forward_from(self.selected_node_id);
        match r {
            Some(node_id) => {
                self.selected_node_id = Some(node_id);
            },
            None => {},
        }
    }

    /// Selects the whole line: the enclosing block statement.
    pub fn select_current_line(&mut self)
        ensures
            select_effect(old(self), final(self), match old(self).selected_node_id {
                Some(id) => enclosing_stmt(old(self).code_genie@, id),
                None => None,
            }),
    {
        match self.selected_node_id {
            Some(id) => {
                match self.code_genie.find_expression_inside_block_that_contains(id) {
                    Some(code_id) => {
                        self.selected_node_id = Some(code_id);
                    },
                    None => {},
                }
            },
            None => {},
        }
    }

    /// Enters replace-edit for the selected node: when it fills a hole,
    /// reopens that hole's menu.
    pub fn try_enter_replace_edit_for_selected_node(&mut self,
        env: &ExecutionEnvironment)
        requires
            editor_wf(old(self)),
        ensures
            editor_wf(final(self)),
            replace_edit_effect(old(self), final(self), env@),
    {
        let id = match self.selected_node_id {
            Some(id) => id,
            None => {
                return;
            },
        };
        let ip = match self.code_genie.find_parent(id) {
            Some(parent) => match parent {
                CodeNode::Argument(a) => {
                    proof {
                        assert(parent@ == (NodeView::Argument {
                            id: a.id,
                            argument_definition_id: a.argument_definition_id,
                            expr: Box::new(crate::lang::node_view(*a.expr)),
                        }));
                    }
                    Some(InsertionPoint::Argument(a.id))
                },
                CodeNode::StructLiteralField(f) => {
                    proof {
                        assert(parent@ == (NodeView::StructLiteralField {
                            id: f.id,
                            struct_field_id: f.struct_field_id,
                            expr: Box::new(crate::lang::node_view(*f.expr)),
                        }));
                    }
                    Some(InsertionPoint::StructLiteralField(f.id))
                },
                _ => {
                    proof {
                        crate::locals::lemma_view_variant_kinds(*parent);
                    }
                    None
                },
            },
            None => None,
        };
        match ip {
            Some(ip) => {
                self.mark_as_editing(ip, env);
            },
            None => {},
        }
    }

    /// Appends into the selected list literal, or after the selected
    /// element of one.
    pub fn try_append_in_selected_node(&mut self, env: &ExecutionEnvironment)
        requires
            editor_wf(old(self)),
        ensures
            editor_wf(final(self)),
            append_effect(old(self), final(self), env@),
    {
        let id = match self.selected_node_id {
            Some(id) => id,
            None => {
                return;
            },
        };
        let mut ip: Option<InsertionPoint> = None;
        match self.code_genie.find_node(id) {
            Some(node) => match node {
                CodeNode::ListLiteral(l) => {
                    proof {
                        assert(node@ == (NodeView::ListLiteral {
                            id: l.id,
                            element_type: l.element_type@,
                            elements: crate::lang::node_views(l.elements@),
                        }));
                    }
                    ip = Some(InsertionPoint::ListLiteralElement {
                        list_literal_id: l.id,
                        pos: 0,
                    });
                },
                _ => {
                    proof {
                        crate::locals::lemma_view_variant_kinds(*node);
                    }
                },
            },
            None => {
                proof {
                    crate::lang::lemma_find_contains(self.code_genie@, id);
                    crate::lang::lemma_parent_absent(self.code_genie@, id);
                }
            },
        }
        if ip.is_none() {
            match self.code_genie.find_parent(id) {
                Some(parent) => match parent {
                    CodeNode::ListLiteral(l) => {
                        proof {
                            assert(parent@ == (NodeView::ListLiteral {
                                id: l.id,
                                element_type: l.element_type@,
                                elements: crate::lang::node_views(l.elements@),
                            }));
                        }
                        match crate::mutation::position_in_nodes(&l.elements, id) {
                            Some(pos) => {
                                if pos < usize::MAX {
                                    ip = Some(InsertionPoint::ListLiteralElement {
                                        list_literal_id: l.id,
                                        pos: pos + 1,
                                    });
                                }
                            },
                            None => {},
                        }
                    },
                    _ => {
                        proof {
                            crate::locals::lemma_view_variant_kinds(*parent);
                        }
                    },
                },
                None => {},
            }
        }
        match ip {
            Some(ip) => {
                self.mark_as_editing(ip, env);
            },
            None => {},
        }
    }

    /// Opens an insertion point on the previous line; with nothing
    /// selected, at the beginning of the root block.
    pub fn set_insertion_point_on_previous_line_in_block(&mut self,
        env: &ExecutionEnvironment)
        requires
            editor_wf(old(self)),
        ensures
            editor_wf(final(self)),
            open_insertion_line_effect(old(self), final(self), false, env@),
    {
        if self.no_node_selected() {
            let block_id = self.get_code().id();
            self.mark_as_editing(InsertionPoint::BeginningOfBlock(block_id), env);
        } else {
            match self.currently_focused_block_expression() {
                Some(expression_id) => {
                    self.mark_as_editing(InsertionPoint::Before(expression_id), env);
                },
                None => {
                    self.hide_insert_code_menu();
                },
            }
        }
    }

    /// Opens an insertion point on the next line; with nothing selected,
    /// at the beginning of the root block.
    pub fn set_insertion_point_on_next_line_in_block(&mut self,
        env: &ExecutionEnvironment)
        requires
            editor_wf(old(self)),
        ensures
            editor_wf(final(self)),
            open_insertion_line_effect(old(self), final(self), true, env@),
    {
        if self.no_node_selected() {
            let block_id = self.get_code().id();
            self.mark_as_editing(InsertionPoint::BeginningOfBlock(block_id), env);
        } else {
            match self.currently_focused_block_expression() {
                Some(expression_id) => {
                    self.mark_as_editing(InsertionPoint::After(expression_id), env);
                },
                None => {
                    self.hide_insert_code_menu();
                },
            }
        }
    }

    /// Inserts the node at the insertion point, then places the cursor:
    /// into the call's or literal's first hole, or onto the next open
    /// hole, or onto the node itself.  A mismatched insertion point
    /// leaves the tree unchanged.
    pub fn insert_code(&mut self, code_node: CodeNode, insertion_point: InsertionPoint,
        env: &ExecutionEnvironment)
        requires
            editor_wf(old(self)),
        ensures
            editor_wf(final(self)),
            insert_effect(old(self), final(self), code_node@, insertion_point),
    {
        let new_root = match self.mutation_master.insert_code(&code_node, insertion_point,
            &self.code_genie) {
            Some(r) => r,
            None => {
                return;
            },
        };
        self.replace_code(new_root);
        match post_insertion_cursor(&code_node, &self.code_genie) {
            PostInsertionAction::SelectNode(id) => {
                self.set_selected_node_id(Some(id));
            },
            PostInsertionAction::MarkAsEditing(ip) => {
                self.mark_as_editing(ip, env);
            },
        }
    }

    /// Deletes the selected node: removes a block statement or list
    /// element and keeps the cursor on the same line.
    pub fn delete_selected_code(&mut self)
        requires
            editor_wf(old(self)),
        ensures
            editor_wf(final(self)),
            delete_effect(old(self), final(self)),
    {
        let id = match self.selected_node_id {
            Some(id) => id,
            None => {
                return;
            },
        };
        let deletion_result = self.mutation_master.delete_code(id, &self.code_genie,
            self.selected_node_id);
        self.save_current_state_to_undo_history();
        self.replace_code(deletion_result.new_root);
        self.set_selected_node_id(deletion_result.new_cursor_position);
    }

    /// Dispatches one keypress: navigation, deletion, insertion points,
    /// undo and redo, menu stepping, or cancel.  Commands other than
    /// cancel and menu stepping apply only outside editing mode.
    pub fn handle_keypress(&mut self, keypress: crate::editor::Keypress,
        env: &ExecutionEnvironment)
        requires
            editor_wf(old(self)),
        ensures
            editor_wf(final(self)),
            keypress_effect(old(self), final(self), keypress, env@),
    {
        if matches!(keypress.key, crate::editor::Key::Escape) {
            self.handle_cancel();
            return;
        }
        if !self.editing {
            match keypress.key {
                crate::editor::Key::K | crate::editor::Key::UpArrow => {
                    self.try_select_up_one_node();
                },
                crate::editor::Key::J | crate::editor::Key::DownArrow => {
                    self.try_select_down_one_node();
                },
                crate::editor::Key::B | crate::editor::Key::LeftArrow | crate::editor::Key::H => {
                    self.try_select_back_one_node();
                },
                crate::editor::Key::W | crate::editor::Key::RightArrow | crate::editor::Key::L => {
                    self.try_select_forward_one_node();
                },
                crate::editor::Key::C => {
                    match self.selected_node_id {
                        Some(id) => {
                            self.mark_as_editing(InsertionPoint::Editing(id), env);
                        },
                        None => {},
                    }
                },
                crate::editor::Key::D => {
                    self.delete_selected_code();
                },
                crate::editor::Key::A => {
                    self.try_append_in_selected_node(env);
                },
                crate::editor::Key::R => {
                    if keypress.ctrl && keypress.shift {
                        // running the program belongs to the execution
                        // environment outside the editing core
                    } else if keypress.ctrl {
                        self.redo();
                    } else {
                        self.try_enter_replace_edit_for_selected_node(env);
                    }
                },
                crate::editor::Key::O => {
                    if keypress.shift {
                        self.set_insertion_point_on_previous_line_in_block(env);
                    } else {
                        self.set_insertion_point_on_next_line_in_block(env);
                    }
                },
                crate::editor::Key::U => {
                    self.undo();
                },
                crate::editor::Key::V => {
                    if keypress.shift {
                        self.select_current_line();
                    }
                },
                crate::editor::Key::Tab => {
                    match &mut self.insert_code_menu {
                        Some(menu) => {
                            menu.select_next();
                        },
                        None => {},
                    }
                },
                _ => {},
            }
        } else {
            match keypress.key {
                crate::editor::Key::Tab => {
                    match &mut self.insert_code_menu {
                        Some(menu) => {
                            menu.select_next();
                        },
                        None => {},
                    }
                },
                _ => {},
            }
        }
    }
}

// ---------------------------------------------------------------------------
// Undo exactness at the session level
// ---------------------------------------------------------------------------

/// The part of the session the undo machinery moves: the tree, the
/// cursor and the history.
pub struct SessionView {
    pub tree: NodeView,
    pub cursor: Option<ID>,
    pub hist: HistView,
}

/// The session a given editor is in.
pub open spec fn session_of(e: &CodeEditor) -> SessionView {
    SessionView {
        tree: e.code_genie@,
        cursor: e.selected_node_id,
        hist: e.mutation_master@,
    }
}

/// What one undo does to the session: step the history back and splice
/// the restored snapshot in.
pub open spec fn session_undo(s: SessionView) -> SessionView {
    let (h2, out) = undo_spec(s.hist, CellView {
        root: s.tree,
        cursor_position: s.cursor,
    });
    match out {
        Some(cell) => SessionView {
            tree: replace_view(s.tree, cell.root),
            cursor: cell.cursor_position,
            hist: h2,
        },
        None => SessionView { tree: s.tree, cursor: s.cursor, hist: h2 },
    }
}

/// What one redo does to the session, symmetrically.
pub open spec fn session_redo(s: SessionView) -> SessionView {
    let (h2, out) = redo_spec(s.hist);
    match out {
        Some(cell) => SessionView {
            tree: replace_view(s.tree, cell.root),
            cursor: cell.cursor_position,
            hist: h2,
        },
        None => SessionView { tree: s.tree, cursor: s.cursor, hist: h2 },
    }
}

pub open spec fn session_undo_n(s: SessionView, n: nat) -> SessionView
    decreases n,
{
    if n == 0 {
        s
    } else {
        session_undo_n(session_undo(s), (n - 1) as nat)
    }
}

pub open spec fn session_redo_n(s: SessionView, n: nat) -> SessionView
    decreases n,
{
    if n == 0 {
        s
    } else {
        session_redo_n(session_redo(s), (n - 1) as nat)
    }
}

/// `CodeEditor::undo` moves the session exactly as `session_undo` says:
/// its contract, `undo_effect`, determines the next session.
pub proof fn lemma_undo_effect_is_session_undo(o: &CodeEditor, f: &CodeEditor)
    requires
        undo_effect(o, f),
    ensures
        session_of(f) == session_undo(session_of(o)),
{
}

/// `CodeEditor::redo` moves the session exactly as `session_redo` says.
pub proof fn lemma_redo_effect_is_session_redo(o: &CodeEditor, f: &CodeEditor)
    requires
        redo_effect(o, f),
    ensures
        session_of(f) == session_redo(session_of(o)),
{
}

/// A restored snapshot that keeps the root's id splices in as the whole
/// tree, so undoing over such a log tracks the history transitions
/// exactly.
proof fn lemma_session_tracks_undo(s: SessionView, n: nat)
    requires
        crate::undo::hist_wf(s.hist),
        forall|k: int| 0 <= k < s.hist.log.len()
            ==> (#[trigger] s.hist.log[k]).root.nid() == s.tree.nid(),
    ensures
        ({
            let (h2, cur) = crate::undo::undo_n(s.hist, CellView {
                root: s.tree,
                cursor_position: s.cursor,
            }, n);
            let s2 = session_undo_n(s, n);
            s2.hist == h2 && s2.tree == cur.root && s2.cursor == cur.cursor_position
        }),
    decreases n,
{
    if n > 0 {
        let cur0 = CellView { root: s.tree, cursor_position: s.cursor };
        let (h1, out) = undo_spec(s.hist, cur0);
        match out {
            Some(cell) => {
                assert(0 < s.hist.index <= s.hist.log.len());
                assert(cell == s.hist.log[s.hist.index - 1]);
                assert(cell.root.nid() == s.tree.nid());
                assert(replace_view(s.tree, cell.root) == cell.root);
                let s1 = session_undo(s);
                assert(s1.tree == cell.root && s1.cursor == cell.cursor_position
                    && s1.hist == h1);
                assert forall|k: int| 0 <= k < s1.hist.log.len()
                    implies (#[trigger] s1.hist.log[k]).root.nid() == s1.tree.nid() by {
                    if s.hist.index == s.hist.log.len() {
                        assert(h1.log == s.hist.log.push(cur0));
                        if k < s.hist.log.len() {
                            assert(h1.log[k] == s.hist.log[k]);
                        } else {
                            assert(h1.log[k] == cur0);
                        }
                    } else {
                        assert(h1.log == s.hist.log.update(s.hist.index as int, cur0));
                        if k == s.hist.index {
                            assert(h1.log[k] == cur0);
                        } else {
                            assert(h1.log[k] == s.hist.log[k]);
                        }
                    }
                }
                lemma_session_tracks_undo(s1, (n - 1) as nat);
            },
            None => {
                let s1 = session_undo(s);
                assert(s1 == s);
                lemma_session_tracks_undo(s, (n - 1) as nat);
            },
        }
    }
}

/// The redo counterpart of the tracking argument.
proof fn lemma_session_tracks_redo(s: SessionView, n: nat)
    requires
        crate::undo::hist_wf(s.hist),
        forall|k: int| 0 <= k < s.hist.log.len()
            ==> (#[trigger] s.hist.log[k]).root.nid() == s.tree.nid(),
    ensures
        ({
            let (h2, cur) = crate::undo::redo_n(s.hist, CellView {
                root: s.tree,
                cursor_position: s.cursor,
            }, n);
            let s2 = session_redo_n(s, n);
            s2.hist == h2 && s2.tree == cur.root && s2.cursor == cur.cursor_position
        }),
    decreases n,
{
    if n > 0 {
        let (h1, out) = redo_spec(s.hist);
        match out {
            Some(cell) => {
                assert(cell == s.hist.log[s.hist.index as int + 1]);
                assert(cell.root.nid() == s.tree.nid());
                assert(replace_view(s.tree, cell.root) == cell.root);
                let s1 = session_redo(s);
                assert(s1.tree == cell.root && s1.cursor == cell.cursor_position
                    && s1.hist == h1);
                assert(h1.log == s.hist.log);
                lemma_session_tracks_redo(s1, (n - 1) as nat);
            },
            None => {
                let s1 = session_redo(s);
                assert(s1 == s);
                lemma_session_tracks_redo(s, (n - 1) as nat);
            },
        }
    }
}

/// Undo exactness at the session level.  A session whose history holds
/// the pre-command snapshots of `n` commands — the log the editor builds
/// by recording before every mutation — returns, after `n` undos, to the
/// first snapshot's tree and cursor exactly; `n` redos then return to
/// the current state.  Every command's own contract pins its snapshot
/// (`record_spec` in `save_current_state_to_undo_history`,
/// `mark_editing_effect` and `delete_effect`), and `undo_effect` /
/// `redo_effect` are exactly `session_undo` / `session_redo`, so the
/// statement covers any run of editor commands.  The root keeps its id
/// through every edit (`crate::lang::lemma_replace_nid`), which is the
/// only shape this lemma assumes of the snapshots.
pub proof fn lemma_session_undo_exactness(s: SessionView, states: Seq<CellView>)
    requires
        states.len() >= 1,
        s.hist == (HistView { log: states, index: states.len() as nat }),
        forall|k: int| 0 <= k < states.len()
            ==> (#[trigger] states[k]).root.nid() == s.tree.nid(),
    ensures
        ({
            let n = states.len();
            let su = session_undo_n(s, n);
            let sr = session_redo_n(su, n);
            &&& su.tree == states[0].root
            &&& su.cursor == states[0].cursor_position
            &&& sr.tree == s.tree
            &&& sr.cursor == s.cursor
        }),
{
    let n = states.len();
    let cur0 = CellView { root: s.tree, cursor_position: s.cursor };
    let full = states.push(cur0);

    // the history walk restores the recorded states one by one
    let (h1, out1) = undo_spec(s.hist, cur0);
    assert(h1.log =~= full);
    assert(out1 == Some(states[n - 1]));
    assert(full[n - 1] == states[n - 1]);
    crate::undo::lemma_undo_step(full, (n - 1) as nat, (n - 1) as nat);
    let (hu, restored) = crate::undo::undo_n(s.hist, cur0, n as nat);
    assert((hu, restored) == (HistView { log: full, index: 0 }, full[0]));
    assert(full[0] == states[0]);

    // the session tracks the walk because every snapshot keeps the root id
    assert forall|k: int| 0 <= k < s.hist.log.len()
        implies (#[trigger] s.hist.log[k]).root.nid() == s.tree.nid() by {
        assert(s.hist.log[k] == states[k]);
    }
    lemma_session_tracks_undo(s, n as nat);
    let su = session_undo_n(s, n as nat);
    assert(su.tree == states[0].root && su.cursor == states[0].cursor_position);
    assert(su.hist == hu);

    // redos walk back up to the stored current state
    crate::undo::lemma_redo_step(full, 0, n as nat);
    assert(crate::undo::redo_n(hu, restored, n as nat)
        == (HistView { log: full, index: n as nat }, full[n as int]));
    assert(full[n as int] == cur0);
    assert forall|k: int| 0 <= k < su.hist.log.len()
        implies (#[trigger] su.hist.log[k]).root.nid() == su.tree.nid() by {
        assert(su.hist.log[k] == full[k]);
        if k < n {
            assert(full[k] == states[k]);
        } else {
            assert(full[k] == cur0);
        }
        assert(su.tree.nid() == states[0].root.nid());
    }
    lemma_session_tracks_redo(su, n as nat);
    let sr = session_redo_n(su, n as nat);
    assert(sr.tree == cur0.root && sr.cursor == cur0.cursor_position);
}

} // verus!
