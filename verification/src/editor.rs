//! The outer editor session: the controller that owns the loaded tree,
//! the catalog and the error console, and turns keypresses into commands
//! over the inner per-tree session.

use vstd::prelude::*;

use crate::code_editor::{
    cancel_effect, delete_effect, editor_wf, insert_effect, keypress_effect,
    mark_editing_effect, open_insertion_line_effect, redo_effect, replace_edit_effect,
    select_effect, undo_effect, CodeEditor, CodeLocation, InsertionPoint,
};
use crate::code_genie::CodeGenie;
use crate::env::{
    find_func_view, find_typespec_view, ExecutionEnvironment, Function, FuncDesc,
    StructDesc, TypeSpecDesc, TypeSpecDescView, TypeSpecKind,
};
use crate::lang::{CodeNode, Value, ID};

verus! {

/// One key of the command vocabulary.
#[derive(Clone, Copy, Debug, PartialEq, Eq, Structural)]
pub enum Key {
    A,
    B,
    C,
    D,
    H,
    J,
    K,
    L,
    W,
    X,
    R,
    O,
    U,
    V,
    Tab,
    Escape,
    UpArrow,
    DownArrow,
    LeftArrow,
    RightArrow,
}

/// One keypress with its modifiers.
#[derive(Clone, Copy, Debug)]
pub struct Keypress {
    pub key: Key,
    pub ctrl: bool,
    pub shift: bool,
}

impl Keypress {
    /// A keypress from its parts.
    pub fn new(key: Key, ctrl: bool, shift: bool) -> (r: Keypress)
        ensures
            r.key == key,
            r.ctrl == ctrl,
            r.shift == shift,
    {
        Keypress { key, ctrl, shift }
    }
}

/// The value the last run of a function produced, kept for display.
pub struct TestResult {
    pub value: Value,
}

impl TestResult {
    /// Wraps a run's value.
    pub fn new(value: Value) -> (r: TestResult)
        ensures
            r.value == value,
    {
        TestResult { value }
    }
}

/// The structs among a type-spec list, in order.
pub open spec fn structs_in(s: Seq<TypeSpecDescView>) -> Seq<crate::env::StructDescView>
    decreases s.len(),
{
    if s.len() == 0 {
        Seq::empty()
    } else {
        (match s[0].kind {
            crate::env::TypeSpecKindView::Strukt(sd) => seq![sd],
            _ => Seq::empty(),
        }) + structs_in(s.subrange(1, s.len() as int))
    }
}

proof fn lemma_structs_in_push(s: Seq<TypeSpecDescView>, e: TypeSpecDescView)
    ensures
        structs_in(s.push(e)) == structs_in(s) + (match e.kind {
            crate::env::TypeSpecKindView::Strukt(sd) => seq![sd],
            _ => Seq::<crate::env::StructDescView>::empty(),
        }),
    decreases s.len(),
{
    let sp = s.push(e);
    let tail: Seq<crate::env::StructDescView> = match e.kind {
        crate::env::TypeSpecKindView::Strukt(sd) => seq![sd],
        _ => Seq::empty(),
    };
    if s.len() == 0 {
        assert(sp[0] == e);
        assert(sp.subrange(1, sp.len() as int) =~= Seq::<TypeSpecDescView>::empty());
        assert(structs_in(Seq::<TypeSpecDescView>::empty())
            == Seq::<crate::env::StructDescView>::empty());
        assert(structs_in(s) == Seq::<crate::env::StructDescView>::empty());
        assert(structs_in(sp) == tail + Seq::<crate::env::StructDescView>::empty());
        assert(tail + Seq::<crate::env::StructDescView>::empty()
            =~= Seq::<crate::env::StructDescView>::empty() + tail);
    } else {
        let rest = s.subrange(1, s.len() as int);
        lemma_structs_in_push(rest, e);
        assert(sp[0] == s[0]);
        assert(sp.subrange(1, sp.len() as int) =~= rest.push(e));
        let head: Seq<crate::env::StructDescView> = match s[0].kind {
            crate::env::TypeSpecKindView::Strukt(sd) => seq![sd],
            _ => Seq::empty(),
        };
        assert(head + (structs_in(rest) + tail) =~= (head + structs_in(rest)) + tail);
    }
}

/// The outer session: the catalog, the loaded tree's session and the
/// error console.  Execution itself — running code, filling the consoles
/// — belongs to the excluded execution environment; this session only
/// records what it is told.
pub struct Controller {
    pub execution_environment: ExecutionEnvironment,
    pub editor: Option<CodeEditor>,
    pub error_console: String,
}

/// The controller's structural invariant: the loaded session, if any, is
/// well formed.
pub open spec fn controller_wf(c: &Controller) -> bool {
    match c.editor {
        Some(e) => editor_wf(&e),
        None => true,
    }
}

impl Controller {
    /// A controller with an empty catalog and no code loaded.
    pub fn new() -> (r: Controller)
        ensures
            r.editor is None,
            controller_wf(&r),
            r.error_console@ == Seq::<char>::empty(),
    {
        let r = Controller {
            execution_environment: ExecutionEnvironment::new(),
            editor: None,
            error_console: String::new(),
        };
        proof {
            assert(r.error_console@ =~= Seq::<char>::empty());
        }
        r
    }

    /// Loads a tree, opening a fresh session over it.
    pub fn load_code(&mut self, code_node: &CodeNode)
        ensures
            controller_wf(final(self)),
            final(self).editor matches Some(e) && e.code_genie@ == code_node@
                && !e.editing && e.selected_node_id is None,
            final(self).execution_environment == old(self).execution_environment,
    {
        let id = code_node.id();
        self.editor = Some(CodeEditor::new(code_node.duplicate(), CodeLocation::Script(id)));
    }

    /// Every registered type spec.
    pub fn typespecs(&self) -> (r: Vec<&TypeSpecDesc>)
        ensures
            r@.len() == self.execution_environment@.typespecs.len(),
            forall|i: int| 0 <= i < r@.len()
                ==> (#[trigger] r@[i])@ == self.execution_environment@.typespecs[i],
    {
        self.execution_environment.list_typespecs()
    }

    /// Every registered struct.
    pub fn list_structs(&self) -> (r: Vec<&StructDesc>)
        ensures
            r@.len() == structs_in(self.execution_environment@.typespecs).len(),
            forall|i: int| 0 <= i < r@.len()
                ==> (#[trigger] r@[i])@
                    == structs_in(self.execution_environment@.typespecs)[i],
    {
        let ghost tvs = self.execution_environment@.typespecs;
        let typespecs = self.execution_environment.list_typespecs();
        let mut r: Vec<&StructDesc> = Vec::new();
        let mut i: usize = 0;
        while i < typespecs.len()
            invariant
                i <= typespecs@.len(),
                typespecs@.len() == tvs.len(),
                tvs == self.execution_environment@.typespecs,
                forall|k: int| 0 <= k < tvs.len()
                    ==> (#[trigger] typespecs@[k])@ == tvs[k],
                r@.len() == structs_in(tvs.subrange(0, i as int)).len(),
                forall|k: int| 0 <= k < r@.len()
                    ==> (#[trigger] r@[k])@ == structs_in(tvs.subrange(0, i as int))[k],
            decreases typespecs@.len() - i,
        {
            let ghost prefix = tvs.subrange(0, i as int);
            let ts: &TypeSpecDesc = typespecs[i];
            match &ts.kind {
                TypeSpecKind::Strukt(sd) => {
                    r.push(sd);
                },
                _ => {},
            }
            proof {
                assert(tvs.subrange(0, (i + 1) as int) =~= prefix.push(tvs[i as int]));
                lemma_structs_in_push(prefix, tvs[i as int]);
            }
            i = i + 1;
        }
        proof {
            assert(tvs.subrange(0, tvs.len() as int) =~= tvs);
        }
        r
    }

    /// The registered type spec with the given id.
    pub fn get_typespec(&self, id: ID) -> (r: Option<&TypeSpecDesc>)
        ensures
            match r {
                Some(t) => find_typespec_view(self.execution_environment@.typespecs, id)
                    == Some(t@),
                None => find_typespec_view(self.execution_environment@.typespecs, id)
                    is None,
            },
    {
        self.execution_environment.find_typespec(id)
    }

    /// Registers a type spec, replacing one with the same id.
    pub fn load_typespec(&mut self, typespec: TypeSpecDesc)
        requires
            controller_wf(old(self)),
        ensures
            controller_wf(final(self)),
            final(self).execution_environment@.typespecs
                == crate::env::other_typespecs(
                    old(self).execution_environment@.typespecs, typespec@.id)
                    .push(typespec@),
            final(self).editor == old(self).editor,
    {
        self.execution_environment.add_typespec(typespec);
    }

    /// Registers a function, replacing one with the same id.  What the
    /// descriptor holds comes from the function object itself, so only
    /// its arrival is promised.
    pub fn load_function<F: Function>(&mut self, function: F)
        requires
            controller_wf(old(self)),
        ensures
            controller_wf(final(self)),
            final(self).editor == old(self).editor,
            exists|f: crate::env::FuncDescView|
                final(self).execution_environment@.funcs
                    == crate::env::other_funcs(old(self).execution_environment@.funcs,
                        f.id).push(f),
            final(self).execution_environment@.typespecs
                == old(self).execution_environment@.typespecs,
            final(self).execution_environment@.code_args
                == old(self).execution_environment@.code_args,
    {
        self.execution_environment.add_function(function);
    }

    /// Removes the function with the given id from the catalog.
    pub fn remove_function(&mut self, id: ID)
        requires
            controller_wf(old(self)),
        ensures
            controller_wf(final(self)),
            final(self).execution_environment@.funcs
                == crate::env::other_funcs(old(self).execution_environment@.funcs, id),
            final(self).editor == old(self).editor,
    {
        self.execution_environment.delete_function(id);
    }

    /// The registered function with the given id.
    pub fn find_function(&self, id: ID) -> (r: Option<&FuncDesc>)
        ensures
            match r {
                Some(f) => find_func_view(self.execution_environment@.funcs, id)
                    == Some(f@),
                None => find_func_view(self.execution_environment@.funcs, id) is None,
            },
    {
        self.execution_environment.find_function(id)
    }

    /// Records what the execution environment reported of a failed run.
    pub fn record_error(&mut self, message: &str)
        ensures
            final(self).error_console@ == old(self).error_console@ + message@,
            final(self).editor == old(self).editor,
            final(self).execution_environment == old(self).execution_environment,
    {
        self.error_console.append(message);
    }

    /// The error console's text.
    pub fn read_error_console(&self) -> (r: &str)
        ensures
            r@ == self.error_console@,
    {
        self.error_console.as_str()
    }

    /// A genie over the loaded tree.
    pub fn code_genie(&self) -> (r: Option<&CodeGenie>)
        ensures
            match r {
                Some(g) => self.editor matches Some(e) && g@ == e.code_genie@,
                None => self.editor is None,
            },
    {
        match &self.editor {
            Some(e) => Some(&e.code_genie),
            None => None,
        }
    }

    /// The current selection.
    pub fn get_selected_node_id(&self) -> (r: Option<ID>)
        ensures
            r == match self.editor {
                Some(e) => e.selected_node_id,
                None => None::<ID>,
            },
    {
        match &self.editor {
            Some(e) => *e.get_selected_node_id(),
            None => None,
        }
    }

    /// Selects the given node.
    pub fn set_selected_node_id(&mut self, code_node_id: Option<ID>)
        requires
            controller_wf(old(self)),
        ensures
            controller_wf(final(self)),
            old(self).editor matches Some(e)
                ==> final(self).editor matches Some(e2)
                    && e2 == (CodeEditor { selected_node_id: code_node_id, ..e }),
            old(self).editor is None ==> final(self).editor is None,
    {
        match &mut self.editor {
            Some(e) => {
                e.selected_node_id = code_node_id;
            },
            None => {},
        }
    }

    /// The selected node itself.
    pub fn get_selected_node(&self) -> (r: Option<&CodeNode>)
        ensures
            match r {
                Some(n) => self.editor matches Some(e)
                    && e.selected_node_id matches Some(id)
                    && crate::lang::find_view(e.code_genie@, id) == Some(n@),
                None => true,
            },
    {
        match &self.editor {
            Some(e) => e.get_selected_node(),
            None => None,
        }
    }

    /// The insertion point of the open menu.
    pub fn insertion_point(&self) -> (r: Option<InsertionPoint>)
        ensures
            r == match self.editor {
                Some(e) => match e.insert_code_menu {
                    Some(menu) => Some(menu.insertion_point),
                    None => None::<InsertionPoint>,
                },
                None => None::<InsertionPoint>,
            },
    {
        match &self.editor {
            Some(e) => e.insertion_point(),
            None => None,
        }
    }

    /// Closes the insert menu and leaves editing mode.
    pub fn hide_insert_code_menu(&mut self)
        requires
            controller_wf(old(self)),
        ensures
            controller_wf(final(self)),
            old(self).editor matches Some(e) ==> final(self).editor matches Some(e2)
                && e2 == (CodeEditor { insert_code_menu: None, editing: false, ..e }),
    {
        match &mut self.editor {
            Some(e) => {
                e.hide_insert_code_menu();
            },
            None => {},
        }
    }

    /// Records the current state in the undo history: the loaded
    /// session's history gains the (tree, cursor) snapshot and nothing
    /// else moves.
    pub fn save_current_state_to_undo_history(&mut self)
        requires
            controller_wf(old(self)),
        ensures
            controller_wf(final(self)),
            match (old(self).editor, final(self).editor) {
                (Some(a), Some(b)) => b.mutation_master@
                    == crate::undo::record_spec(a.mutation_master@,
                        crate::undo::CellView {
                            root: a.code_genie@,
                            cursor_position: a.selected_node_id,
                        })
                    && b.code_genie@ == a.code_genie@
                    && b.selected_node_id == a.selected_node_id
                    && b.editing == a.editing
                    && b.insert_code_menu == a.insert_code_menu,
                (None, None) => true,
                _ => false,
            },
    {
        match &mut self.editor {
            Some(e) => {
                e.save_current_state_to_undo_history();
            },
            None => {},
        }
    }

    /// Steps the loaded session back one snapshot.
    pub fn undo(&mut self)
        requires
            controller_wf(old(self)),
        ensures
            controller_wf(final(self)),
            match (old(self).editor, final(self).editor) {
                (Some(a), Some(b)) => undo_effect(&a, &b),
                (None, None) => true,
                _ => false,
            },
    {
        match &mut self.editor {
            Some(e) => {
                e.undo();
            },
            None => {},
        }
    }

    /// Steps the loaded session forward one snapshot.
    pub fn redo(&mut self)
        requires
            controller_wf(old(self)),
        ensures
            controller_wf(final(self)),
            match (old(self).editor, final(self).editor) {
                (Some(a), Some(b)) => redo_effect(&a, &b),
                (None, None) => true,
                _ => false,
            },
    {
        match &mut self.editor {
            Some(e) => {
                e.redo();
            },
            None => {},
        }
    }

    /// Cancels the edit in progress.
    pub fn handle_cancel(&mut self)
        requires
            controller_wf(old(self)),
        ensures
            controller_wf(final(self)),
            match (old(self).editor, final(self).editor) {
                (Some(a), Some(b)) => cancel_effect(&a, &b),
                (None, None) => true,
                _ => false,
            },
    {
        match &mut self.editor {
            Some(e) => {
                e.handle_cancel();
            },
            None => {},
        }
    }

    /// Deletes the selected node.
    pub fn delete_selected_code(&mut self)
        requires
            controller_wf(old(self)),
        ensures
            controller_wf(final(self)),
            match (old(self).editor, final(self).editor) {
                (Some(a), Some(b)) => delete_effect(&a, &b),
                (None, None) => true,
                _ => false,
            },
    {
        match &mut self.editor {
            Some(e) => {
                e.delete_selected_code();
            },
            None => {},
        }
    }

    /// Inserts the node at the insertion point.
    pub fn insert_code(&mut self, code_node: CodeNode, insertion_point: InsertionPoint)
        requires
            controller_wf(old(self)),
        ensures
            controller_wf(final(self)),
            match (old(self).editor, final(self).editor) {
                (Some(a), Some(b)) => insert_effect(&a, &b, code_node@, insertion_point),
                (None, None) => true,
                _ => false,
            },
    {
        let env = &self.execution_environment;
        match &mut self.editor {
            Some(e) => {
                e.insert_code(code_node, insertion_point, env);
            },
            None => {},
        }
    }

    /// Opens an edit session at the insertion point.
    pub fn mark_as_editing(&mut self, insertion_point: InsertionPoint)
        requires
            controller_wf(old(self)),
        ensures
            controller_wf(final(self)),
            match (old(self).editor, final(self).editor) {
                (Some(a), Some(b)) => mark_editing_effect(&a, &b, insertion_point,
                    old(self).execution_environment@),
                (None, None) => true,
                _ => false,
            },
    {
        let env = &self.execution_environment;
        match &mut self.editor {
            Some(e) => {
                e.mark_as_editing(insertion_point, env);
            },
            None => {},
        }
    }

    /// The statement of the enclosing block the selection sits in.
    pub fn currently_focused_block_expression(&self) -> (r: Option<ID>)
        ensures
            r == match self.editor {
                Some(e) => match e.selected_node_id {
                    Some(id) => crate::code_genie::enclosing_stmt(e.code_genie@, id),
                    None => None::<ID>,
                },
                None => None::<ID>,
            },
    {
        match &self.editor {
            Some(e) => e.currently_focused_block_expression(),
            None => None,
        }
    }

    /// Selects the whole line.
    pub fn select_current_line(&mut self)
        requires
            controller_wf(old(self)),
        ensures
            controller_wf(final(self)),
            match (old(self).editor, final(self).editor) {
                (Some(a), Some(b)) => select_effect(&a, &b, match a.selected_node_id {
                    Some(id) => crate::code_genie::enclosing_stmt(a.code_genie@, id),
                    None => None,
                }),
                (None, None) => true,
                _ => false,
            },
    {
        match &mut self.editor {
            Some(e) => {
                e.select_current_line();
            },
            None => {},
        }
    }

    /// Opens an insertion point on the previous line.
    pub fn set_insertion_point_on_previous_line_in_block(&mut self)
        requires
            controller_wf(old(self)),
        ensures
            controller_wf(final(self)),
            match (old(self).editor, final(self).editor) {
                (Some(a), Some(b)) => open_insertion_line_effect(&a, &b, false,
                    old(self).execution_environment@),
                (None, None) => true,
                _ => false,
            },
    {
        let env = &self.execution_environment;
        match &mut self.editor {
            Some(e) => {
                e.set_insertion_point_on_previous_line_in_block(env);
            },
            None => {},
        }
    }

    /// Opens an insertion point on the next line.
    pub fn set_insertion_point_on_next_line_in_block(&mut self)
        requires
            controller_wf(old(self)),
        ensures
            controller_wf(final(self)),
            match (old(self).editor, final(self).editor) {
                (Some(a), Some(b)) => open_insertion_line_effect(&a, &b, true,
                    old(self).execution_environment@),
                (None, None) => true,
                _ => false,
            },
    {
        let env = &self.execution_environment;
        match &mut self.editor {
            Some(e) => {
                e.set_insertion_point_on_next_line_in_block(env);
            },
            None => {},
        }
    }

    /// Enters replace-edit for the selected node.
    pub fn try_enter_replace_edit_for_selected_node(&mut self)
        requires
            controller_wf(old(self)),
        ensures
            controller_wf(final(self)),
            match (old(self).editor, final(self).editor) {
                (Some(a), Some(b)) => replace_edit_effect(&a, &b,
                    old(self).execution_environment@),
                (None, None) => true,
                _ => false,
            },
    {
        let env = &self.execution_environment;
        match &mut self.editor {
            Some(e) => {
                e.try_enter_replace_edit_for_selected_node(env);
            },
            None => {},
        }
    }

    /// Moves the selection up one line.
    pub fn try_select_up_one_node(&mut self)
        requires
            controller_wf(old(self)),
        ensures
            controller_wf(final(self)),
            match (old(self).editor, final(self).editor) {
                (Some(a), Some(b)) => select_effect(&a, &b, match a.selected_node_id {
                    Some(id) => crate::navigation::vertical_view(a.code_genie@, id, false),
                    None => None,
                }),
                (None, None) => true,
                _ => false,
            },
    {
        match &mut self.editor {
            Some(e) => {
                e.try_select_up_one_node();
            },
            None => {},
        }
    }

    /// Moves the selection down one line.
    pub fn try_select_down_one_node(&mut self)
        requires
            controller_wf(old(self)),
        ensures
            controller_wf(final(self)),
            match (old(self).editor, final(self).editor) {
                (Some(a), Some(b)) => select_effect(&a, &b, match a.selected_node_id {
                    Some(id) => crate::navigation::vertical_view(a.code_genie@, id, true),
                    None => crate::navigation::forward_view(a.code_genie@, None),
                }),
                (None, None) => true,
                _ => false,
            },
    {
        match &mut self.editor {
            Some(e) => {
                e.try_select_down_one_node();
            },
            None => {},
        }
    }

    /// Moves the selection back one navigatable node.
    pub fn try_select_back_one_node(&mut self)
        requires
            controller_wf(old(self)),
        ensures
            controller_wf(final(self)),
            match (old(self).editor, final(self).editor) {
                (Some(a), Some(b)) => select_effect(&a, &b, crate::navigation::back_view(a.code_genie@, a.selected_node_id)),
                (None, None) => true,
                _ => false,
            },
    {
        match &mut self.editor {
            Some(e) => {
                e.try_select_back_one_node();
            },
            None => {},
        }
    }

    /// Moves the selection forward one navigatable node.
    pub fn try_select_forward_one_node(&mut self)
        requires
            controller_wf(old(self)),
        ensures
            controller_wf(final(self)),
            match (old(self).editor, final(self).editor) {
                (Some(a), Some(b)) => select_effect(&a, &b, crate::navigation::forward_view(a.code_genie@, a.selected_node_id)),
                (None, None) => true,
                _ => false,
            },
    {
        match &mut self.editor {
            Some(e) => {
                e.try_select_forward_one_node();
            },
            None => {},
        }
    }

    /// Dispatches one keypress to the loaded session, per the command
    /// table: Escape always cancels, Tab steps the menu, every other key
    /// is frozen while editing and otherwise navigates, deletes, opens
    /// insertion lines, enters editing, undoes or redoes.
    pub fn handle_keypress_in_code_window(&mut self, keypress: Keypress)
        requires
            controller_wf(old(self)),
        ensures
            controller_wf(final(self)),
            final(self).execution_environment == old(self).execution_environment,
            match (old(self).editor, final(self).editor) {
                (Some(a), Some(b)) => keypress_effect(&a, &b, keypress,
                    old(self).execution_environment@),
                (None, None) => true,
                _ => false,
            },
    {
        let env = &self.execution_environment;
        match &mut self.editor {
            Some(e) => {
                e.handle_keypress(keypress, env);
            },
            None => {},
        }
    }
}

} // verus!
