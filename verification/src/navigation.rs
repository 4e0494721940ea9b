//! Cursor navigation: moving the selection forward, back, up and down
//! over the tree's navigatable nodes.
//!
//! Forward and back walk the depth-first pre-order of the tree, skipping
//! nodes the navigatable predicate rejects.  Up and down stay at the same
//! offset while moving between the statements of the enclosing block,
//! clamped to the target statement's last navigatable node.  Every walk
//! runs over the tree's finite entry sequence, so each move terminates
//! after at most one step per node, and [`lemma_forward_finds_navigatable`]
//! and [`lemma_back_finds_navigatable`] prove that a successful move
//! always lands on a navigatable node.

use vstd::prelude::*;

use crate::code_genie::{enclosing_stmt, stmt_position, CodeGenie};
use crate::lang::{
    dfs_entries, dfs_list, find_view, lemma_child_height, lemma_node_views, node_view,
    node_views, parent_view, CodeNode, DfsEntry, NodeView, ID,
};

verus! {

// ---------------------------------------------------------------------------
// The navigatable predicate
// ---------------------------------------------------------------------------

/// Whether the cursor may land on a node, given the node and its parent.
/// Blocks and whole function calls are too coarse; assignments, function
/// references and literals always qualify; holes are skipped in favour of
/// their contents, which qualify by sitting directly inside a hole or
/// list.  A placeholder standing directly in a block also qualifies, by
/// design: a fresh script is one block holding one placeholder, and
/// without this rule it would offer the cursor nothing to land on.
pub open spec fn nav_rule(node: NodeView, parent: Option<NodeView>) -> bool {
    if node is Block {
        false
    } else if node is Assignment {
        true
    } else if node is FunctionCall {
        false
    } else if node is FunctionReference {
        true
    } else if node is Argument || node is StructLiteralField {
        false
    } else if node is StringLiteral || node is NullLiteral || node is StructLiteral
        || node is ListLiteral {
        true
    } else if (parent matches Some(p)
        && (p is Argument || p is StructLiteralField || p is ListLiteral)) {
        true
    } else if node is Placeholder && (parent matches Some(p) && p is Block) {
        true
    } else {
        false
    }
}

/// Executable mirror of [`nav_rule`].
fn nav_rule_exec(node: &CodeNode, parent: Option<&CodeNode>) -> (r: bool)
    ensures
        r == nav_rule(node@, match parent {
            Some(p) => Some(p@),
            None => None,
        }),
{
    match node {
        CodeNode::Block(_) => false,
        CodeNode::Assignment(_) => true,
        CodeNode::FunctionCall(_) => false,
        CodeNode::FunctionReference(_) => true,
        CodeNode::Argument(_) => false,
        CodeNode::StructLiteralField(_) => false,
        CodeNode::StringLiteral(_) => true,
        CodeNode::NullLiteral(_) => true,
        CodeNode::StructLiteral(_) => true,
        CodeNode::ListLiteral(_) => true,
        _ => match parent {
            Some(p) => match p {
                CodeNode::Argument(_) => true,
                CodeNode::StructLiteralField(_) => true,
                CodeNode::ListLiteral(_) => true,
                CodeNode::Block(_) => matches!(node, CodeNode::Placeholder(_)),
                _ => false,
            },
            None => false,
        },
    }
}

// ---------------------------------------------------------------------------
// Scans over the traversal order
// ---------------------------------------------------------------------------

/// The position of the id in an entry sequence.
pub open spec fn entry_position(entries: Seq<DfsEntry>, id: ID) -> Option<int>
    decreases entries.len(),
{
    if entries.len() == 0 {
        None
    } else if entries[0].node.nid() == id {
        Some(0)
    } else {
        match entry_position(entries.subrange(1, entries.len() as int), id) {
            Some(p) => Some(p + 1),
            None => None,
        }
    }
}

/// The first navigatable entry at or after `i`, scanning forward.
pub open spec fn scan_forward(entries: Seq<DfsEntry>, i: int) -> Option<ID>
    decreases entries.len() - i,
{
    if i < 0 || i >= entries.len() {
        None
    } else if nav_rule(entries[i].node, entries[i].parent) {
        Some(entries[i].node.nid())
    } else {
        scan_forward(entries, i + 1)
    }
}

/// The first navigatable entry at or before `i`, scanning backward.
pub open spec fn scan_backward(entries: Seq<DfsEntry>, i: int) -> Option<ID>
    decreases i + 1,
{
    if i < 0 || i >= entries.len() {
        None
    } else if nav_rule(entries[i].node, entries[i].parent) {
        Some(entries[i].node.nid())
    } else {
        scan_backward(entries, i - 1)
    }
}

/// The navigatable entries of a traversal, in order.
pub open spec fn nav_filter(entries: Seq<DfsEntry>) -> Seq<DfsEntry>
    decreases entries.len(),
{
    if entries.len() == 0 {
        Seq::empty()
    } else if nav_rule(entries[0].node, entries[0].parent) {
        seq![entries[0]] + nav_filter(entries.subrange(1, entries.len() as int))
    } else {
        nav_filter(entries.subrange(1, entries.len() as int))
    }
}

pub proof fn lemma_nav_filter_push(s: Seq<DfsEntry>, e: DfsEntry)
    ensures
        nav_filter(s.push(e)) == if nav_rule(e.node, e.parent) {
            nav_filter(s).push(e)
        } else {
            nav_filter(s)
        },
    decreases s.len(),
{
    let sp = s.push(e);
    if s.len() == 0 {
        assert(sp[0] == e);
        assert(sp.subrange(1, sp.len() as int) =~= Seq::<DfsEntry>::empty());
        assert(nav_filter(Seq::<DfsEntry>::empty()) == Seq::<DfsEntry>::empty());
        assert(nav_filter(s) == Seq::<DfsEntry>::empty());
        if nav_rule(e.node, e.parent) {
            assert(nav_filter(sp) == seq![e] + Seq::<DfsEntry>::empty());
            assert(seq![e] + Seq::<DfsEntry>::empty()
                =~= Seq::<DfsEntry>::empty().push(e));
        }
    } else {
        let rest = s.subrange(1, s.len() as int);
        lemma_nav_filter_push(rest, e);
        assert(sp[0] == s[0]);
        assert(sp.subrange(1, sp.len() as int) =~= rest.push(e));
        if nav_rule(s[0].node, s[0].parent) && nav_rule(e.node, e.parent) {
            assert(seq![s[0]] + nav_filter(rest).push(e)
                =~= (seq![s[0]] + nav_filter(rest)).push(e));
        }
    }
}

/// The node after the given one in the traversal: the first child, or the
/// next sibling of the nearest ancestor; the root itself when nothing is
/// selected.
pub open spec fn dfs_next(root: NodeView, from: Option<ID>) -> Option<NodeView> {
    let entries = entries_of(root);
    match from {
        None => if entries.len() > 0 {
            Some(entries[0].node)
        } else {
            None
        },
        Some(id) => match entry_position(entries, id) {
            Some(p) => if p + 1 < entries.len() {
                Some(entries[p + 1].node)
            } else {
                None
            },
            None => None,
        },
    }
}

/// The node before the given one in the traversal; `None` at the root.
pub open spec fn dfs_prev(root: NodeView, id: ID) -> Option<NodeView> {
    let entries = entries_of(root);
    match entry_position(entries, id) {
        Some(p) => if p >= 1 {
            Some(entries[p - 1].node)
        } else {
            None
        },
        None => None,
    }
}

/// The whole tree's traversal, each node with its parent.
pub open spec fn entries_of(root: NodeView) -> Seq<DfsEntry> {
    dfs_entries(root, None)
}

/// Where the forward move lands: at the first navigatable node after the
/// selection, or at the first navigatable node at all when nothing is
/// selected; `None` when the traversal is exhausted.
pub open spec fn forward_view(root: NodeView, from: Option<ID>) -> Option<ID> {
    let entries = entries_of(root);
    match from {
        None => scan_forward(entries, 0),
        Some(id) => match entry_position(entries, id) {
            Some(p) => scan_forward(entries, p + 1),
            None => None,
        },
    }
}

/// Where the back move lands: at the last navigatable node before the
/// selection; `None` at the front or with nothing selected.
pub open spec fn back_view(root: NodeView, from: Option<ID>) -> Option<ID> {
    let entries = entries_of(root);
    match from {
        None => None,
        Some(id) => match entry_position(entries, id) {
            Some(p) => scan_backward(entries, p - 1),
            None => None,
        },
    }
}

/// The ids of the navigatable nodes inside one block statement, in
/// traversal order; the statement's parent is the block itself.
pub open spec fn stmt_nav_ids(stmt: NodeView, block: NodeView) -> Seq<DfsEntry> {
    nav_filter(dfs_entries(stmt, Some(block)))
}

/// Where a vertical move lands.  Find the selection's offset among the
/// navigatable nodes of its enclosing block statement, step to the
/// previous (`down == false`) or next statement of the block, and select
/// the navigatable node at the same offset there, clamped to the last
/// one.
pub open spec fn vertical_view(root: NodeView, id: ID, down: bool) -> Option<ID> {
    match enclosing_stmt(root, id) {
        Some(sid) => match (find_view(root, sid), parent_view(root, sid)) {
            (Some(stmt), Some(block)) => if block is Block {
                let exprs = block->Block_expressions;
                match (entry_position(stmt_nav_ids(stmt, block), id),
                    stmt_position(exprs, sid)) {
                    (Some(offset), Some(pos)) => {
                        let target_pos: int = if down {
                            pos + 1
                        } else if pos == 0 {
                            0
                        } else {
                            pos - 1
                        };
                        if 0 <= target_pos < exprs.len() {
                            let candidates = stmt_nav_ids(exprs[target_pos], block);
                            if offset < candidates.len() {
                                Some(candidates[offset].node.nid())
                            } else if candidates.len() > 0 {
                                Some(candidates[candidates.len() - 1].node.nid())
                            } else {
                                None
                            }
                        } else {
                            None
                        }
                    },
                    _ => None,
                }
            } else {
                None
            },
            _ => None,
        },
        None => None,
    }
}

// ---------------------------------------------------------------------------
// Collecting the traversal
// ---------------------------------------------------------------------------

/// The model of one collected entry.
pub open spec fn pair_view(e: (&CodeNode, Option<&CodeNode>)) -> DfsEntry {
    DfsEntry {
        node: node_view(*e.0),
        parent: match e.1 {
            Some(p) => Some(node_view(*p)),
            None => None,
        },
    }
}

proof fn lemma_dfs_list_push(s: Seq<NodeView>, e: NodeView, parent: Option<NodeView>)
    ensures
        dfs_list(s.push(e), parent) == dfs_list(s, parent) + dfs_entries(e, parent),
    decreases s.len(),
{
    let sp = s.push(e);
    if s.len() == 0 {
        assert(sp[0] == e);
        assert(sp.subrange(1, sp.len() as int) =~= Seq::<NodeView>::empty());
        assert(dfs_list(Seq::<NodeView>::empty(), parent) == Seq::<DfsEntry>::empty());
        assert(dfs_list(s, parent) == Seq::<DfsEntry>::empty());
        assert(dfs_entries(e, parent) + dfs_list(Seq::<NodeView>::empty(), parent)
            =~= Seq::<DfsEntry>::empty() + dfs_entries(e, parent));
    } else {
        let rest = s.subrange(1, s.len() as int);
        lemma_dfs_list_push(rest, e, parent);
        assert(sp[0] == s[0]);
        assert(sp.subrange(1, sp.len() as int) =~= rest.push(e));
        assert(dfs_entries(s[0], parent) + (dfs_list(rest, parent) + dfs_entries(e, parent))
            =~= (dfs_entries(s[0], parent) + dfs_list(rest, parent)) + dfs_entries(e, parent));
    }
}

/// Appends the subtree's traversal, each node paired with its parent, to
/// `out`.
fn collect_entries<'a>(
    node: &'a CodeNode,
    parent: Option<&'a CodeNode>,
    out: &mut Vec<(&'a CodeNode, Option<&'a CodeNode>)>,
)
    ensures
        final(out)@.len() == old(out)@.len()
            + dfs_entries(node@, match parent {
                Some(p) => Some(p@),
                None => None,
            }).len(),
        forall|k: int| 0 <= k < old(out)@.len() ==> final(out)@[k] == old(out)@[k],
        forall|k: int| 0 <= k < dfs_entries(node@, match parent {
            Some(p) => Some(p@),
            None => None,
        }).len() ==> pair_view(#[trigger] final(out)@[old(out)@.len() + k])
            == dfs_entries(node@, match parent {
                Some(p) => Some(p@),
                None => None,
            })[k],
    decreases node@.height(),
{
    let ghost pv: Option<NodeView> = match parent {
        Some(p) => Some(p@),
        None => None,
    };
    let ghost whole = dfs_entries(node@, pv);
    out.push((node, parent));
    let kids = node.children();
    let ghost cs = node@.child_seq();
    let ghost base = out@;
    let mut i: usize = 0;
    while i < kids.len()
        invariant
            i <= kids@.len(),
            kids@.len() == cs.len(),
            cs == node@.child_seq(),
            whole == dfs_entries(node@, pv),
            whole == seq![DfsEntry { node: node@, parent: pv }]
                + dfs_list(cs, Some(node@)),
            base.len() == old(out)@.len() + 1,
            forall|k: int| 0 <= k < old(out)@.len() ==> base[k] == old(out)@[k],
            pair_view(base[old(out)@.len() as int])
                == (DfsEntry { node: node@, parent: pv }),
            forall|k: int| 0 <= k < kids@.len()
                ==> node_view(*(#[trigger] kids@[k])) == cs[k],
            out@.len() == base.len() + dfs_list(cs.subrange(0, i as int), Some(node@)).len(),
            forall|k: int| 0 <= k < base.len() ==> out@[k] == base[k],
            forall|k: int| 0 <= k < dfs_list(cs.subrange(0, i as int), Some(node@)).len()
                ==> pair_view(#[trigger] out@[base.len() + k])
                    == dfs_list(cs.subrange(0, i as int), Some(node@))[k],
        decreases kids@.len() - i,
    {
        proof { lemma_child_height(node@); }
        let ghost prefix = cs.subrange(0, i as int);
        let ghost done = dfs_list(prefix, Some(node@));
        let ghost pre = out@;
        let kid: &CodeNode = kids[i];
        collect_entries(kid, Some(node), out);
        proof {
            let step = dfs_entries(cs[i as int], Some(node@));
            assert(cs.subrange(0, (i + 1) as int) =~= prefix.push(cs[i as int]));
            lemma_dfs_list_push(prefix, cs[i as int], Some(node@));
            assert(dfs_list(cs.subrange(0, (i + 1) as int), Some(node@)) == done + step);
            assert forall|k: int| 0 <= k < (done + step).len()
                implies pair_view(#[trigger] out@[base.len() + k]) == (done + step)[k] by {
                if k < done.len() {
                    assert(out@[base.len() + k] == pre[base.len() + k]);
                    assert((done + step)[k] == done[k]);
                } else {
                    assert(out@[base.len() + k] == out@[pre.len() + (k - done.len())]);
                    assert(pair_view(out@[pre.len() + (k - done.len())])
                        == step[k - done.len()]);
                    assert((done + step)[k] == step[k - done.len()]);
                }
            }
        }
        i = i + 1;
    }
    proof {
        assert(cs.subrange(0, cs.len() as int) =~= cs);
        assert forall|k: int| 0 <= k < old(out)@.len()
            implies out@[k] == old(out)@[k] by {
            assert(out@[k] == base[k]);
        }
        assert forall|k: int| 0 <= k < whole.len()
            implies pair_view(#[trigger] out@[old(out)@.len() + k]) == whole[k] by {
            if k == 0 {
                assert(out@[old(out)@.len() as int] == base[old(out)@.len() as int]);
                assert(whole[0] == (DfsEntry { node: node@, parent: pv }));
            } else {
                assert(out@[base.len() + (k - 1)] == out@[old(out)@.len() + k]);
                assert(pair_view(out@[base.len() + (k - 1)])
                    == dfs_list(cs, Some(node@))[k - 1]);
                assert(whole[k] == dfs_list(cs, Some(node@))[k - 1]);
            }
        }
    }
}

// ---------------------------------------------------------------------------
// Navigation
// ---------------------------------------------------------------------------

/// Cursor movement over one genie's tree.
pub struct Navigation<'a> {
    code_genie: &'a CodeGenie,
}

impl<'a> View for Navigation<'a> {
    type V = NodeView;

    closed spec fn view(&self) -> NodeView {
        self.code_genie@
    }
}

impl<'a> Navigation<'a> {
    /// Navigation over the genie's tree.
    pub fn new(code_genie: &'a CodeGenie) -> (r: Navigation<'a>)
        ensures
            r@ == code_genie@,
    {
        Navigation { code_genie }
    }

    /// The tree's traversal as a vector of (node, parent) pairs.
    fn entries(&self) -> (r: Vec<(&'a CodeNode, Option<&'a CodeNode>)>)
        ensures
            r@.len() == entries_of(self@).len(),
            forall|k: int| 0 <= k < r@.len()
                ==> pair_view(#[trigger] r@[k]) == entries_of(self@)[k],
    {
        let mut out: Vec<(&'a CodeNode, Option<&'a CodeNode>)> = Vec::new();
        collect_entries(self.code_genie.root(), None, &mut out);
        proof {
            assert forall|k: int| 0 <= k < out@.len()
                implies pair_view(#[trigger] out@[k]) == entries_of(self@)[k] by {
                assert(pair_view(out@[0 + k]) == entries_of(self@)[k]);
            }
        }
        out
    }

    /// The position of the id in the traversal.
    fn position_of(
        &self,
        entries: &Vec<(&'a CodeNode, Option<&'a CodeNode>)>,
        id: ID,
    ) -> (r: Option<usize>)
        requires
            forall|k: int| 0 <= k < entries@.len()
                ==> pair_view(#[trigger] entries@[k]) == entries_of(self@)[k],
            entries@.len() == entries_of(self@).len(),
        ensures
            match r {
                Some(p) => entry_position(entries_of(self@), id) == Some(p as int)
                    && (p as int) < entries@.len(),
                None => entry_position(entries_of(self@), id) is None,
            },
    {
        let ghost evs = entries_of(self@);
        let mut i: usize = 0;
        while i < entries.len()
            invariant
                i <= entries@.len(),
                evs == entries_of(self@),
                entries@.len() == evs.len(),
                forall|k: int| 0 <= k < entries@.len()
                    ==> pair_view(#[trigger] entries@[k]) == evs[k],
                forall|k: int| 0 <= k < i ==> (#[trigger] evs[k]).node.nid() != id,
            decreases entries@.len() - i,
        {
            let e = entries[i];
            if e.0.id() == id {
                proof { lemma_entry_position_index(evs, id, i as int); }
                return Some(i);
            }
            i = i + 1;
        }
        proof { lemma_entry_position_none(evs, id); }
        None
    }

    /// Moves the selection forward to the next navigatable node.
    pub fn navigate_forward_from(&self, code_node_id: Option<ID>) -> (r: Option<ID>)
        ensures
            r == forward_view(self@, code_node_id),
    {
        let entries = self.entries();
        let ghost evs = entries_of(self@);
        let start: usize = match code_node_id {
            None => 0,
            Some(id) => match self.position_of(&entries, id) {
                Some(p) => {
                    let total = entries.len();
                    proof { assert(p < total); }
                    p + 1
                },
                None => {
                    return None;
                },
            },
        };
        self.scan_forward_exec(&entries, start)
    }

    /// Moves the selection back to the previous navigatable node.
    pub fn navigate_back_from(&self, code_node_id: Option<ID>) -> (r: Option<ID>)
        ensures
            r == back_view(self@, code_node_id),
    {
        let entries = self.entries();
        let id = match code_node_id {
            Some(id) => id,
            None => {
                return None;
            },
        };
        let pos = match self.position_of(&entries, id) {
            Some(p) => p,
            None => {
                return None;
            },
        };
        if pos == 0 {
            return None;
        }
        self.scan_backward_exec(&entries, pos - 1)
    }

    fn scan_forward_exec(
        &self,
        entries: &Vec<(&'a CodeNode, Option<&'a CodeNode>)>,
        start: usize,
    ) -> (r: Option<ID>)
        requires
            forall|k: int| 0 <= k < entries@.len()
                ==> pair_view(#[trigger] entries@[k]) == entries_of(self@)[k],
            entries@.len() == entries_of(self@).len(),
        ensures
            r == scan_forward(entries_of(self@), start as int),
    {
        let ghost evs = entries_of(self@);
        let mut i: usize = start;
        while i < entries.len()
            invariant
                start <= i,
                evs == entries_of(self@),
                entries@.len() == evs.len(),
                forall|k: int| 0 <= k < entries@.len()
                    ==> pair_view(#[trigger] entries@[k]) == evs[k],
                scan_forward(evs, start as int) == scan_forward(evs, i as int),
            decreases entries@.len() - i,
        {
            let e = entries[i];
            if nav_rule_exec(e.0, e.1) {
                return Some(e.0.id());
            }
            i = i + 1;
        }
        None
    }

    fn scan_backward_exec(
        &self,
        entries: &Vec<(&'a CodeNode, Option<&'a CodeNode>)>,
        start: usize,
    ) -> (r: Option<ID>)
        requires
            forall|k: int| 0 <= k < entries@.len()
                ==> pair_view(#[trigger] entries@[k]) == entries_of(self@)[k],
            entries@.len() == entries_of(self@).len(),
            (start as int) < entries@.len(),
        ensures
            r == scan_backward(entries_of(self@), start as int),
    {
        let ghost evs = entries_of(self@);
        let mut i: usize = start;
        loop
            invariant
                0 <= i <= start,
                (start as int) < evs.len(),
                evs == entries_of(self@),
                entries@.len() == evs.len(),
                forall|k: int| 0 <= k < entries@.len()
                    ==> pair_view(#[trigger] entries@[k]) == evs[k],
                scan_backward(evs, start as int) == scan_backward(evs, i as int),
            ensures
                scan_backward(evs, start as int) == ({
                    let e = entries@[i as int];
                    if nav_rule(pair_view(e).node, pair_view(e).parent) {
                        Some(pair_view(e).node.nid())
                    } else {
                        None
                    }
                }),
                0 <= i < evs.len(),
            decreases i,
        {
            let e = entries[i];
            if nav_rule_exec(e.0, e.1) {
                break;
            }
            if i == 0 {
                proof {
                    assert(scan_backward(evs, -1) is None);
                }
                break;
            }
            i = i - 1;
        }
        let e = entries[i];
        if nav_rule_exec(e.0, e.1) {
            Some(e.0.id())
        } else {
            None
        }
    }

    /// Whether the cursor may land on the node, judged against its parent
    /// in the tree.
    pub fn is_navigatable(&self, code_node: &CodeNode) -> (r: bool)
        ensures
            r == nav_rule(code_node@, parent_view(self@, code_node@.nid())),
    {
        let parent = self.code_genie.find_parent(code_node.id());
        nav_rule_exec(code_node, parent)
    }

    /// The node after the given one in the traversal order.
    pub fn next_node_from(&self, code_node_id: Option<ID>) -> (r: Option<&'a CodeNode>)
        ensures
            match r {
                Some(n) => dfs_next(self@, code_node_id) == Some(n@),
                None => dfs_next(self@, code_node_id) is None,
            },
    {
        let entries = self.entries();
        match code_node_id {
            None => {
                if entries.len() > 0 {
                    let e = entries[0];
                    Some(e.0)
                } else {
                    None
                }
            },
            Some(id) => match self.position_of(&entries, id) {
                Some(p) => {
                    let total = entries.len();
                    proof { assert(p < total); }
                    if p + 1 < total {
                        let e = entries[p + 1];
                        Some(e.0)
                    } else {
                        None
                    }
                },
                None => None,
            },
        }
    }

    /// The node before the given one in the traversal order.
    pub fn prev_node_from(&self, code_node_id: ID) -> (r: Option<&'a CodeNode>)
        ensures
            match r {
                Some(n) => dfs_prev(self@, code_node_id) == Some(n@),
                None => dfs_prev(self@, code_node_id) is None,
            },
    {
        let entries = self.entries();
        match self.position_of(&entries, code_node_id) {
            Some(p) => {
                if p >= 1 {
                    let e = entries[p - 1];
                    Some(e.0)
                } else {
                    None
                }
            },
            None => None,
        }
    }

    /// Moves the selection to the navigatable node at the same offset in
    /// the previous statement of the enclosing block.
    pub fn navigate_up_from(&self, code_node_id: Option<ID>) -> (r: Option<ID>)
        ensures
            r == match code_node_id {
                Some(id) => vertical_view(self@, id, false),
                None => None,
            },
    {
        match code_node_id {
            Some(id) => self.vertical_exec(id, false),
            None => None,
        }
    }

    /// Moves the selection to the navigatable node at the same offset in
    /// the next statement of the enclosing block; with nothing selected,
    /// to the first navigatable node.
    pub fn navigate_down_from(&self, code_node_id: Option<ID>) -> (r: Option<ID>)
        ensures
            r == match code_node_id {
                Some(id) => vertical_view(self@, id, true),
                None => forward_view(self@, None),
            },
    {
        match code_node_id {
            Some(id) => self.vertical_exec(id, true),
            None => self.navigate_forward_from(None),
        }
    }

    /// The executable mirror of [`vertical_view`].
    fn vertical_exec(&self, id: ID, down: bool) -> (r: Option<ID>)
        ensures
            r == vertical_view(self@, id, down),
    {
        let sid = match self.code_genie.find_expression_inside_block_that_contains(id) {
            Some(sid) => sid,
            None => {
                return None;
            },
        };
        let stmt = match self.code_genie.find_node(sid) {
            Some(stmt) => stmt,
            None => {
                return None;
            },
        };
        let block = match self.code_genie.find_parent(sid) {
            Some(block) => block,
            None => {
                return None;
            },
        };
        match block {
            CodeNode::Block(b) => {
                proof {
                    assert(block@ == (NodeView::Block {
                        id: b.id,
                        expressions: node_views(b.expressions@),
                    }));
                    lemma_node_views(b.expressions@);
                }
                let candidates = self.nav_entries_of(stmt, block);
                let ghost filtered = stmt_nav_ids(stmt@, block@);
                let offset = match position_in_entries(&candidates, id, Ghost(filtered)) {
                    Some(o) => o,
                    None => {
                        return None;
                    },
                };
                let pos = match self.code_genie.find_position_in_block(b, sid) {
                    Some(p) => p,
                    None => {
                        return None;
                    },
                };
                let stmt_count = b.expressions.len();
                proof { assert(pos < stmt_count); }
                let target_pos: usize = if down {
                    pos + 1
                } else if pos == 0 {
                    0
                } else {
                    pos - 1
                };
                if target_pos >= stmt_count {
                    return None;
                }
                let target = &b.expressions[target_pos];
                proof {
                    assert(node_view(*target)
                        == block@->Block_expressions[target_pos as int]);
                }
                let picks = self.nav_entries_of(target, block);
                let ghost pvs = stmt_nav_ids(target@, block@);
                if offset < picks.len() {
                    let e = picks[offset];
                    Some(e.0.id())
                } else if picks.len() > 0 {
                    let e = picks[picks.len() - 1];
                    Some(e.0.id())
                } else {
                    None
                }
            },
            _ => None,
        }
    }

    /// The navigatable entries of one statement's subtree, the statement's
    /// parent being the block.
    fn nav_entries_of(
        &self,
        stmt: &'a CodeNode,
        block: &'a CodeNode,
    ) -> (r: Vec<(&'a CodeNode, Option<&'a CodeNode>)>)
        ensures
            r@.len() == stmt_nav_ids(stmt@, block@).len(),
            forall|k: int| 0 <= k < r@.len()
                ==> pair_view(#[trigger] r@[k]) == stmt_nav_ids(stmt@, block@)[k],
    {
        let mut collected: Vec<(&'a CodeNode, Option<&'a CodeNode>)> = Vec::new();
        collect_entries(stmt, Some(block), &mut collected);
        let ghost evs = dfs_entries(stmt@, Some(block@));
        proof {
            assert forall|k: int| 0 <= k < collected@.len()
                implies pair_view(#[trigger] collected@[k]) == evs[k] by {
                assert(pair_view(collected@[0 + k]) == evs[k]);
            }
        }
        let mut r: Vec<(&'a CodeNode, Option<&'a CodeNode>)> = Vec::new();
        let mut i: usize = 0;
        while i < collected.len()
            invariant
                i <= collected@.len(),
                evs == dfs_entries(stmt@, Some(block@)),
                collected@.len() == evs.len(),
                forall|k: int| 0 <= k < collected@.len()
                    ==> pair_view(#[trigger] collected@[k]) == evs[k],
                r@.len() == nav_filter(evs.subrange(0, i as int)).len(),
                forall|k: int| 0 <= k < r@.len()
                    ==> pair_view(#[trigger] r@[k])
                        == nav_filter(evs.subrange(0, i as int))[k],
            decreases collected@.len() - i,
        {
            let ghost prefix = evs.subrange(0, i as int);
            let e = collected[i];
            if nav_rule_exec(e.0, e.1) {
                r.push(e);
            }
            proof {
                assert(evs.subrange(0, (i + 1) as int) =~= prefix.push(evs[i as int]));
                lemma_nav_filter_push(prefix, evs[i as int]);
            }
            i = i + 1;
        }
        proof {
            assert(evs.subrange(0, evs.len() as int) =~= evs);
        }
        r
    }
}

/// The position of the id among a vector of entries that mirrors the
/// given entry sequence.
fn position_in_entries<'a>(
    entries: &Vec<(&'a CodeNode, Option<&'a CodeNode>)>,
    id: ID,
    Ghost(evs): Ghost<Seq<DfsEntry>>,
) -> (r: Option<usize>)
    requires
        entries@.len() == evs.len(),
        forall|k: int| 0 <= k < entries@.len()
            ==> pair_view(#[trigger] entries@[k]) == evs[k],
    ensures
        match r {
            Some(p) => entry_position(evs, id) == Some(p as int)
                && (p as int) < entries@.len(),
            None => entry_position(evs, id) is None,
        },
{
    let mut i: usize = 0;
    while i < entries.len()
        invariant
            i <= entries@.len(),
            entries@.len() == evs.len(),
            forall|k: int| 0 <= k < entries@.len()
                ==> pair_view(#[trigger] entries@[k]) == evs[k],
            forall|k: int| 0 <= k < i ==> (#[trigger] evs[k]).node.nid() != id,
        decreases entries@.len() - i,
    {
        let e = entries[i];
        if e.0.id() == id {
            proof { lemma_entry_position_index(evs, id, i as int); }
            return Some(i);
        }
        i = i + 1;
    }
    proof { lemma_entry_position_none(evs, id); }
    None
}

proof fn lemma_entry_position_index(s: Seq<DfsEntry>, id: ID, j: int)
    requires
        0 <= j < s.len(),
        forall|i: int| 0 <= i < j ==> (#[trigger] s[i]).node.nid() != id,
        s[j].node.nid() == id,
    ensures
        entry_position(s, id) == Some(j),
    decreases s.len(),
{
    if j > 0 {
        let rest = s.subrange(1, s.len() as int);
        assert forall|i: int| 0 <= i < j - 1
            implies (#[trigger] rest[i]).node.nid() != id by {
            assert(rest[i] == s[i + 1]);
        }
        assert(rest[j - 1] == s[j]);
        lemma_entry_position_index(rest, id, j - 1);
    }
}

proof fn lemma_entry_position_none(s: Seq<DfsEntry>, id: ID)
    requires
        forall|i: int| 0 <= i < s.len() ==> (#[trigger] s[i]).node.nid() != id,
    ensures
        entry_position(s, id) is None,
    decreases s.len(),
{
    if s.len() > 0 {
        let rest = s.subrange(1, s.len() as int);
        assert forall|i: int| 0 <= i < rest.len()
            implies (#[trigger] rest[i]).node.nid() != id by {
            assert(rest[i] == s[i + 1]);
        }
        lemma_entry_position_none(rest, id);
    }
}

// ---------------------------------------------------------------------------
// A successful move lands on a navigatable node
// ---------------------------------------------------------------------------

proof fn lemma_scan_forward_navigatable(entries: Seq<DfsEntry>, i: int)
    ensures
        scan_forward(entries, i) matches Some(x) ==> exists|j: int| i <= j < entries.len()
            && nav_rule((#[trigger] entries[j]).node, entries[j].parent)
            && entries[j].node.nid() == x,
    decreases entries.len() - i,
{
    if 0 <= i < entries.len() && !nav_rule(entries[i].node, entries[i].parent) {
        lemma_scan_forward_navigatable(entries, i + 1);
    }
}

proof fn lemma_scan_backward_navigatable(entries: Seq<DfsEntry>, i: int)
    ensures
        scan_backward(entries, i) matches Some(x) ==> exists|j: int| 0 <= j <= i
            && j < entries.len()
            && nav_rule((#[trigger] entries[j]).node, entries[j].parent)
            && entries[j].node.nid() == x,
    decreases i + 1,
{
    if 0 <= i < entries.len() && !nav_rule(entries[i].node, entries[i].parent) {
        lemma_scan_backward_navigatable(entries, i - 1);
    }
}

/// Navigating forward never stops on a non-navigatable node: when a move
/// succeeds, the id it returns is a navigatable node of the traversal.
/// (That the move always terminates is part of its definition: it scans
/// the finite traversal once.)
pub proof fn lemma_forward_finds_navigatable(root: NodeView, from: Option<ID>)
    ensures
        forward_view(root, from) matches Some(x)
            ==> exists|j: int| 0 <= j < entries_of(root).len()
                && nav_rule((#[trigger] entries_of(root)[j]).node, entries_of(root)[j].parent)
                && entries_of(root)[j].node.nid() == x,
{
    let entries = entries_of(root);
    match from {
        None => {
            lemma_scan_forward_navigatable(entries, 0);
        },
        Some(id) => {
            match entry_position(entries, id) {
                Some(p) => {
                    lemma_scan_forward_navigatable(entries, p + 1);
                },
                None => {},
            }
        },
    }
}

/// Navigating back never stops on a non-navigatable node either.
pub proof fn lemma_back_finds_navigatable(root: NodeView, from: Option<ID>)
    ensures
        back_view(root, from) matches Some(x)
            ==> exists|j: int| 0 <= j < entries_of(root).len()
                && nav_rule((#[trigger] entries_of(root)[j]).node, entries_of(root)[j].parent)
                && entries_of(root)[j].node.nid() == x,
{
    let entries = entries_of(root);
    match from {
        None => {},
        Some(id) => {
            match entry_position(entries, id) {
                Some(p) => {
                    lemma_scan_backward_navigatable(entries, p - 1);
                },
                None => {},
            }
        },
    }
}

} // verus!
