//! The mutation engine: structural edits against an insertion point,
//! producing a new tree root, the post-edit cursor placement, and the
//! undo log the editor sessions write through.
//!
//! Every mutation takes the current tree by reference and returns a fresh
//! root; the caller swaps it in.  A mismatch between the insertion point
//! and the tree's shape (a `Before` whose anchor is not a block
//! statement, a hole id that is absent) yields `None` rather than a
//! corrupted tree.
//!
//! [`lemma_round_trip_insert_delete`] proves the round trip: deleting a
//! freshly inserted statement or list element restores the tree exactly.
//! [`lemma_insert_preserves_wf`] and [`lemma_delete_preserves_wf`] prove
//! that both edits keep every id in the tree unique.

use vstd::prelude::*;

use crate::code_editor::InsertionPoint;
use crate::code_genie::{
    lemma_stmt_position_index, lemma_stmt_position_none, stmt_position, CodeGenie,
};
use crate::lang::{
    contains_id, find_view, lemma_contains_decomp, lemma_contains_own_id, lemma_find_contains,
    lemma_found_subtree_contains, lemma_found_wf, lemma_node_views, lemma_parent_absent,
    lemma_parent_after_replace, lemma_parent_found, lemma_parent_list_hit,
    lemma_replace_found, lemma_replace_twice, lemma_wf_children, lemma_wf_compose, node_view,
    node_views, parent_view, replace_view, wf, Block, CodeNode, ListLiteral, NodeView, ID,
};
use crate::undo::{hist_wf, record_spec, redo_spec, undo_spec, CellView, HistView, UndoHistory,
    UndoHistoryCell};

verus! {

// ---------------------------------------------------------------------------
// What an insertion produces
// ---------------------------------------------------------------------------

/// The tree after inserting `n` at the insertion point, if the tree's
/// shape matches the point's assumptions; `None` otherwise.
pub open spec fn insert_code_view(root: NodeView, ip: InsertionPoint, n: NodeView)
    -> Option<NodeView> {
    match ip {
        InsertionPoint::BeginningOfBlock(block_id) => match find_view(root, block_id) {
            Some(b) => match b {
                NodeView::Block { id, expressions } => Some(replace_view(root,
                    NodeView::Block { id, expressions: expressions.insert(0, n) })),
                _ => None,
            },
            None => None,
        },
        InsertionPoint::Before(anchor) => insert_stmt_view(root, anchor, n, 0),
        InsertionPoint::After(anchor) => insert_stmt_view(root, anchor, n, 1),
        InsertionPoint::Argument(arg_id) => match find_view(root, arg_id) {
            Some(a) => match a {
                NodeView::Argument { id, argument_definition_id, .. } =>
                    Some(replace_view(root, NodeView::Argument {
                        id,
                        argument_definition_id,
                        expr: Box::new(n),
                    })),
                _ => None,
            },
            None => None,
        },
        InsertionPoint::StructLiteralField(field_id) => match find_view(root, field_id) {
            Some(f) => match f {
                NodeView::StructLiteralField { id, struct_field_id, .. } =>
                    Some(replace_view(root, NodeView::StructLiteralField {
                        id,
                        struct_field_id,
                        expr: Box::new(n),
                    })),
                _ => None,
            },
            None => None,
        },
        InsertionPoint::ListLiteralElement { list_literal_id, pos } =>
            match find_view(root, list_literal_id) {
                Some(l) => match l {
                    NodeView::ListLiteral { id, element_type, elements } =>
                        if pos <= elements.len() {
                            Some(replace_view(root, NodeView::ListLiteral {
                                id,
                                element_type,
                                elements: elements.insert(pos as int, n),
                            }))
                        } else {
                            None
                        },
                    _ => None,
                },
                None => None,
            },
        InsertionPoint::Editing(_) => None,
    }
}

/// Splicing a new statement into the block around the anchor statement,
/// `delta` (0 or 1) statements after the anchor's position.
pub open spec fn insert_stmt_view(root: NodeView, anchor: ID, n: NodeView, delta: int)
    -> Option<NodeView> {
    match parent_view(root, anchor) {
        Some(p) => match p {
            NodeView::Block { id, expressions } => match stmt_position(expressions, anchor) {
                Some(pos) => Some(replace_view(root, NodeView::Block {
                    id,
                    expressions: expressions.insert(pos + delta, n),
                })),
                None => None,
            },
            _ => None,
        },
        None => None,
    }
}

// ---------------------------------------------------------------------------
// What a deletion produces
// ---------------------------------------------------------------------------

/// The statements that survive deleting the id.
pub open spec fn remove_id(s: Seq<NodeView>, id: ID) -> Seq<NodeView>
    decreases s.len(),
{
    if s.len() == 0 {
        Seq::empty()
    } else if s[0].nid() == id {
        remove_id(s.subrange(1, s.len() as int), id)
    } else {
        seq![s[0]] + remove_id(s.subrange(1, s.len() as int), id)
    }
}

/// The cursor after deleting the statement that stood at `p`: the
/// statement now at `p`, else the one before it, else nothing.
pub open spec fn stmt_cursor(removed: Seq<NodeView>, p: int) -> Option<ID> {
    if 0 <= p < removed.len() {
        Some(removed[p].nid())
    } else if p >= 1 && p - 1 < removed.len() {
        Some(removed[p - 1].nid())
    } else {
        None
    }
}

/// The tree and cursor after deleting the node with the given id.  Only
/// block statements and list elements are independently deletable; in any
/// other position the deletion is a no-op that keeps the given cursor.
pub open spec fn delete_code_view(root: NodeView, id: ID, cursor: Option<ID>)
    -> (NodeView, Option<ID>) {
    match parent_view(root, id) {
        Some(p) => match p {
            NodeView::Block { id: bid, expressions } => match stmt_position(expressions, id) {
                Some(pos) => {
                    let removed = remove_id(expressions, id);
                    (replace_view(root, NodeView::Block { id: bid, expressions: removed }),
                        stmt_cursor(removed, pos))
                },
                None => (root, cursor),
            },
            NodeView::ListLiteral { id: lid, element_type, elements } =>
                match stmt_position(elements, id) {
                    Some(pos) => {
                        let removed = remove_id(elements, id);
                        let c = match stmt_cursor(removed, pos) {
                            Some(c) => Some(c),
                            None => Some(lid),
                        };
                        (replace_view(root, NodeView::ListLiteral {
                            id: lid,
                            element_type,
                            elements: removed,
                        }), c)
                    },
                    None => (root, cursor),
                },
            _ => (root, cursor),
        },
        None => (root, cursor),
    }
}

// ---------------------------------------------------------------------------
// Facts about removal and insertion of statements
// ---------------------------------------------------------------------------

pub proof fn lemma_remove_id_noop(s: Seq<NodeView>, id: ID)
    requires
        forall|k: int| 0 <= k < s.len() ==> (#[trigger] s[k]).nid() != id,
    ensures
        remove_id(s, id) == s,
    decreases s.len(),
{
    if s.len() > 0 {
        let rest = s.subrange(1, s.len() as int);
        assert forall|k: int| 0 <= k < rest.len()
            implies (#[trigger] rest[k]).nid() != id by {
            assert(rest[k] == s[k + 1]);
        }
        lemma_remove_id_noop(rest, id);
        assert(seq![s[0]] + rest =~= s);
    }
}

pub proof fn lemma_remove_id_push(s: Seq<NodeView>, e: NodeView, id: ID)
    ensures
        remove_id(s.push(e), id) == if e.nid() != id {
            remove_id(s, id).push(e)
        } else {
            remove_id(s, id)
        },
    decreases s.len(),
{
    let sp = s.push(e);
    if s.len() == 0 {
        assert(sp[0] == e);
        assert(sp.subrange(1, sp.len() as int) =~= Seq::<NodeView>::empty());
        assert(remove_id(Seq::<NodeView>::empty(), id) == Seq::<NodeView>::empty());
        assert(remove_id(s, id) == Seq::<NodeView>::empty());
        if e.nid() != id {
            assert(remove_id(sp, id) == seq![e] + Seq::<NodeView>::empty());
            assert(seq![e] + Seq::<NodeView>::empty()
                =~= Seq::<NodeView>::empty().push(e));
        }
    } else {
        let rest = s.subrange(1, s.len() as int);
        lemma_remove_id_push(rest, e, id);
        assert(sp[0] == s[0]);
        assert(sp.subrange(1, sp.len() as int) =~= rest.push(e));
        if s[0].nid() != id && e.nid() != id {
            assert(seq![s[0]] + remove_id(rest, id).push(e)
                =~= (seq![s[0]] + remove_id(rest, id)).push(e));
        }
    }
}

/// Inserting a statement with a fresh id and then removing that id puts
/// the statement list back.
pub proof fn lemma_remove_insert(s: Seq<NodeView>, off: int, n: NodeView, id: ID)
    requires
        forall|k: int| 0 <= k < s.len() ==> (#[trigger] s[k]).nid() != id,
        n.nid() == id,
        0 <= off <= s.len(),
    ensures
        remove_id(s.insert(off, n), id) == s,
    decreases off,
{
    let sp = s.insert(off, n);
    if off == 0 {
        assert(sp[0] == n);
        assert(sp.subrange(1, sp.len() as int) =~= s);
        lemma_remove_id_noop(s, id);
    } else {
        let rest = s.subrange(1, s.len() as int);
        assert forall|k: int| 0 <= k < rest.len()
            implies (#[trigger] rest[k]).nid() != id by {
            assert(rest[k] == s[k + 1]);
        }
        lemma_remove_insert(rest, off - 1, n, id);
        assert(sp[0] == s[0]);
        assert(sp.subrange(1, sp.len() as int) =~= rest.insert(off - 1, n));
        assert(seq![s[0]] + rest =~= s);
    }
}

// ---------------------------------------------------------------------------
// The round trip
// ---------------------------------------------------------------------------

/// Round-trip insert/delete.  For a well-formed tree, a statement or
/// list-element insertion point the tree's shape accepts, and a node
/// whose ids are all fresh, deleting the inserted node's id restores the
/// tree exactly.  (Filling a hole — an `Argument` or
/// `StructLiteralField` point — is not a round trip: a hole is refilled,
/// never deleted, so deletion there is a no-op.)
pub proof fn lemma_round_trip_insert_delete(
    root: NodeView,
    ip: InsertionPoint,
    n: NodeView,
    cursor: Option<ID>,
)
    requires
        wf(root),
        forall|id: ID| #[trigger] contains_id(n, id) ==> !contains_id(root, id),
        ip matches InsertionPoint::BeginningOfBlock(_)
            || ip matches InsertionPoint::Before(_)
            || ip matches InsertionPoint::After(_)
            || ip matches InsertionPoint::ListLiteralElement { .. },
        insert_code_view(root, ip, n) is Some,
    ensures
        delete_code_view(insert_code_view(root, ip, n).unwrap(), n.nid(), cursor).0 == root,
{
    lemma_contains_own_id(n);
    match ip {
        InsertionPoint::BeginningOfBlock(block_id) => {
            let b = find_view(root, block_id).unwrap();
            lemma_find_contains(root, block_id);
            lemma_round_trip_block(root, b, 0, n, cursor);
        },
        InsertionPoint::Before(anchor) => {
            let b = parent_view(root, anchor).unwrap();
            lemma_parent_found(root, anchor);
            let pos = stmt_position(b->Block_expressions, anchor).unwrap();
            lemma_stmt_position_bounds(b->Block_expressions, anchor);
            lemma_round_trip_block(root, b, pos, n, cursor);
        },
        InsertionPoint::After(anchor) => {
            let b = parent_view(root, anchor).unwrap();
            lemma_parent_found(root, anchor);
            let pos = stmt_position(b->Block_expressions, anchor).unwrap();
            lemma_stmt_position_bounds(b->Block_expressions, anchor);
            lemma_round_trip_block(root, b, pos + 1, n, cursor);
        },
        InsertionPoint::ListLiteralElement { list_literal_id, pos } => {
            let l = find_view(root, list_literal_id).unwrap();
            lemma_find_contains(root, list_literal_id);
            lemma_round_trip_list(root, l, pos as int, n, cursor);
        },
        _ => {},
    }
}

/// Bounds of a found statement position.
pub proof fn lemma_stmt_position_bounds(s: Seq<NodeView>, id: ID)
    ensures
        stmt_position(s, id) matches Some(p) ==> 0 <= p < s.len() && s[p].nid() == id
            && (forall|k: int| 0 <= k < p ==> (#[trigger] s[k]).nid() != id),
    decreases s.len(),
{
    if s.len() > 0 && s[0].nid() != id {
        let rest = s.subrange(1, s.len() as int);
        lemma_stmt_position_bounds(rest, id);
        if stmt_position(s, id) is Some {
            let p = stmt_position(s, id).unwrap();
            assert(stmt_position(rest, id) == Some(p - 1));
            assert(s[p] == rest[p - 1]);
            assert forall|k: int| 0 <= k < p implies (#[trigger] s[k]).nid() != id by {
                if k > 0 {
                    assert(rest[k - 1] == s[k]);
                }
            }
        }
    }
}

/// The round trip through a block: insert a fresh statement at `off`,
/// delete it again, get the original tree back.
proof fn lemma_round_trip_block(
    root: NodeView,
    b: NodeView,
    off: int,
    n: NodeView,
    cursor: Option<ID>,
)
    requires
        wf(root),
        forall|id: ID| #[trigger] contains_id(n, id) ==> !contains_id(root, id),
        b is Block,
        find_view(root, b.nid()) == Some(b),
        contains_id(root, b.nid()),
        0 <= off <= b->Block_expressions.len(),
    ensures
        ({
            let b2 = NodeView::Block {
                id: b->Block_id,
                expressions: b->Block_expressions.insert(off, n),
            };
            delete_code_view(replace_view(root, b2), n.nid(), cursor).0 == root
        }),
{
    let bid = b->Block_id;
    let exprs = b->Block_expressions;
    let exprs2 = exprs.insert(off, n);
    let b2 = NodeView::Block { id: bid, expressions: exprs2 };
    let root2 = replace_view(root, b2);
    lemma_contains_own_id(b);
    lemma_contains_own_id(n);
    assert(b.nid() == bid);
    assert(b2.nid() == bid);

    // every old statement's ids live in the original tree, so they differ
    // from every id of n
    lemma_found_subtree_contains(root, bid);
    lemma_contains_in_block(b);
    assert forall|k: int| 0 <= k < exprs.len()
        implies !contains_id(#[trigger] exprs[k], n.nid()) && exprs[k].nid() != n.nid() by {
        if contains_id(exprs[k], n.nid()) {
            assert(contains_id(b, n.nid()));
            assert(contains_id(root, n.nid()));
        }
        lemma_contains_own_id(exprs[k]);
    }
    assert(!contains_id(root, n.nid()));
    assert(bid != n.nid());

    // n sits at `off` inside b2, so b2 is its parent
    assert(b2.child_seq() == exprs2);
    assert(exprs2[off] == n);
    assert forall|k: int| 0 <= k < off
        implies (#[trigger] exprs2[k]).nid() != n.nid()
            && parent_view(exprs2[k], n.nid()) is None by {
        assert(exprs2[k] == exprs[k]);
        lemma_parent_absent(exprs[k], n.nid());
    }
    lemma_parent_list_hit(b2, exprs2, n.nid(), off);
    assert(parent_view(b2, n.nid()) == Some(b2));

    // b2 carries n, so after the replacement n's parent is b2
    assert(contains_id(b2, n.nid())) by {
        lemma_contains_decomp(b2, n.nid());
    }
    lemma_parent_after_replace(root, b2, n.nid());
    assert(parent_view(root2, n.nid()) == Some(b2));

    // the deletion finds n at `off` and removes exactly it
    lemma_stmt_position_index(exprs2, n.nid(), off);
    lemma_remove_insert(exprs, off, n, n.nid());
    assert(remove_id(exprs2, n.nid()) == exprs);
    assert((NodeView::Block { id: bid, expressions: exprs }) == b);

    // replacing b2 by b restores the original tree
    lemma_replace_twice(root, b2, b);
    lemma_replace_found(root, bid);
    assert(delete_code_view(root2, n.nid(), cursor).0 == replace_view(root2, b));
    assert(replace_view(root2, b) == replace_view(root, b));
}

/// The round trip through a list literal, by the same argument.
proof fn lemma_round_trip_list(
    root: NodeView,
    l: NodeView,
    off: int,
    n: NodeView,
    cursor: Option<ID>,
)
    requires
        wf(root),
        forall|id: ID| #[trigger] contains_id(n, id) ==> !contains_id(root, id),
        l is ListLiteral,
        find_view(root, l.nid()) == Some(l),
        contains_id(root, l.nid()),
        0 <= off <= l->ListLiteral_elements.len(),
    ensures
        ({
            let l2 = NodeView::ListLiteral {
                id: l->ListLiteral_id,
                element_type: l->ListLiteral_element_type,
                elements: l->ListLiteral_elements.insert(off, n),
            };
            delete_code_view(replace_view(root, l2), n.nid(), cursor).0 == root
        }),
{
    let lid = l->ListLiteral_id;
    let elems = l->ListLiteral_elements;
    let elems2 = elems.insert(off, n);
    let l2 = NodeView::ListLiteral {
        id: lid,
        element_type: l->ListLiteral_element_type,
        elements: elems2,
    };
    let root2 = replace_view(root, l2);
    lemma_contains_own_id(l);
    lemma_contains_own_id(n);

    lemma_found_subtree_contains(root, lid);
    lemma_contains_in_block(l);
    assert forall|k: int| 0 <= k < elems.len()
        implies !contains_id(#[trigger] elems[k], n.nid()) && elems[k].nid() != n.nid() by {
        if contains_id(elems[k], n.nid()) {
            assert(contains_id(l, n.nid()));
            assert(contains_id(root, n.nid()));
        }
        lemma_contains_own_id(elems[k]);
    }
    assert(!contains_id(root, n.nid()));
    assert(lid != n.nid());

    assert(l2.child_seq() == elems2);
    assert(elems2[off] == n);
    assert forall|k: int| 0 <= k < off
        implies (#[trigger] elems2[k]).nid() != n.nid()
            && parent_view(elems2[k], n.nid()) is None by {
        assert(elems2[k] == elems[k]);
        lemma_parent_absent(elems[k], n.nid());
    }
    lemma_parent_list_hit(l2, elems2, n.nid(), off);
    assert(parent_view(l2, n.nid()) == Some(l2));

    assert(contains_id(l2, n.nid())) by {
        lemma_contains_decomp(l2, n.nid());
    }
    lemma_parent_after_replace(root, l2, n.nid());
    assert(parent_view(root2, n.nid()) == Some(l2));

    lemma_stmt_position_index(elems2, n.nid(), off);
    lemma_remove_insert(elems, off, n, n.nid());
    assert(remove_id(elems2, n.nid()) == elems);
    assert((NodeView::ListLiteral {
        id: lid,
        element_type: l->ListLiteral_element_type,
        elements: elems,
    }) == l);

    lemma_replace_twice(root, l2, l);
    lemma_replace_found(root, lid);
    assert(delete_code_view(root2, n.nid(), cursor).0 == replace_view(root2, l));
    assert(replace_view(root2, l) == replace_view(root, l));
}

/// The spine of the well-formedness argument: replacing a found
/// container by a copy whose child list gains the fresh node `n` at one
/// position leaves the tree well formed.
proof fn lemma_fresh_splice_ok(root: NodeView, x: NodeView, y: NodeView, off: int,
    n: NodeView)
    requires
        wf(root),
        wf(n),
        forall|id: ID| #[trigger] contains_id(n, id) ==> !contains_id(root, id),
        contains_id(root, x.nid()),
        find_view(root, x.nid()) == Some(x),
        y.nid() == x.nid(),
        0 <= off <= x.child_seq().len(),
        y.child_seq() == x.child_seq().insert(off, n),
    ensures
        wf(replace_view(root, y)),
        forall|id: ID| #[trigger] contains_id(replace_view(root, y), id)
            ==> contains_id(root, id) || contains_id(y, id),
{
    lemma_found_wf(root, x.nid());
    lemma_wf_children(x);
    lemma_found_subtree_contains(root, x.nid());
    lemma_contains_own_id(x);
    lemma_contains_own_id(n);
    let xcs = x.child_seq();
    let ycs = y.child_seq();
    xcs.insert_ensures(off, n);

    // the old children carry ids of the tree; n's ids are fresh
    assert forall|m: int, id: ID| 0 <= m < xcs.len()
        && #[trigger] contains_id(xcs[m], id)
        implies contains_id(root, id) by {
        lemma_contains_decomp(x, id);
    }
    assert forall|i: int| 0 <= i < ycs.len() implies wf(#[trigger] ycs[i]) by {
        if i < off {
            assert(ycs[i] == xcs[i]);
        } else if i > off {
            assert(ycs[i] == xcs[i - 1]);
        }
    }
    assert forall|i: int, k: int, id: ID| 0 <= i < k < ycs.len()
        && #[trigger] contains_id(ycs[i], id)
        implies !(#[trigger] contains_id(ycs[k], id)) by {
        if contains_id(ycs[k], id) {
            if i == off {
                // n against an old child
                let km: int = if k < off { k } else { k - 1 };
                assert(ycs[k] == xcs[km]);
                assert(contains_id(root, id));
            } else if k == off {
                let im: int = if i < off { i } else { i - 1 };
                assert(ycs[i] == xcs[im]);
                assert(contains_id(root, id));
            } else {
                let im: int = if i < off { i } else { i - 1 };
                let km: int = if k < off { k } else { k - 1 };
                assert(ycs[i] == xcs[im] && ycs[k] == xcs[km]);
                assert(im < km);
                assert(!contains_id(xcs[km], id));
            }
        }
    }
    assert forall|i: int| 0 <= i < ycs.len()
        implies !contains_id(#[trigger] ycs[i], y.nid()) by {
        if contains_id(ycs[i], y.nid()) {
            if i == off {
                assert(contains_id(n, x.nid()));
                assert(!contains_id(root, x.nid()));
            } else {
                let im: int = if i < off { i } else { i - 1 };
                assert(ycs[i] == xcs[im]);
            }
        }
    }
    lemma_wf_compose(y);
    assert forall|id: ID| #[trigger] contains_id(y, id)
        implies contains_id(find_view(root, y.nid()).unwrap(), id)
            || !contains_id(root, id) by {
        lemma_contains_decomp(y, id);
        if y.nid() != id {
            let i = choose|i: int| 0 <= i < ycs.len()
                && contains_id(#[trigger] ycs[i], id);
            if i != off {
                let im: int = if i < off { i } else { i - 1 };
                assert(ycs[i] == xcs[im]);
                lemma_contains_decomp(x, id);
                assert(contains_id(x, id));
            }
        }
    }
    crate::lang::lemma_replace_preserves_wf(root, y);
}

/// The hole-filling counterpart: the found hole keeps its id and swaps
/// its single child for the fresh node.
proof fn lemma_fresh_swap_ok(root: NodeView, x: NodeView, y: NodeView, n: NodeView)
    requires
        wf(root),
        wf(n),
        forall|id: ID| #[trigger] contains_id(n, id) ==> !contains_id(root, id),
        contains_id(root, x.nid()),
        find_view(root, x.nid()) == Some(x),
        y.nid() == x.nid(),
        y.child_seq() == seq![n],
    ensures
        wf(replace_view(root, y)),
        forall|id: ID| #[trigger] contains_id(replace_view(root, y), id)
            ==> contains_id(root, id) || contains_id(y, id),
{
    lemma_found_wf(root, x.nid());
    lemma_found_subtree_contains(root, x.nid());
    lemma_contains_own_id(x);
    lemma_contains_own_id(n);
    let ycs = y.child_seq();
    assert(ycs[0] == n);
    assert forall|i: int| 0 <= i < ycs.len()
        implies !contains_id(#[trigger] ycs[i], y.nid()) by {
        if contains_id(ycs[i], y.nid()) {
            assert(!contains_id(root, x.nid()));
        }
    }
    lemma_wf_compose(y);
    assert forall|id: ID| #[trigger] contains_id(y, id)
        implies contains_id(find_view(root, y.nid()).unwrap(), id)
            || !contains_id(root, id) by {
        lemma_contains_decomp(y, id);
    }
    crate::lang::lemma_replace_preserves_wf(root, y);
}

/// Inserting a node whose ids are all fresh keeps the tree well formed,
/// and adds no ids beyond the fresh ones: the identity scheme survives
/// every insertion.
pub proof fn lemma_insert_preserves_wf(root: NodeView, ip: InsertionPoint, n: NodeView)
    requires
        wf(root),
        wf(n),
        forall|id: ID| #[trigger] contains_id(n, id) ==> !contains_id(root, id),
        insert_code_view(root, ip, n) is Some,
    ensures
        wf(insert_code_view(root, ip, n).unwrap()),
        forall|id: ID| #[trigger] contains_id(insert_code_view(root, ip, n).unwrap(), id)
            ==> contains_id(root, id) || contains_id(n, id),
{
    lemma_contains_own_id(n);
    match ip {
        InsertionPoint::BeginningOfBlock(block_id) => {
            let b = find_view(root, block_id).unwrap();
            lemma_find_contains(root, block_id);
            let y = NodeView::Block {
                id: b->Block_id,
                expressions: b->Block_expressions.insert(0, n),
            };
            assert(y.child_seq() == b.child_seq().insert(0, n));
            lemma_fresh_splice_ok(root, b, y, 0, n);
            lemma_insert_ids(root, b, y, n);
        },
        InsertionPoint::Before(anchor) => {
            let b = parent_view(root, anchor).unwrap();
            lemma_parent_found(root, anchor);
            let pos = stmt_position(b->Block_expressions, anchor).unwrap();
            lemma_stmt_position_bounds(b->Block_expressions, anchor);
            let y = NodeView::Block {
                id: b->Block_id,
                expressions: b->Block_expressions.insert(pos, n),
            };
            assert(y.child_seq() == b.child_seq().insert(pos, n));
            lemma_fresh_splice_ok(root, b, y, pos, n);
            lemma_insert_ids(root, b, y, n);
        },
        InsertionPoint::After(anchor) => {
            let b = parent_view(root, anchor).unwrap();
            lemma_parent_found(root, anchor);
            let pos = stmt_position(b->Block_expressions, anchor).unwrap();
            lemma_stmt_position_bounds(b->Block_expressions, anchor);
            let y = NodeView::Block {
                id: b->Block_id,
                expressions: b->Block_expressions.insert(pos + 1, n),
            };
            assert(y.child_seq() == b.child_seq().insert(pos + 1, n));
            lemma_fresh_splice_ok(root, b, y, pos + 1, n);
            lemma_insert_ids(root, b, y, n);
        },
        InsertionPoint::ListLiteralElement { list_literal_id, pos } => {
            let l = find_view(root, list_literal_id).unwrap();
            lemma_find_contains(root, list_literal_id);
            let y = NodeView::ListLiteral {
                id: l->ListLiteral_id,
                element_type: l->ListLiteral_element_type,
                elements: l->ListLiteral_elements.insert(pos as int, n),
            };
            assert(y.child_seq() == l.child_seq().insert(pos as int, n));
            lemma_fresh_splice_ok(root, l, y, pos as int, n);
            lemma_insert_ids(root, l, y, n);
        },
        InsertionPoint::Argument(arg_id) => {
            let a = find_view(root, arg_id).unwrap();
            lemma_find_contains(root, arg_id);
            let y = NodeView::Argument {
                id: a->Argument_id,
                argument_definition_id: a->Argument_argument_definition_id,
                expr: Box::new(n),
            };
            assert(y.child_seq() =~= seq![n]);
            lemma_fresh_swap_ok(root, a, y, n);
            lemma_insert_ids(root, a, y, n);
        },
        InsertionPoint::StructLiteralField(field_id) => {
            let f = find_view(root, field_id).unwrap();
            lemma_find_contains(root, field_id);
            let y = NodeView::StructLiteralField {
                id: f->StructLiteralField_id,
                struct_field_id: f->StructLiteralField_struct_field_id,
                expr: Box::new(n),
            };
            assert(y.child_seq() =~= seq![n]);
            lemma_fresh_swap_ok(root, f, y, n);
            lemma_insert_ids(root, f, y, n);
        },
        InsertionPoint::Editing(_) => {},
    }
}

/// Deleting a node keeps the tree well formed and introduces no ids:
/// the survivors of the container's child list are a subsequence of what
/// stood there.
pub proof fn lemma_delete_preserves_wf(root: NodeView, id: ID, cursor: Option<ID>)
    requires
        wf(root),
    ensures
        wf(delete_code_view(root, id, cursor).0),
        forall|id2: ID| #[trigger] contains_id(delete_code_view(root, id, cursor).0, id2)
            ==> contains_id(root, id2),
{
    match parent_view(root, id) {
        Some(p) => {
            lemma_parent_found(root, id);
            match p {
                NodeView::Block { id: bid, expressions } => {
                    match stmt_position(expressions, id) {
                        Some(pos) => {
                            let removed = remove_id(expressions, id);
                            let y = NodeView::Block { id: bid, expressions: removed };
                            lemma_pruned_ok(root, p, y, id, cursor);
                        },
                        None => {},
                    }
                },
                NodeView::ListLiteral { id: lid, element_type, elements } => {
                    match stmt_position(elements, id) {
                        Some(pos) => {
                            let removed = remove_id(elements, id);
                            let y = NodeView::ListLiteral {
                                id: lid,
                                element_type,
                                elements: removed,
                            };
                            lemma_pruned_ok(root, p, y, id, cursor);
                        },
                        None => {},
                    }
                },
                _ => {},
            }
        },
        None => {},
    }
}

/// Every survivor of a removal stood in the source list.
proof fn lemma_remove_id_source(s: Seq<NodeView>, id: ID)
    ensures
        forall|k: int| #![trigger remove_id(s, id)[k]] 0 <= k < remove_id(s, id).len()
            ==> exists|m: int| 0 <= m < s.len() && #[trigger] s[m] == remove_id(s, id)[k],
    decreases s.len(),
{
    if s.len() > 0 {
        let rest = s.subrange(1, s.len() as int);
        lemma_remove_id_source(rest, id);
        assert forall|k: int| #![trigger remove_id(s, id)[k]]
            0 <= k < remove_id(s, id).len()
            implies exists|m: int| 0 <= m < s.len()
                && #[trigger] s[m] == remove_id(s, id)[k] by {
            if s[0].nid() == id {
                assert(remove_id(s, id)[k] == remove_id(rest, id)[k]);
                let m = choose|m: int| 0 <= m < rest.len()
                    && #[trigger] rest[m] == remove_id(rest, id)[k];
                assert(s[m + 1] == remove_id(s, id)[k]);
            } else {
                if k == 0 {
                    assert(s[0] == remove_id(s, id)[0]);
                } else {
                    assert(remove_id(s, id)[k] == remove_id(rest, id)[k - 1]);
                    let m = choose|m: int| 0 <= m < rest.len()
                        && #[trigger] rest[m] == remove_id(rest, id)[k - 1];
                    assert(s[m + 1] == remove_id(s, id)[k]);
                }
            }
        }
    }
}

/// Replacing a container of a well-formed tree by a copy whose children
/// are drawn from the old children, each position from a distinct old
/// position, keeps the tree well formed and introduces no ids.
proof fn lemma_pruned_ok(root: NodeView, x: NodeView, y: NodeView, removed_id: ID,
    cursor: Option<ID>)
    requires
        wf(root),
        contains_id(root, x.nid()),
        find_view(root, x.nid()) == Some(x),
        y.nid() == x.nid(),
        (x is Block && y is Block
            && y->Block_expressions == remove_id(x->Block_expressions, removed_id))
            || (x is ListLiteral && y is ListLiteral
                && y->ListLiteral_element_type == x->ListLiteral_element_type
                && y->ListLiteral_elements
                    == remove_id(x->ListLiteral_elements, removed_id)),
    ensures
        wf(replace_view(root, y)),
        forall|id2: ID| #[trigger] contains_id(replace_view(root, y), id2)
            ==> contains_id(root, id2),
{
    lemma_found_wf(root, x.nid());
    lemma_wf_children(x);
    lemma_found_subtree_contains(root, x.nid());
    lemma_contains_own_id(x);
    let xcs = x.child_seq();
    let ycs = y.child_seq();
    assert(ycs == remove_id(xcs, removed_id));
    lemma_remove_id_source(xcs, removed_id);
    lemma_remove_positions(xcs, removed_id);

    assert forall|i: int| 0 <= i < ycs.len() implies wf(#[trigger] ycs[i]) by {
        let m = choose|m: int| 0 <= m < xcs.len() && #[trigger] xcs[m] == ycs[i];
    }
    assert forall|i: int, k: int, id2: ID| 0 <= i < k < ycs.len()
        && #[trigger] contains_id(ycs[i], id2)
        implies !(#[trigger] contains_id(ycs[k], id2)) by {
        if contains_id(ycs[k], id2) {
            let mi = position_source(xcs, removed_id, i);
            let mk = position_source(xcs, removed_id, k);
            assert(xcs[mi] == ycs[i] && xcs[mk] == ycs[k]);
            assert(mi < mk);
            assert(!contains_id(xcs[mk], id2));
        }
    }
    assert forall|i: int| 0 <= i < ycs.len()
        implies !contains_id(#[trigger] ycs[i], y.nid()) by {
        let m = choose|m: int| 0 <= m < xcs.len() && #[trigger] xcs[m] == ycs[i];
    }
    lemma_wf_compose(y);
    assert forall|id2: ID| #[trigger] contains_id(y, id2)
        implies contains_id(find_view(root, y.nid()).unwrap(), id2)
            || !contains_id(root, id2) by {
        lemma_contains_decomp(y, id2);
        if y.nid() != id2 {
            let i = choose|i: int| 0 <= i < ycs.len()
                && contains_id(#[trigger] ycs[i], id2);
            let m = choose|m: int| 0 <= m < xcs.len() && #[trigger] xcs[m] == ycs[i];
            lemma_contains_decomp(x, id2);
            assert(contains_id(x, id2));
        }
    }
    crate::lang::lemma_replace_preserves_wf(root, y);
    assert forall|id2: ID| #[trigger] contains_id(replace_view(root, y), id2)
        implies contains_id(root, id2) by {
        if contains_id(y, id2) {
            lemma_contains_decomp(y, id2);
            if y.nid() != id2 {
                let i = choose|i: int| 0 <= i < ycs.len()
                    && contains_id(#[trigger] ycs[i], id2);
                let m = choose|m: int| 0 <= m < xcs.len() && #[trigger] xcs[m] == ycs[i];
                lemma_contains_decomp(x, id2);
            }
        }
    }
}

/// The source position of each survivor of a removal: strictly
/// increasing in the survivor's position.
spec fn position_source(s: Seq<NodeView>, id: ID, k: int) -> int
    decreases s.len(),
{
    if s.len() == 0 {
        0
    } else if s[0].nid() == id {
        1 + position_source(s.subrange(1, s.len() as int), id, k)
    } else if k == 0 {
        0
    } else {
        1 + position_source(s.subrange(1, s.len() as int), id, k - 1)
    }
}

proof fn lemma_remove_positions(s: Seq<NodeView>, id: ID)
    ensures
        forall|k: int| #![trigger position_source(s, id, k)]
            0 <= k < remove_id(s, id).len() ==> {
            let m = position_source(s, id, k);
            0 <= m < s.len() && s[m] == remove_id(s, id)[k]
        },
        forall|i: int, k: int|
            #![trigger position_source(s, id, i), position_source(s, id, k)]
            0 <= i < k < remove_id(s, id).len()
            ==> position_source(s, id, i) < position_source(s, id, k),
    decreases s.len(),
{
    if s.len() > 0 {
        let rest = s.subrange(1, s.len() as int);
        lemma_remove_positions(rest, id);
        assert forall|k: int| #![trigger position_source(s, id, k)]
            0 <= k < remove_id(s, id).len() implies {
            let m = position_source(s, id, k);
            0 <= m < s.len() && s[m] == remove_id(s, id)[k]
        } by {
            if s[0].nid() == id {
                assert(remove_id(s, id)[k] == remove_id(rest, id)[k]);
                assert(position_source(rest, id, k) < rest.len());
                assert(s[1 + position_source(rest, id, k)]
                    == rest[position_source(rest, id, k)]);
            } else if k > 0 {
                assert(remove_id(s, id)[k] == remove_id(rest, id)[k - 1]);
                assert(position_source(rest, id, k - 1) < rest.len());
                assert(s[1 + position_source(rest, id, k - 1)]
                    == rest[position_source(rest, id, k - 1)]);
            }
        }
        assert forall|i: int, k: int|
            #![trigger position_source(s, id, i), position_source(s, id, k)]
            0 <= i < k < remove_id(s, id).len()
            implies position_source(s, id, i) < position_source(s, id, k) by {
            if s[0].nid() == id {
                assert(position_source(rest, id, i) < position_source(rest, id, k));
            } else if i > 0 {
                assert(position_source(rest, id, i - 1)
                    < position_source(rest, id, k - 1));
            }
        }
    }
}

/// An id of the rebuilt container is an id of the tree or of the fresh
/// node.
proof fn lemma_insert_ids(root: NodeView, x: NodeView, y: NodeView, n: NodeView)
    requires
        contains_id(root, x.nid()),
        find_view(root, x.nid()) == Some(x),
        y.nid() == x.nid(),
        forall|i: int| 0 <= i < y.child_seq().len()
            ==> (#[trigger] y.child_seq()[i]) == n
                || (exists|m: int| 0 <= m < x.child_seq().len()
                    && #[trigger] x.child_seq()[m] == y.child_seq()[i]),
    ensures
        forall|id: ID| #[trigger] contains_id(y, id)
            ==> contains_id(root, id) || contains_id(n, id),
{
    lemma_found_subtree_contains(root, x.nid());
    assert forall|id: ID| #[trigger] contains_id(y, id)
        implies contains_id(root, id) || contains_id(n, id) by {
        lemma_contains_decomp(y, id);
        if y.nid() == id {
        } else {
            let i = choose|i: int| 0 <= i < y.child_seq().len()
                && contains_id(#[trigger] y.child_seq()[i], id);
            if y.child_seq()[i] != n {
                let m = choose|m: int| 0 <= m < x.child_seq().len()
                    && #[trigger] x.child_seq()[m] == y.child_seq()[i];
                lemma_contains_decomp(x, id);
                assert(contains_id(x, id));
            }
        }
    }
}

/// A child's whole id set sits inside the node that owns it.
proof fn lemma_contains_in_block(t: NodeView)
    ensures
        forall|k: int, y: ID| 0 <= k < t.child_seq().len()
            && #[trigger] contains_id(t.child_seq()[k], y) ==> contains_id(t, y),
{
    assert forall|k: int, y: ID| 0 <= k < t.child_seq().len()
        && #[trigger] contains_id(t.child_seq()[k], y) implies contains_id(t, y) by {
        lemma_contains_decomp(t, y);
    }
}

// ---------------------------------------------------------------------------
// Executable statement-list surgery
// ---------------------------------------------------------------------------

/// A copy of the list with `n` spliced in at `off`.
fn inserted_nodes(items: &Vec<CodeNode>, off: usize, n: &CodeNode) -> (r: Vec<CodeNode>)
    requires
        off <= items@.len(),
    ensures
        node_views(r@) == node_views(items@).insert(off as int, n@),
{
    let ghost vs = node_views(items@);
    proof { lemma_node_views(items@); }
    let mut r: Vec<CodeNode> = Vec::new();
    let mut i: usize = 0;
    while i < off
        invariant
            i <= off,
            off <= items@.len(),
            vs == node_views(items@),
            vs.len() == items@.len(),
            forall|k: int| 0 <= k < vs.len() ==> vs[k] == node_view(items@[k]),
            r@.len() == i,
            forall|k: int| 0 <= k < i ==> node_view(#[trigger] r@[k]) == vs[k],
        decreases off - i,
    {
        r.push(items[i].duplicate());
        i = i + 1;
    }
    r.push(n.duplicate());
    let mut j: usize = off;
    while j < items.len()
        invariant
            off <= j <= items@.len(),
            vs == node_views(items@),
            vs.len() == items@.len(),
            forall|k: int| 0 <= k < vs.len() ==> vs[k] == node_view(items@[k]),
            r@.len() == j + 1,
            forall|k: int| 0 <= k < off ==> node_view(#[trigger] r@[k]) == vs[k],
            node_view(r@[off as int]) == n@,
            forall|k: int| off < k <= j ==> node_view(#[trigger] r@[k]) == vs[k - 1],
        decreases items@.len() - j,
    {
        r.push(items[j].duplicate());
        j = j + 1;
    }
    proof {
        lemma_node_views(r@);
        vs.insert_ensures(off as int, n@);
        let target = vs.insert(off as int, n@);
        assert(node_views(r@).len() == target.len());
        assert forall|k: int| 0 <= k < target.len()
            implies node_views(r@)[k] == target[k] by {
            assert(node_views(r@)[k] == node_view(r@[k]));
            if k < off {
                assert(target[k] == vs[k]);
            } else if k == off {
                assert(target[k] == n@);
            } else {
                assert(target[k] == vs[k - 1]);
            }
        }
        assert(node_views(r@) =~= target);
    }
    r
}

/// A copy of the list without the elements that carry the id.
fn removed_nodes(items: &Vec<CodeNode>, id: ID) -> (r: Vec<CodeNode>)
    ensures
        node_views(r@) == remove_id(node_views(items@), id),
{
    let ghost vs = node_views(items@);
    proof { lemma_node_views(items@); }
    let mut r: Vec<CodeNode> = Vec::new();
    let mut i: usize = 0;
    while i < items.len()
        invariant
            i <= items@.len(),
            vs == node_views(items@),
            vs.len() == items@.len(),
            forall|k: int| 0 <= k < vs.len() ==> vs[k] == node_view(items@[k]),
            r@.len() == remove_id(vs.subrange(0, i as int), id).len(),
            forall|k: int| 0 <= k < r@.len()
                ==> node_view(#[trigger] r@[k]) == remove_id(vs.subrange(0, i as int), id)[k],
        decreases items@.len() - i,
    {
        let ghost prefix = vs.subrange(0, i as int);
        if items[i].id() != id {
            let dup = items[i].duplicate();
            r.push(dup);
        }
        proof {
            assert(vs.subrange(0, (i + 1) as int) =~= prefix.push(vs[i as int]));
            lemma_remove_id_push(prefix, vs[i as int], id);
        }
        i = i + 1;
    }
    proof {
        assert(vs.subrange(0, vs.len() as int) =~= vs);
        lemma_node_views(r@);
        assert forall|k: int| 0 <= k < r@.len()
            implies node_views(r@)[k] == remove_id(vs, id)[k] by {
            assert(node_views(r@)[k] == node_view(r@[k]));
            assert(node_view(r@[k]) == remove_id(vs.subrange(0, vs.len() as int), id)[k]);
        }
        assert(node_views(r@) =~= remove_id(vs, id));
    }
    r
}

// ---------------------------------------------------------------------------
// The mutation master
// ---------------------------------------------------------------------------

/// A deletion's outcome: the new tree root and the cursor to select.
pub struct DeletionResult {
    pub new_root: CodeNode,
    pub new_cursor_position: Option<ID>,
}

impl DeletionResult {
    /// Wraps a new root and cursor.
    pub fn new(new_root: CodeNode, new_cursor_position: Option<ID>) -> (r: DeletionResult)
        ensures
            r.new_root@ == new_root@,
            r.new_cursor_position == new_cursor_position,
    {
        DeletionResult { new_root, new_cursor_position }
    }
}

/// The mutation engine: performs insertions and deletions against a
/// genie's tree and writes the undo history.
pub struct MutationMaster {
    history: UndoHistory,
}

impl View for MutationMaster {
    type V = HistView;

    closed spec fn view(&self) -> HistView {
        self.history@
    }
}

impl MutationMaster {
    /// A fresh engine with an empty history.
    pub fn new() -> (r: MutationMaster)
        ensures
            r@.log == Seq::<CellView>::empty(),
            r@.index == 0,
            hist_wf(r@),
    {
        MutationMaster { history: UndoHistory::new() }
    }

    /// Inserts the node at the insertion point, handing back the new
    /// root; `None` when the tree's shape does not match the point.
    pub fn insert_code(
        &self,
        node_to_insert: &CodeNode,
        insertion_point: InsertionPoint,
        genie: &CodeGenie,
    ) -> (r: Option<CodeNode>)
        ensures
            match r {
                Some(root) => insert_code_view(genie@, insertion_point, node_to_insert@)
                    == Some(root@),
                None => insert_code_view(genie@, insertion_point, node_to_insert@) is None,
            },
    {
        match insertion_point {
            InsertionPoint::BeginningOfBlock(block_id) => {
                self.insertion_expression_in_beginning_of_block(block_id, node_to_insert, genie)
            },
            InsertionPoint::Before(_) | InsertionPoint::After(_) => {
                self.insert_new_expression_in_block(node_to_insert, insertion_point, genie)
            },
            InsertionPoint::Argument(argument_id) => {
                self.insert_expression_into_argument(node_to_insert, argument_id, genie)
            },
            InsertionPoint::StructLiteralField(field_id) => {
                self.insert_expression_into_struct_literal_field(node_to_insert, field_id, genie)
            },
            InsertionPoint::ListLiteralElement { list_literal_id, pos } => {
                self.insertion_expression_into_list_literal(node_to_insert, list_literal_id,
                    pos, genie)
            },
            InsertionPoint::Editing(_) => None,
        }
    }

    /// Prepends the node to the block with the given id.
    pub fn insertion_expression_in_beginning_of_block(
        &self,
        block_id: ID,
        node_to_insert: &CodeNode,
        genie: &CodeGenie,
    ) -> (r: Option<CodeNode>)
        ensures
            match r {
                Some(root) => insert_code_view(genie@,
                    InsertionPoint::BeginningOfBlock(block_id), node_to_insert@)
                    == Some(root@),
                None => insert_code_view(genie@, InsertionPoint::BeginningOfBlock(block_id),
                    node_to_insert@) is None,
            },
    {
        match genie.find_node(block_id) {
            Some(found) => match found {
                CodeNode::Block(b) => {
                    proof {
                        assert(found@ == (NodeView::Block {
                            id: b.id,
                            expressions: node_views(b.expressions@),
                        }));
                    }
                    let expressions = inserted_nodes(&b.expressions, 0, node_to_insert);
                    let new_block = CodeNode::Block(Block { id: b.id, expressions });
                    Some(genie.root().replaced(&new_block))
                },
                _ => None,
            },
            None => None,
        }
    }

    /// Splices the node into the parent block, before or after the
    /// anchor statement.
    pub fn insert_new_expression_in_block(
        &self,
        code_node: &CodeNode,
        insertion_point: InsertionPoint,
        genie: &CodeGenie,
    ) -> (r: Option<CodeNode>)
        requires
            insertion_point matches InsertionPoint::Before(_)
                || insertion_point matches InsertionPoint::After(_),
        ensures
            match r {
                Some(root) => insert_code_view(genie@, insertion_point, code_node@)
                    == Some(root@),
                None => insert_code_view(genie@, insertion_point, code_node@) is None,
            },
    {
        let anchor = insertion_point.node_id();
        match genie.find_parent(anchor) {
            Some(parent) => match parent {
                CodeNode::Block(b) => {
                    proof {
                        assert(parent@ == (NodeView::Block {
                            id: b.id,
                            expressions: node_views(b.expressions@),
                        }));
                    }
                    match genie.find_position_in_block(b, anchor) {
                        Some(pos) => {
                            let stmt_count = b.expressions.len();
                            proof { assert(pos < stmt_count); }
                            let off = match insertion_point {
                                InsertionPoint::Before(_) => pos,
                                _ => pos + 1,
                            };
                            proof {
                                lemma_stmt_position_bounds(node_views(b.expressions@), anchor);
                                lemma_node_views(b.expressions@);
                            }
                            let expressions = inserted_nodes(&b.expressions, off, code_node);
                            let new_block = CodeNode::Block(Block { id: b.id, expressions });
                            Some(genie.root().replaced(&new_block))
                        },
                        None => None,
                    }
                },
                _ => None,
            },
            None => None,
        }
    }

    /// Fills the function-call hole with the given id.
    pub fn insert_expression_into_argument(
        &self,
        code_node: &CodeNode,
        argument_id: ID,
        genie: &CodeGenie,
    ) -> (r: Option<CodeNode>)
        ensures
            match r {
                Some(root) => insert_code_view(genie@, InsertionPoint::Argument(argument_id),
                    code_node@) == Some(root@),
                None => insert_code_view(genie@, InsertionPoint::Argument(argument_id),
                    code_node@) is None,
            },
    {
        match genie.find_node(argument_id) {
            Some(found) => match found {
                CodeNode::Argument(a) => {
                    proof {
                        assert(found@ == (NodeView::Argument {
                            id: a.id,
                            argument_definition_id: a.argument_definition_id,
                            expr: Box::new(node_view(*a.expr)),
                        }));
                    }
                    let new_arg = CodeNode::Argument(crate::lang::Argument {
                        id: a.id,
                        argument_definition_id: a.argument_definition_id,
                        expr: Box::new(code_node.duplicate()),
                    });
                    Some(genie.root().replaced(&new_arg))
                },
                _ => None,
            },
            None => None,
        }
    }

    /// Fills the struct-literal hole with the given id.
    pub fn insert_expression_into_struct_literal_field(
        &self,
        code_node: &CodeNode,
        struct_literal_field_id: ID,
        genie: &CodeGenie,
    ) -> (r: Option<CodeNode>)
        ensures
            match r {
                Some(root) => insert_code_view(genie@,
                    InsertionPoint::StructLiteralField(struct_literal_field_id), code_node@)
                    == Some(root@),
                None => insert_code_view(genie@,
                    InsertionPoint::StructLiteralField(struct_literal_field_id), code_node@)
                    is None,
            },
    {
        match genie.find_node(struct_literal_field_id) {
            Some(found) => match found {
                CodeNode::StructLiteralField(f) => {
                    proof {
                        assert(found@ == (NodeView::StructLiteralField {
                            id: f.id,
                            struct_field_id: f.struct_field_id,
                            expr: Box::new(node_view(*f.expr)),
                        }));
                    }
                    let new_field = CodeNode::StructLiteralField(crate::lang::StructLiteralField {
                        id: f.id,
                        struct_field_id: f.struct_field_id,
                        expr: Box::new(code_node.duplicate()),
                    });
                    Some(genie.root().replaced(&new_field))
                },
                _ => None,
            },
            None => None,
        }
    }

    /// Inserts the node into the list literal at the given bounds-checked
    /// position.
    pub fn insertion_expression_into_list_literal(
        &self,
        node_to_insert: &CodeNode,
        list_literal_id: ID,
        pos: usize,
        genie: &CodeGenie,
    ) -> (r: Option<CodeNode>)
        ensures
            match r {
                Some(root) => insert_code_view(genie@, InsertionPoint::ListLiteralElement {
                    list_literal_id,
                    pos,
                }, node_to_insert@) == Some(root@),
                None => insert_code_view(genie@, InsertionPoint::ListLiteralElement {
                    list_literal_id,
                    pos,
                }, node_to_insert@) is None,
            },
    {
        match genie.find_node(list_literal_id) {
            Some(found) => match found {
                CodeNode::ListLiteral(l) => {
                    proof {
                        assert(found@ == (NodeView::ListLiteral {
                            id: l.id,
                            element_type: l.element_type@,
                            elements: node_views(l.elements@),
                        }));
                        lemma_node_views(l.elements@);
                    }
                    if pos <= l.elements.len() {
                        let elements = inserted_nodes(&l.elements, pos, node_to_insert);
                        let new_list = CodeNode::ListLiteral(ListLiteral {
                            id: l.id,
                            element_type: l.element_type.duplicate(),
                            elements,
                        });
                        Some(genie.root().replaced(&new_list))
                    } else {
                        None
                    }
                },
                _ => None,
            },
            None => None,
        }
    }

    /// Deletes the node with the given id: removes a block statement or a
    /// list element and picks the cursor that keeps the user on the same
    /// line; in any other position the deletion is a no-op.
    pub fn delete_code(
        &self,
        node_id_to_delete: ID,
        genie: &CodeGenie,
        cursor_position: Option<ID>,
    ) -> (r: DeletionResult)
        ensures
            r.new_root@ == delete_code_view(genie@, node_id_to_delete, cursor_position).0,
            r.new_cursor_position
                == delete_code_view(genie@, node_id_to_delete, cursor_position).1,
    {
        match genie.find_parent(node_id_to_delete) {
            Some(parent) => match parent {
                CodeNode::Block(b) => {
                    proof {
                        assert(parent@ == (NodeView::Block {
                            id: b.id,
                            expressions: node_views(b.expressions@),
                        }));
                    }
                    match genie.find_position_in_block(b, node_id_to_delete) {
                        Some(pos) => {
                            let expressions = removed_nodes(&b.expressions, node_id_to_delete);
                            let cursor = pick_stmt_cursor(&expressions, pos);
                            let new_block = CodeNode::Block(Block { id: b.id, expressions });
                            DeletionResult {
                                new_root: genie.root().replaced(&new_block),
                                new_cursor_position: cursor,
                            }
                        },
                        None => DeletionResult {
                            new_root: genie.root().duplicate(),
                            new_cursor_position: cursor_position,
                        },
                    }
                },
                CodeNode::ListLiteral(l) => {
                    proof {
                        assert(parent@ == (NodeView::ListLiteral {
                            id: l.id,
                            element_type: l.element_type@,
                            elements: node_views(l.elements@),
                        }));
                    }
                    match position_in_nodes(&l.elements, node_id_to_delete) {
                        Some(pos) => {
                            let elements = removed_nodes(&l.elements, node_id_to_delete);
                            let cursor = match pick_stmt_cursor(&elements, pos) {
                                Some(c) => Some(c),
                                None => Some(l.id),
                            };
                            let new_list = CodeNode::ListLiteral(ListLiteral {
                                id: l.id,
                                element_type: l.element_type.duplicate(),
                                elements,
                            });
                            DeletionResult {
                                new_root: genie.root().replaced(&new_list),
                                new_cursor_position: cursor,
                            }
                        },
                        None => DeletionResult {
                            new_root: genie.root().duplicate(),
                            new_cursor_position: cursor_position,
                        },
                    }
                },
                _ => DeletionResult {
                    new_root: genie.root().duplicate(),
                    new_cursor_position: cursor_position,
                },
            },
            None => DeletionResult {
                new_root: genie.root().duplicate(),
                new_cursor_position: cursor_position,
            },
        }
    }

    /// Records the pre-mutation state in the undo log.
    pub fn log_new_mutation(&mut self, new_root: &CodeNode, cursor_position: Option<ID>)
        requires
            hist_wf(old(self)@),
        ensures
            final(self)@ == record_spec(old(self)@, CellView {
                root: new_root@,
                cursor_position,
            }),
            hist_wf(final(self)@),
    {
        self.history.record_previous_state(new_root, cursor_position);
    }

    /// Steps the history back one snapshot; `None` at the boundary.
    pub fn undo(&mut self, current_root: &CodeNode, cursor_position: Option<ID>)
        -> (r: Option<UndoHistoryCell>)
        requires
            hist_wf(old(self)@),
        ensures
            hist_wf(final(self)@),
            ({
                let (h2, out) = undo_spec(old(self)@, CellView {
                    root: current_root@,
                    cursor_position,
                });
                final(self)@ == h2 && match r {
                    Some(cell) => out == Some(cell@),
                    None => out is None,
                }
            }),
    {
        self.history.undo(current_root, cursor_position)
    }

    /// Steps the history forward one snapshot; `None` at the boundary.
    pub fn redo(&mut self, current_root: &CodeNode, cursor_position: Option<ID>)
        -> (r: Option<UndoHistoryCell>)
        requires
            hist_wf(old(self)@),
        ensures
            hist_wf(final(self)@),
            ({
                let (h2, out) = redo_spec(old(self)@);
                final(self)@ == h2 && match r {
                    Some(cell) => out == Some(cell@),
                    None => out is None,
                }
            }),
    {
        let _ = current_root;
        let _ = cursor_position;
        self.history.redo()
    }
}

/// The position of the node with the given id in a node list.
pub fn position_in_nodes(items: &Vec<CodeNode>, id: ID) -> (r: Option<usize>)
    ensures
        match r {
            Some(p) => stmt_position(node_views(items@), id) == Some(p as int)
                && (p as int) < items@.len(),
            None => stmt_position(node_views(items@), id) is None,
        },
{
    let ghost vs = node_views(items@);
    proof { lemma_node_views(items@); }
    let mut i: usize = 0;
    while i < items.len()
        invariant
            i <= items@.len(),
            vs == node_views(items@),
            vs.len() == items@.len(),
            forall|k: int| 0 <= k < vs.len() ==> vs[k] == node_view(items@[k]),
            forall|k: int| 0 <= k < i ==> (#[trigger] vs[k]).nid() != id,
        decreases items@.len() - i,
    {
        if items[i].id() == id {
            proof { lemma_stmt_position_index(vs, id, i as int); }
            return Some(i);
        }
        i = i + 1;
    }
    proof { lemma_stmt_position_none(vs, id); }
    None
}

/// The cursor after a deletion at position `p` of the surviving list.
fn pick_stmt_cursor(items: &Vec<CodeNode>, p: usize) -> (r: Option<ID>)
    ensures
        r == stmt_cursor(node_views(items@), p as int),
{
    proof { lemma_node_views(items@); }
    if p < items.len() {
        Some(items[p].id())
    } else if p >= 1 && p - 1 < items.len() {
        Some(items[p - 1].id())
    } else {
        None
    }
}

// ---------------------------------------------------------------------------
// Post-insertion cursor placement
// ---------------------------------------------------------------------------

/// What the editor does with the cursor right after an insertion.
#[derive(Clone, Copy, Debug, PartialEq)]
pub enum PostInsertionAction {
    /// Select this node.
    SelectNode(ID),
    /// Open an edit session at this insertion point.
    MarkAsEditing(InsertionPoint),
}

/// Whether a hole still holds a placeholder, so completion should chain
/// into it.
pub open spec fn is_open_arg_hole(x: NodeView) -> bool {
    x matches NodeView::Argument { expr, .. } && *expr is Placeholder
}

/// Whether a struct-literal hole still holds a placeholder.
pub open spec fn is_open_field_hole(x: NodeView) -> bool {
    x matches NodeView::StructLiteralField { expr, .. } && *expr is Placeholder
}

/// Where the cursor goes after inserting `n`: into a fresh call's or
/// struct literal's first hole; after filling a hole, into the next hole
/// that still holds a placeholder; otherwise onto the inserted node.
pub open spec fn post_insertion_cursor_view(root: NodeView, n: NodeView)
    -> PostInsertionAction {
    match n {
        NodeView::FunctionCall { id, args, .. } => if args.len() > 0 {
            PostInsertionAction::MarkAsEditing(InsertionPoint::Argument(args[0].nid()))
        } else {
            PostInsertionAction::SelectNode(id)
        },
        NodeView::StructLiteral { id, fields, .. } => if fields.len() > 0 {
            PostInsertionAction::MarkAsEditing(InsertionPoint::StructLiteralField(
                fields[0].nid()))
        } else {
            PostInsertionAction::SelectNode(id)
        },
        _ => match parent_view(root, n.nid()) {
            Some(p) => match p {
                NodeView::Argument { id: aid, .. } => match parent_view(root, aid) {
                    Some(gp) => match gp {
                        NodeView::FunctionCall { args, .. } =>
                            match stmt_position(args, aid) {
                                Some(pos) => if pos + 1 < args.len()
                                    && is_open_arg_hole(args[pos + 1]) {
                                    PostInsertionAction::MarkAsEditing(
                                        InsertionPoint::Argument(args[pos + 1].nid()))
                                } else {
                                    PostInsertionAction::SelectNode(n.nid())
                                },
                                None => PostInsertionAction::SelectNode(n.nid()),
                            },
                        _ => PostInsertionAction::SelectNode(n.nid()),
                    },
                    None => PostInsertionAction::SelectNode(n.nid()),
                },
                NodeView::StructLiteralField { id: fid, .. } => match parent_view(root, fid) {
                    Some(gp) => match gp {
                        NodeView::StructLiteral { fields, .. } =>
                            match stmt_position(fields, fid) {
                                Some(pos) => if pos + 1 < fields.len()
                                    && is_open_field_hole(fields[pos + 1]) {
                                    PostInsertionAction::MarkAsEditing(
                                        InsertionPoint::StructLiteralField(
                                            fields[pos + 1].nid()))
                                } else {
                                    PostInsertionAction::SelectNode(n.nid())
                                },
                                None => PostInsertionAction::SelectNode(n.nid()),
                            },
                        _ => PostInsertionAction::SelectNode(n.nid()),
                    },
                    None => PostInsertionAction::SelectNode(n.nid()),
                },
                _ => PostInsertionAction::SelectNode(n.nid()),
            },
            None => PostInsertionAction::SelectNode(n.nid()),
        },
    }
}

/// The executable mirror of [`post_insertion_cursor_view`].
pub fn post_insertion_cursor(code_node: &CodeNode, code_genie: &CodeGenie)
    -> (r: PostInsertionAction)
    ensures
        r == post_insertion_cursor_view(code_genie@, code_node@),
{
    match code_node {
        CodeNode::FunctionCall(fc) => {
            proof {
                assert(code_node@ == (NodeView::FunctionCall {
                    id: fc.id,
                    function_reference: Box::new(node_view(*fc.function_reference)),
                    args: node_views(fc.args@),
                }));
                lemma_node_views(fc.args@);
            }
            if fc.args.len() > 0 {
                return PostInsertionAction::MarkAsEditing(InsertionPoint::Argument(
                    fc.args[0].id()));
            }
            return PostInsertionAction::SelectNode(fc.id);
        },
        CodeNode::StructLiteral(sl) => {
            proof {
                assert(code_node@ == (NodeView::StructLiteral {
                    id: sl.id,
                    struct_id: sl.struct_id,
                    fields: node_views(sl.fields@),
                }));
                lemma_node_views(sl.fields@);
            }
            if sl.fields.len() > 0 {
                return PostInsertionAction::MarkAsEditing(InsertionPoint::StructLiteralField(
                    sl.fields[0].id()));
            }
            return PostInsertionAction::SelectNode(sl.id);
        },
        _ => {},
    }
    let nid = code_node.id();
    match code_genie.find_parent(nid) {
        Some(parent) => match parent {
            CodeNode::Argument(a) => match code_genie.find_parent(a.id) {
                Some(gp) => match gp {
                    CodeNode::FunctionCall(fc) => {
                        proof {
                            assert(gp@ == (NodeView::FunctionCall {
                                id: fc.id,
                                function_reference: Box::new(
                                    node_view(*fc.function_reference)),
                                args: node_views(fc.args@),
                            }));
                            lemma_node_views(fc.args@);
                        }
                        match position_in_nodes(&fc.args, a.id) {
                            Some(pos) => {
                                let arg_count = fc.args.len();
                                proof { assert(pos < arg_count); }
                                if pos + 1 < arg_count {
                                    let next = &fc.args[pos + 1];
                                    if is_open_arg_hole_exec(next) {
                                        return PostInsertionAction::MarkAsEditing(
                                            InsertionPoint::Argument(next.id()));
                                    }
                                }
                                PostInsertionAction::SelectNode(nid)
                            },
                            None => PostInsertionAction::SelectNode(nid),
                        }
                    },
                    _ => PostInsertionAction::SelectNode(nid),
                },
                None => PostInsertionAction::SelectNode(nid),
            },
            CodeNode::StructLiteralField(f) => match code_genie.find_parent(f.id) {
                Some(gp) => match gp {
                    CodeNode::StructLiteral(sl) => {
                        proof {
                            assert(gp@ == (NodeView::StructLiteral {
                                id: sl.id,
                                struct_id: sl.struct_id,
                                fields: node_views(sl.fields@),
                            }));
                            lemma_node_views(sl.fields@);
                        }
                        match position_in_nodes(&sl.fields, f.id) {
                            Some(pos) => {
                                let field_count = sl.fields.len();
                                proof { assert(pos < field_count); }
                                if pos + 1 < field_count {
                                    let next = &sl.fields[pos + 1];
                                    if is_open_field_hole_exec(next) {
                                        return PostInsertionAction::MarkAsEditing(
                                            InsertionPoint::StructLiteralField(next.id()));
                                    }
                                }
                                PostInsertionAction::SelectNode(nid)
                            },
                            None => PostInsertionAction::SelectNode(nid),
                        }
                    },
                    _ => PostInsertionAction::SelectNode(nid),
                },
                None => PostInsertionAction::SelectNode(nid),
            },
            _ => PostInsertionAction::SelectNode(nid),
        },
        None => PostInsertionAction::SelectNode(nid),
    }
}

fn is_open_arg_hole_exec(x: &CodeNode) -> (r: bool)
    ensures
        r == is_open_arg_hole(x@),
{
    match x {
        CodeNode::Argument(a) => {
            proof {
                assert(x@ == (NodeView::Argument {
                    id: a.id,
                    argument_definition_id: a.argument_definition_id,
                    expr: Box::new(node_view(*a.expr)),
                }));
            }
            match &*a.expr {
                CodeNode::Placeholder(p) => {
                    proof {
                        assert(node_view(*a.expr) == (NodeView::Placeholder {
                            id: p.id,
                            description: p.description@,
                            typ: p.typ@,
                        }));
                    }
                    true
                },
                _ => false,
            }
        },
        _ => false,
    }
}

fn is_open_field_hole_exec(x: &CodeNode) -> (r: bool)
    ensures
        r == is_open_field_hole(x@),
{
    match x {
        CodeNode::StructLiteralField(f) => {
            proof {
                assert(x@ == (NodeView::StructLiteralField {
                    id: f.id,
                    struct_field_id: f.struct_field_id,
                    expr: Box::new(node_view(*f.expr)),
                }));
            }
            match &*f.expr {
                CodeNode::Placeholder(p) => {
                    proof {
                        assert(node_view(*f.expr) == (NodeView::Placeholder {
                            id: p.id,
                            description: p.description@,
                            typ: p.typ@,
                        }));
                    }
                    true
                },
                _ => false,
            }
        },
        _ => false,
    }
}

} // verus!
