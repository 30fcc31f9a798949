//! Naming the positions of a variation tree from the built-in ECO table.
//! A name is for display only: it says nothing about whether the move that
//! reached the position is still theory.

use vstd::prelude::*;
use crate::eco::{builtin_table, find_key, lookup};
use crate::position::{spec_normalize_fen, Position};
use crate::tree::{node_view, path_of, tree_view, GameTree, Node, NodeView};
use crate::types::OpeningInfo;

verus! {

/// The ECO code and name of the position of a FEN, if it has one.
pub open spec fn opening_of(fen: Seq<char>) -> Option<(Seq<char>, Seq<char>)> {
    match find_key(builtin_table().entries, spec_normalize_fen(fen), 0) {
        Some(i) => Some((builtin_table().entries[i].1, builtin_table().entries[i].2)),
        None => None,
    }
}

/// What a node's opening field says: the ECO code, the name, and the plies
/// from the root of its tree.
pub open spec fn opening_view(o: Option<OpeningInfo>) -> Option<(Seq<char>, Seq<char>, u32)> {
    match o {
        Some(x) => Some((x.eco@, x.name@, x.matched_plies)),
        None => None,
    }
}

/// The opening field a node at `id` gets: the name of its position, with the
/// distance in plies from the root of this tree (not the length of the ECO
/// line: the position may have been reached by another move order).
pub open spec fn named(t: Seq<NodeView>, id: int) -> Option<(Seq<char>, Seq<char>, u32)> {
    match opening_of(t[id].fen) {
        Some((eco, name)) => Some((eco, name, (path_of(t, id).len() - 1) as u32)),
        None => None,
    }
}

/// Name the position at `id`, or clear the field when it has no name. Nothing
/// changes for an `id` outside the tree.
pub fn annotate<A>(tree: &mut GameTree<A>, id: usize)
    requires
        old(tree).wf(),
    ensures
        final(tree).wf(),
        final(tree).view_nodes() == old(tree).view_nodes(),
        id >= old(tree).nodes@.len() ==> final(tree).nodes@ == old(tree).nodes@,
        id < old(tree).nodes@.len() ==> opening_view(final(tree).nodes@[id as int].opening) == named(
            old(tree).view_nodes(),
            id as int,
        ),
        forall|k: int| 0 <= k < old(tree).nodes@.len() && k != id ==> #[trigger] final(tree).nodes@[k] == old(tree).nodes@[k],
{
    if id >= tree.nodes.len() {
        return;
    }
    let ghost t = tree.view_nodes();
    let path = tree.path_to(id);
    proof {
        crate::tree::lemma_path_unique(t, path@, id as int);
    }
    let plies = (path.len() - 1) as u32;
    let info = match lookup(tree.nodes[id].fen.as_str()) {
        Some(o) => Some(o.into_info(plies)),
        None => None,
    };
    let ghost before = tree.nodes@;
    let mut node = tree.nodes.remove(id);
    node.opening = info;
    tree.nodes.insert(id, node);
    assert(tree.nodes@ =~= before.update(id as int, tree.nodes@[id as int]));
    assert(node_view(tree.nodes@[id as int]) == node_view(before[id as int]));
    assert(tree.view_nodes() =~= t);
}

/// A tree for a starting position, its root already named.
pub fn new_tree<A>(start: &Position) -> (t: GameTree<A>)
    ensures
        t.wf(),
        t.view_nodes().len() == 1,
        t.view_nodes()[0].fen == start.fen@,
        t.view_nodes()[0].children.len() == 0,
        t.view_nodes()[0].san is None,
        t.view_nodes()[0].uci is None,
        opening_view(t.nodes@[0].opening) == named(t.view_nodes(), 0),
{
    let mut tree = GameTree::new(start);
    annotate(&mut tree, 0);
    tree
}

} // verus!
