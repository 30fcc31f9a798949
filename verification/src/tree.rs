//! The variation tree: an arena of nodes indexed by position in a vector.
//! Node 0 is the root; every other node has a parent with a smaller index
//! and sits in that parent's children, the first child being the main line.
//! Each node may carry an annotation of the caller's type.

use vstd::prelude::*;
use crate::board::ChessMove;
use crate::position::{
    FenError, Position, PositionView, legal_moves_of, parse_fen, parse_move, play, position_of_fen, san_of, san_text,
    spec_parse_move, spec_play, uci_chars, uci_of,
};
use crate::types::OpeningInfo;

verus! {

pub struct Node<A> {
    pub id: usize,
    pub parent: Option<usize>,
    /// The main line first, then variations.
    pub children: Vec<usize>,
    /// The move leading here (SAN with check suffix); `None` at the root.
    pub san: Option<String>,
    /// The move leading here (UCI, standard castling); `None` at the root.
    pub uci: Option<String>,
    pub fen: String,
    /// What the caller attached to the position.
    pub analysis: Option<A>,
    /// The named opening of the position, for display.
    pub opening: Option<OpeningInfo>,
}

pub struct GameTree<A> {
    pub nodes: Vec<Node<A>>,
    pub root: usize,
}

#[derive(Debug, Clone, Copy, PartialEq, Eq, Structural)]
pub enum TreeError {
    IllegalMove,
    BadPosition,
}

impl TreeError {
    pub fn message(self) -> (r: &'static str)
        ensures
            r@ == (match self {
                TreeError::IllegalMove => "illegal move"@,
                TreeError::BadPosition => "node holds an unparsable position"@,
            }),
    {
        match self {
            TreeError::IllegalMove => "illegal move",
            TreeError::BadPosition => "node holds an unparsable position",
        }
    }
}

/// The shape of a node: index, parent, children, moves and position.
pub struct NodeView {
    pub id: usize,
    pub parent: Option<usize>,
    pub children: Seq<usize>,
    pub san: Option<Seq<char>>,
    pub uci: Option<Seq<char>>,
    pub fen: Seq<char>,
}

pub open spec fn opt_view(s: Option<String>) -> Option<Seq<char>> {
    match s {
        Some(x) => Some(x@),
        None => None,
    }
}

pub open spec fn node_view<A>(n: Node<A>) -> NodeView {
    NodeView { id: n.id, parent: n.parent, children: n.children@, san: opt_view(n.san), uci: opt_view(n.uci), fen: n.fen@ }
}

pub open spec fn tree_view<A>(nodes: Seq<Node<A>>) -> Seq<NodeView> {
    nodes.map_values(|n: Node<A>| node_view(n))
}

/// A well-formed arena: the root is node 0 without a parent; every node
/// knows its index; every other node's parent comes before it; a node lists
/// exactly the nodes whose parent it is, each once.
pub open spec fn shaped(t: Seq<NodeView>) -> bool {
    &&& t.len() > 0
    &&& t[0].parent is None
    &&& forall|i: int| 0 <= i < t.len() ==> #[trigger] t[i].id == i
    &&& forall|i: int| 0 < i < t.len() ==> (#[trigger] t[i].parent matches Some(p) && p < i)
    &&& forall|i: int, k: int| 0 <= i < t.len() && 0 <= k < t[i].children.len() ==> {
        let c = #[trigger] t[i].children[k];
        i < c < t.len() && t[c as int].parent == Some(i as usize)
    }
    &&& forall|c: int| 0 < c < t.len() ==> (#[trigger] t[c].parent matches Some(p) && t[p as int].children.contains(c as usize))
    &&& forall|i: int| 0 <= i < t.len() ==> (#[trigger] t[i].children).no_duplicates()
}

/// The first child of `children` whose move is `uci`.
pub open spec fn child_with(t: Seq<NodeView>, children: Seq<usize>, uci: Seq<char>, k: int) -> Option<usize>
    decreases children.len() - k,
{
    if k < 0 || k >= children.len() {
        None
    } else if t[children[k] as int].uci == Some(uci) {
        Some(children[k])
    } else {
        child_with(t, children, uci, k + 1)
    }
}

/// Playing `mv` at node `at`: the position there must read and the move be
/// legal; an existing child with the same move is returned as it is (the
/// tree does not grow); otherwise a new last node is added as the last child
/// of `at`, holding the move's SAN and UCI and the position after it.
pub open spec fn spec_play_tree(t: Seq<NodeView>, at: int, mv: ChessMove) -> (Result<usize, TreeError>, Seq<NodeView>) {
    match position_of_fen(t[at].fen) {
        None => (Err(TreeError::BadPosition), t),
        Some(pos) => if !legal_moves_of(pos.fen).contains(mv) {
            (Err(TreeError::IllegalMove), t)
        } else {
            let uci = uci_chars(mv);
            match child_with(t, t[at].children, uci, 0) {
                Some(c) => (Ok(c), t),
                None => match spec_play(pos, mv) {
                    None => (Err(TreeError::IllegalMove), t),
                    Some(next) => {
                        let id = t.len() as usize;
                        let node = NodeView {
                            id,
                            parent: Some(at as usize),
                            children: seq![],
                            san: san_text(pos.fen, uci, true),
                            uci: Some(uci),
                            fen: next.fen,
                        };
                        (
                            Ok(id),
                            t.update(at, NodeView { children: t[at].children.push(id), ..t[at] }).push(node),
                        )
                    },
                },
            }
        },
    }
}

impl<A> GameTree<A> {
    pub open spec fn view_nodes(&self) -> Seq<NodeView> {
        tree_view(self.nodes@)
    }

    pub open spec fn wf(&self) -> bool {
        self.root == 0 && shaped(self.view_nodes())
    }

    /// A tree holding only the starting position.
    pub fn new(start: &Position) -> (t: GameTree<A>)
        ensures
            t.wf(),
            t.view_nodes().len() == 1,
            t.view_nodes()[0].fen == start.fen@,
            t.view_nodes()[0].children.len() == 0,
            t.view_nodes()[0].san is None,
            t.view_nodes()[0].uci is None,
            t.nodes@[0].analysis is None,
            t.nodes@[0].opening is None,
    {
        let root = Node {
            id: 0,
            parent: None,
            children: Vec::new(),
            san: None,
            uci: None,
            fen: start.fen.clone(),
            analysis: None,
            opening: None,
        };
        let mut nodes: Vec<Node<A>> = Vec::new();
        nodes.push(root);
        let t = GameTree { nodes, root: 0 };
        assert(t.view_nodes()[0].children.no_duplicates());
        t
    }

    pub fn get(&self, id: usize) -> (r: Option<&Node<A>>)
        ensures
            r matches Some(n) ==> id < self.nodes@.len() && *n == self.nodes@[id as int],
            r is None ==> id >= self.nodes@.len(),
    {
        if id < self.nodes.len() {
            Some(&self.nodes[id])
        } else {
            None
        }
    }

    /// The position at a node.
    pub fn position(&self, id: usize) -> (r: Result<Position, FenError>)
        requires
            id < self.nodes@.len(),
        ensures
            match position_of_fen(self.nodes@[id as int].fen@) {
                Some(v) => r is Ok && r->Ok_0@ == v && r->Ok_0.wf(),
                None => r is Err && r->Err_0.0@ == self.nodes@[id as int].fen@,
            },
    {
        parse_fen(self.nodes[id].fen.as_str())
    }

    fn find_child(&self, at: usize, uci: &String) -> (r: Option<usize>)
        requires
            at < self.nodes@.len(),
            self.wf(),
        ensures
            r == child_with(self.view_nodes(), self.view_nodes()[at as int].children, uci@, 0),
    {
        let ghost t = self.view_nodes();
        let ghost ch = t[at as int].children;
        let mut k: usize = 0;
        while k < self.nodes[at].children.len()
            invariant
                self.wf(),
                at < self.nodes@.len(),
                t == self.view_nodes(),
                ch == t[at as int].children,
                k <= ch.len(),
                child_with(t, ch, uci@, 0) == child_with(t, ch, uci@, k as int),
            decreases ch.len() - k,
        {
            let c = self.nodes[at].children[k];
            assert(c == ch[k as int]);
            assert(0 <= c < t.len());
            let hit = match &self.nodes[c].uci {
                Some(u) => crate::text::str_eq(u.as_str(), uci.as_str()),
                None => false,
            };
            assert(hit == (t[c as int].uci == Some(uci@)));
            if hit {
                return Some(c);
            }
            k += 1;
        }
        None
    }

    /// Add a move at a node. When a child with the same move exists it is
    /// returned and the tree does not change, so replaying a variation never
    /// grows the tree.
    pub fn play(&mut self, at: usize, mv: &ChessMove) -> (r: Result<usize, TreeError>)
        requires
            old(self).wf(),
            at < old(self).nodes@.len(),
            old(self).nodes@.len() < usize::MAX,
        ensures
            final(self).wf(),
            (r, final(self).view_nodes()) == spec_play_tree(old(self).view_nodes(), at as int, *mv),
            final(self).nodes@.len() >= old(self).nodes@.len(),
            r matches Ok(id) ==> id < final(self).nodes@.len(),
            forall|i: int| 0 <= i < old(self).nodes@.len() ==> (#[trigger] final(self).nodes@[i]).analysis == old(self).nodes@[i].analysis
                && final(self).nodes@[i].opening == old(self).nodes@[i].opening,
            forall|i: int| old(self).nodes@.len() <= i < final(self).nodes@.len() ==> (#[trigger] final(self).nodes@[i]).analysis is None
                && final(self).nodes@[i].opening is None,
    {
        let ghost t = self.view_nodes();
        let ghost old_nodes = self.nodes@;
        let pos = match self.position(at) {
            Ok(p) => p,
            Err(_) => {
                return Err(TreeError::BadPosition);
            },
        };
        let moves = crate::position::legal_moves(&pos);
        let mut legal = false;
        let mut i: usize = 0;
        while i < moves.len()
            invariant
                i <= moves@.len(),
                legal == moves@.subrange(0, i as int).contains(*mv),
            decreases moves.len() - i,
        {
            let ghost sub = moves@.subrange(0, i as int + 1);
            assert(sub =~= moves@.subrange(0, i as int).push(moves@[i as int]));
            if moves[i] == *mv {
                legal = true;
                assert(sub[i as int] == *mv);
            }
            i += 1;
        }
        assert(moves@.subrange(0, moves@.len() as int) =~= moves@);
        if !legal {
            return Err(TreeError::IllegalMove);
        }
        let uci = uci_of(mv);
        match self.find_child(at, &uci) {
            Some(c) => {
                proof {
                    lemma_child_with_member(t, t[at as int].children, uci@, 0);
                }
                return Ok(c);
            },
            None => {},
        }
        let san = san_of(&pos, mv, true);
        let next = match play(&pos, mv) {
            Some(q) => q,
            None => {
                return Err(TreeError::IllegalMove);
            },
        };
        let id = self.nodes.len();
        let node = Node {
            id,
            parent: Some(at),
            children: Vec::new(),
            san,
            uci: Some(uci),
            fen: next.fen,
            analysis: None,
            opening: None,
        };
        let mut parent = self.nodes.remove(at);
        let ghost before_children = parent.children@;
        parent.children.push(id);
        self.nodes.insert(at, parent);
        assert(forall|i: int| 0 <= i < old_nodes.len() ==> (#[trigger] self.nodes@[i]).analysis == old_nodes[i].analysis
            && self.nodes@[i].opening == old_nodes[i].opening);
        assert(self.view_nodes() =~= t.update(at as int, NodeView { children: t[at as int].children.push(id), ..t[at as int] }));
        self.nodes.push(node);
        let ghost t2 = self.view_nodes();
        assert(t2 =~= t.update(at as int, NodeView { children: t[at as int].children.push(id), ..t[at as int] }).push(
            node_view(self.nodes@.last()),
        ));
        proof {
            lemma_child_absent(t, t[at as int].children, uci@, 0);
            lemma_play_shaped(t, at as int, id, t2);
        }
        Ok(id)
    }

    /// Add a move given in SAN.
    pub fn play_san(&mut self, at: usize, san: &str) -> (r: Result<usize, TreeError>)
        requires
            old(self).wf(),
            at < old(self).nodes@.len(),
            old(self).nodes@.len() < usize::MAX,
        ensures
            final(self).wf(),
            match position_of_fen(old(self).view_nodes()[at as int].fen) {
                None => r == Err::<usize, TreeError>(TreeError::BadPosition) && final(self).view_nodes() == old(self).view_nodes(),
                Some(pos) => match spec_parse_move(pos, san@, true) {
                    None => r == Err::<usize, TreeError>(TreeError::IllegalMove) && final(self).view_nodes() == old(self).view_nodes(),
                    Some(mv) => (r, final(self).view_nodes()) == spec_play_tree(old(self).view_nodes(), at as int, mv),
                },
            },
            forall|i: int| 0 <= i < old(self).nodes@.len() ==> (#[trigger] final(self).nodes@[i]).analysis == old(self).nodes@[i].analysis
                && final(self).nodes@[i].opening == old(self).nodes@[i].opening,
            forall|i: int| old(self).nodes@.len() <= i < final(self).nodes@.len() ==> (#[trigger] final(self).nodes@[i]).analysis is None
                && final(self).nodes@[i].opening is None,
    {
        let pos = match self.position(at) {
            Ok(p) => p,
            Err(_) => {
                return Err(TreeError::BadPosition);
            },
        };
        match parse_move(&pos, san, true) {
            None => Err(TreeError::IllegalMove),
            Some(mv) => self.play(at, &mv),
        }
    }

    /// The main line: the root, then first children down to a leaf.
    pub fn mainline(&self) -> (r: Vec<usize>)
        requires
            self.wf(),
        ensures
            r@.len() >= 1,
            r@[0] == 0,
            forall|k: int| 0 <= k < r@.len() - 1 ==> self.view_nodes()[#[trigger] r@[k] as int].children.len() > 0
                && self.view_nodes()[r@[k] as int].children[0] == r@[k + 1],
            self.view_nodes()[r@.last() as int].children.len() == 0,
            forall|k: int| 0 <= k < r@.len() ==> #[trigger] r@[k] < self.nodes@.len(),
    {
        let ghost t = self.view_nodes();
        let mut out: Vec<usize> = Vec::new();
        out.push(self.root);
        let mut cur = self.root;
        while self.nodes[cur].children.len() > 0
            invariant
                self.wf(),
                t == self.view_nodes(),
                cur < t.len(),
                out@.len() >= 1,
                out@[0] == 0,
                out@.last() == cur,
                forall|k: int| 0 <= k < out@.len() - 1 ==> t[#[trigger] out@[k] as int].children.len() > 0 && t[out@[k] as int].children[0] == out@[k + 1],
                forall|k: int| 0 <= k < out@.len() ==> #[trigger] out@[k] < t.len(),
            decreases t.len() - cur,
        {
            let next = self.nodes[cur].children[0];
            assert(t[cur as int].children[0] == next);
            let ghost before = out@;
            out.push(next);
            assert(forall|k: int| 0 <= k < before.len() ==> out@[k] == before[k]);
            cur = next;
        }
        out
    }

    /// The nodes from the root to `id`, both included.
    pub fn path_to(&self, id: usize) -> (r: Vec<usize>)
        requires
            self.wf(),
            id < self.nodes@.len(),
        ensures
            r@.len() >= 1,
            r@[0] == 0,
            r@.last() == id,
            forall|k: int| 0 <= k < r@.len() - 1 ==> self.view_nodes()[#[trigger] r@[k + 1] as int].parent == Some(r@[k]),
            forall|k: int| 0 <= k < r@.len() ==> #[trigger] r@[k] < self.nodes@.len(),
    {
        let ghost t = self.view_nodes();
        let mut up: Vec<usize> = Vec::new();
        up.push(id);
        let mut cur = id;
        while cur != 0
            invariant
                self.wf(),
                t == self.view_nodes(),
                cur < t.len(),
                up@.len() >= 1,
                up@[0] == id,
                up@.last() == cur,
                forall|k: int| 0 <= k < up@.len() - 1 ==> t[#[trigger] up@[k] as int].parent == Some(up@[k + 1]),
                forall|k: int| 0 <= k < up@.len() ==> #[trigger] up@[k] < t.len(),
            decreases cur,
        {
            let p = match self.nodes[cur].parent {
                Some(p) => p,
                None => {
                    assert(false);
                    0
                },
            };
            let ghost before = up@;
            up.push(p);
            assert(forall|k: int| 0 <= k < before.len() ==> up@[k] == before[k]);
            cur = p;
        }
        let n = up.len();
        let mut out: Vec<usize> = Vec::new();
        let mut i: usize = 0;
        while i < n
            invariant
                n == up@.len(),
                i <= n,
                out@.len() == i,
                forall|k: int| 0 <= k < i ==> out@[k] == up@[n - 1 - k],
            decreases n - i,
        {
            out.push(up[n - 1 - i]);
            i += 1;
        }
        assert forall|k: int| 0 <= k < out@.len() - 1 implies t[#[trigger] out@[k + 1] as int].parent == Some(out@[k]) by {
            assert(out@[k + 1] == up@[n - 2 - k]);
            assert(out@[k] == up@[n - 1 - k]);
            assert(t[up@[n - 2 - k] as int].parent == Some(up@[n - 2 - k + 1]));
        }
        out
    }

    /// Whether a node lies on the main line: every step from the root to it
    /// goes to a first child.
    pub fn is_mainline(&self, id: usize) -> (r: bool)
        requires
            self.wf(),
            id < self.nodes@.len(),
        ensures
            r == (forall|k: int| 0 <= k < path_of(self.view_nodes(), id as int).len() - 1 ==> first_child_is(
                self.view_nodes(),
                #[trigger] path_of(self.view_nodes(), id as int)[k],
                path_of(self.view_nodes(), id as int)[k + 1],
            )),
    {
        let path = self.path_to(id);
        proof {
            lemma_path_unique(self.view_nodes(), path@, id as int);
        }
        let ghost t = self.view_nodes();
        let mut k: usize = 0;
        while k < path.len() - 1
            invariant
                self.wf(),
                path@.len() >= 1,
                t == self.view_nodes(),
                path@ == path_of(t, id as int),
                forall|q: int| 0 <= q < path@.len() ==> #[trigger] path@[q] < t.len(),
                k < path@.len(),
                forall|q: int| 0 <= q < k ==> first_child_is(t, #[trigger] path@[q], path@[q + 1]),
            decreases path@.len() - k,
        {
            let a = path[k];
            let b = path[k + 1];
            let first = if self.nodes[a].children.len() > 0 {
                self.nodes[a].children[0] == b
            } else {
                false
            };
            if !first {
                assert(!first_child_is(t, path@[k as int], path@[k as int + 1]));
                return false;
            }
            k += 1;
        }
        true
    }
}

/// `b` is the first child of `a`.
pub open spec fn first_child_is(t: Seq<NodeView>, a: usize, b: usize) -> bool {
    t[a as int].children.len() > 0 && t[a as int].children[0] == b
}

/// The path from the root to node `id`, following parents.
pub open spec fn path_of(t: Seq<NodeView>, id: int) -> Seq<usize>
    decreases id,
{
    if id <= 0 || id >= t.len() {
        seq![0usize]
    } else {
        match t[id].parent {
            Some(p) => if p < id {
                path_of(t, p as int).push(id as usize)
            } else {
                seq![id as usize]
            },
            None => seq![id as usize],
        }
    }
}

/// A root-to-`id` chain of parents is the path of `id`: the path is unique.
pub proof fn lemma_path_unique(t: Seq<NodeView>, p: Seq<usize>, id: int)
    requires
        shaped(t),
        0 <= id < t.len(),
        p.len() >= 1,
        p[0] == 0,
        p.last() == id,
        forall|k: int| 0 <= k < p.len() - 1 ==> t[#[trigger] p[k + 1] as int].parent == Some(p[k]),
        forall|k: int| 0 <= k < p.len() ==> #[trigger] p[k] < t.len(),
    ensures
        p == path_of(t, id),
    decreases p.len(),
{
    if p.len() == 1 {
        assert(path_of(t, 0) =~= seq![0usize]);
    } else {
        let q = p.drop_last();
        let j = p.len() - 2;
        let parent = p[j];
        assert(t[p[j + 1] as int].parent == Some(p[j]));
        assert(p[j + 1] == id);
        assert(id > 0) by {
            if id == 0 {
                assert(t[0].parent is None);
            }
        }
        assert forall|k: int| 0 <= k < q.len() - 1 implies t[#[trigger] q[k + 1] as int].parent == Some(q[k]) by {
            assert(q[k + 1] == p[k + 1]);
        }
        lemma_path_unique(t, q, parent as int);
        assert(p =~= q.push(id as usize));
    }
}

proof fn lemma_child_with_member(t: Seq<NodeView>, ch: Seq<usize>, uci: Seq<char>, k: int)
    requires
        0 <= k,
    ensures
        child_with(t, ch, uci, k) matches Some(c) ==> ch.contains(c),
    decreases ch.len() - k,
{
    if k < ch.len() {
        lemma_child_with_member(t, ch, uci, k + 1);
        if t[ch[k] as int].uci == Some(uci) {
            assert(ch[k] == ch[k]);
        }
    }
}

proof fn lemma_child_absent(t: Seq<NodeView>, ch: Seq<usize>, uci: Seq<char>, k: int)
    requires
        0 <= k,
        child_with(t, ch, uci, k) is None,
    ensures
        forall|j: int| k <= j < ch.len() ==> t[#[trigger] ch[j] as int].uci != Some(uci),
    decreases ch.len() - k,
{
    if k < ch.len() {
        lemma_child_absent(t, ch, uci, k + 1);
    }
}

/// Adding a new last child keeps the arena well formed.
proof fn lemma_play_shaped(t: Seq<NodeView>, at: int, id: usize, t2: Seq<NodeView>)
    requires
        shaped(t),
        0 <= at < t.len(),
        id == t.len(),
        t2.len() == t.len() + 1,
        forall|i: int| 0 <= i < t.len() && i != at ==> t2[i] == t[i],
        t2[at] == (NodeView { children: t[at].children.push(id), ..t[at] }),
        t2[id as int].id == id,
        t2[id as int].parent == Some(at as usize),
        t2[id as int].children.len() == 0,
    ensures
        shaped(t2),
{
    assert(!t[at].children.contains(id)) by {
        if t[at].children.contains(id) {
            let k = choose|k: int| 0 <= k < t[at].children.len() && t[at].children[k] == id;
            assert(t[at].children[k] < t.len());
        }
    }
    assert forall|i: int, k: int| 0 <= i < t2.len() && 0 <= k < t2[i].children.len() implies {
        let c = #[trigger] t2[i].children[k];
        i < c < t2.len() && t2[c as int].parent == Some(i as usize)
    } by {
        if i == at {
            if k < t[at].children.len() {
                assert(t2[i].children[k] == t[at].children[k]);
                let c = t[at].children[k];
                assert(c < t.len());
                if c != at {
                    assert(t2[c as int] == t[c as int]);
                }
            }
        } else if i < t.len() {
            assert(t2[i].children[k] == t[i].children[k]);
            let c = t[i].children[k];
            if c != at {
                assert(t2[c as int] == t[c as int]);
            } else {
                assert(t2[c as int].parent == t[c as int].parent);
            }
        }
    }
    assert forall|c: int| 0 < c < t2.len() implies (#[trigger] t2[c].parent matches Some(p) && t2[p as int].children.contains(c as usize)) by {
        if c == id {
            assert(t2[at].children[t[at].children.len() as int] == id);
        } else {
            let p = t[c].parent->0;
            assert(t[p as int].children.contains(c as usize));
            let k = choose|k: int| 0 <= k < t[p as int].children.len() && t[p as int].children[k] == c as usize;
            if p == at {
                assert(t2[at].children[k] == c as usize);
            } else {
                assert(t2[p as int] == t[p as int]);
            }
            if c == at {
                assert(t2[c].parent == t[c].parent);
            }
        }
    }
    assert forall|i: int| 0 <= i < t2.len() implies (#[trigger] t2[i].children).no_duplicates() by {
        if i == at {
            assert forall|a: int, b: int| 0 <= a < b < t2[i].children.len() implies t2[i].children[a] != t2[i].children[b] by {
                if b == t[at].children.len() {
                    assert(t2[i].children[a] == t[at].children[a]);
                    assert(t[at].children.contains(t[at].children[a]));
                }
            }
        } else if i < t.len() {
            assert(t2[i] == t[i]);
        }
    }
    assert forall|i: int| 0 <= i < t2.len() implies #[trigger] t2[i].id == i by {
        if i < t.len() && i != at {
            assert(t2[i] == t[i]);
        }
    }
    assert forall|i: int| 0 < i < t2.len() implies (#[trigger] t2[i].parent matches Some(p) && p < i) by {
        if i < t.len() && i != at {
            assert(t2[i] == t[i]);
        }
    }
}

/// Playing a move twice at the same node gives the same node the second
/// time and leaves the tree as the first time left it.
pub proof fn lemma_play_merges(t: Seq<NodeView>, at: int, mv: ChessMove)
    requires
        shaped(t),
        0 <= at < t.len(),
        t.len() < usize::MAX,
        spec_play_tree(t, at, mv).0 is Ok,
    ensures
        spec_play_tree(spec_play_tree(t, at, mv).1, at, mv) == spec_play_tree(t, at, mv),
{
    let (r, t1) = spec_play_tree(t, at, mv);
    let pos = position_of_fen(t[at].fen)->0;
    let uci = uci_chars(mv);
    match child_with(t, t[at].children, uci, 0) {
        Some(c) => {},
        None => {
            lemma_child_absent(t, t[at].children, uci, 0);
            let id = t.len() as usize;
            assert(t1[at].fen == t[at].fen);
            let ch = t1[at].children;
            let last = t[at].children.len() as int;
            assert(ch == t[at].children.push(id));
            assert(ch[last] == id);
            assert(t1[id as int].uci == Some(uci));
            assert forall|j: int| 0 <= j < last implies t1[#[trigger] ch[j] as int].uci != Some(uci) by {
                assert(ch[j] == t[at].children[j]);
                let c = t[at].children[j];
                assert(at < c < t.len());
                assert(t1[c as int] == t[c as int]);
            }
            lemma_child_found(t1, ch, uci, 0, last);
        },
    }
}

/// With no earlier match, the first match is at `last`.
proof fn lemma_child_found(t: Seq<NodeView>, ch: Seq<usize>, uci: Seq<char>, k: int, last: int)
    requires
        0 <= k <= last < ch.len(),
        forall|j: int| k <= j < last ==> t[#[trigger] ch[j] as int].uci != Some(uci),
        t[ch[last] as int].uci == Some(uci),
    ensures
        child_with(t, ch, uci, k) == Some(ch[last]),
    decreases last - k,
{
    if k < last {
        lemma_child_found(t, ch, uci, k + 1, last);
    }
}

} // verus!
