//! The making of trees: a node is taken for a dialog move or a topic, one node
//! is taken for each of its parts, and the tree may be set into a node that lists
//! it.

use crate::conversation::Conversation;
use crate::expander::{
    addresses_move, addresses_topic, has_expander_for_move, has_expander_for_topic, is_parent,
    top_level, Expander, ExpanderErr, ExpanderResult,
};
use crate::ledger::{DialogMove, Topic};
use crate::node::{ExpanderNode, MoveNode};
use crate::random::{shuffle, Rng};
use crate::sequences::lemma_rearranged;
use vstd::prelude::*;

verus! {

/// An expander node that was taken, with the tree that was taken for each of its
/// parts.
pub struct ExpansionTree {
    /// The name of the node.
    pub expander_node: ExpanderNode,
    /// The trees of the parts, in the order of the parts.
    pub parts: Vec<ExpansionTree>,
}

/// Whether the node `id` can be made within `depth` levels: it is registered, and
/// each of its parts, but the part `filled`, can be made.
pub open spec fn chains<C>(
    nodes: Map<ExpanderNode, MoveNode<C>>,
    conversation: &Conversation<C>,
    id: ExpanderNode,
    filled: Option<int>,
    depth: nat,
) -> bool
    decreases depth, 1nat,
{
    &&& nodes.contains_key(id)
    &&& forall|p: int|
        0 <= p < nodes[id].parts@.len() && filled != Some(p) ==> takes_one(
            nodes,
            conversation,
            (#[trigger] nodes[id].parts@[p])@,
            depth,
        )
}

/// Whether a part can be made within `depth` levels: there is a level left, and
/// one of the nodes that the part lists can be taken.
pub open spec fn takes_one<C>(
    nodes: Map<ExpanderNode, MoveNode<C>>,
    conversation: &Conversation<C>,
    listed: Seq<ExpanderNode>,
    depth: nat,
) -> bool
    decreases depth, 0nat,
{
    depth > 0 && exists|a: int|
        0 <= a < listed.len() && takes(
            nodes,
            conversation,
            #[trigger] listed[a],
            (depth - 1) as nat,
        )
}

/// Whether the node `id` can be taken: it is registered, its precondition holds,
/// and it can be made within `depth` levels.
pub open spec fn takes<C>(
    nodes: Map<ExpanderNode, MoveNode<C>>,
    conversation: &Conversation<C>,
    id: ExpanderNode,
    depth: nat,
) -> bool
    decreases depth, 2nat,
{
    &&& nodes.contains_key(id)
    &&& nodes[id].precondition.holds(conversation)
    &&& chains(nodes, conversation, id, None, depth)
}

/// Whether a tree is made as the nodes say: it has one tree for each part of its
/// node, each of them rooted in a node that the part lists and whose precondition
/// holds, and each made as the nodes say.
pub open spec fn well_chained<C>(
    nodes: Map<ExpanderNode, MoveNode<C>>,
    conversation: &Conversation<C>,
    tree: ExpansionTree,
) -> bool
    decreases tree,
{
    &&& nodes.contains_key(tree.expander_node)
    &&& tree.parts@.len() == nodes[tree.expander_node].parts@.len()
    &&& forall|p: int|
        0 <= p < tree.parts@.len() ==> {
            &&& nodes[tree.expander_node].parts@[p]@.contains(
                (#[trigger] tree.parts@[p]).expander_node,
            )
            &&& nodes.contains_key(tree.parts@[p].expander_node)
            &&& nodes[tree.parts@[p].expander_node].precondition.holds(conversation)
            &&& well_chained(nodes, conversation, tree.parts@[p])
        }
}

/// The numbers below `n`, each once, in an order that the generator picks.
fn shuffled_indices(n: usize, rng: &mut Rng) -> (ids: Vec<usize>)
    ensures
        ids@.len() == n,
        forall|x: usize| 0 <= x < n ==> ids@.contains(x),
        forall|b: int| 0 <= b < ids@.len() ==> #[trigger] ids@[b] < n,
{
    let mut ids: Vec<usize> = Vec::new();
    let mut i: usize = 0;
    while i < n
        invariant
            i <= n,
            ids@.len() == i,
            forall|b: int| 0 <= b < i ==> #[trigger] ids@[b] == b,
        decreases n - i,
    {
        ids.push(i);
        i += 1;
    }
    let ghost before = ids@;
    shuffle(&mut ids, rng);
    proof {
        lemma_rearranged(before, ids@);
        assert forall|x: usize| 0 <= x < n implies ids@.contains(x) by {
            assert(before[x as int] == x);
            assert(before.contains(x));
        }
        assert forall|b: int| 0 <= b < ids@.len() implies #[trigger] ids@[b] < n by {
            assert(ids@.contains(ids@[b]));
            assert(before.contains(ids@[b]));
            let k = choose|k: int| 0 <= k < before.len() && before[k] == ids@[b];
            assert(before[k] == k);
        }
    }
    ids
}

/// The first part that lists `child`, if one does.
fn first_part_listing(parts: &Vec<Vec<ExpanderNode>>, child: ExpanderNode) -> (slot: Option<usize>)
    ensures
        match slot {
            Some(k) => k < parts@.len() && parts@[k as int]@.contains(child) && forall|q: int|
                0 <= q < k ==> !(#[trigger] parts@[q])@.contains(child),
            None => forall|q: int| 0 <= q < parts@.len() ==> !(#[trigger] parts@[q])@.contains(child),
        },
{
    let mut k: usize = 0;
    while k < parts.len()
        invariant
            k <= parts.len(),
            forall|q: int| 0 <= q < k ==> !(#[trigger] parts@[q])@.contains(child),
        decreases parts.len() - k,
    {
        let part = &parts[k];
        let mut a: usize = 0;
        while a < part.len()
            invariant
                a <= part.len(),
                k < parts@.len(),
                *part == parts@[k as int],
                forall|q: int| 0 <= q < k ==> !(#[trigger] parts@[q])@.contains(child),
                forall|b: int| 0 <= b < a ==> part@[b] != child,
            decreases part.len() - a,
        {
            if part[a] == child {
                proof {
                    assert(part@[a as int] == child);
                }
                return Some(k);
            }
            a += 1;
        }
        k += 1;
    }
    None
}

/// Whether the tree given for a part of the node `node` fits there: the part
/// lists the node of the tree, the precondition of that node holds, and the tree
/// is made as the nodes say. Where no tree is given, nothing is asked.
pub open spec fn fits<C>(
    nodes: Map<ExpanderNode, MoveNode<C>>,
    conversation: &Conversation<C>,
    node: ExpanderNode,
    fill: Option<(usize, ExpansionTree)>,
) -> bool {
    fill matches Some((slot, child)) ==> {
        &&& nodes.contains_key(node)
        &&& nodes[node].lists_at(slot as int, child.expander_node)
        &&& ready(nodes, conversation, child)
    }
}

/// Whether a tree stands ready to be made into a move or set into a larger tree:
/// its node is registered, the precondition of that node holds, and the tree is
/// made as the nodes say.
pub open spec fn ready<C>(
    nodes: Map<ExpanderNode, MoveNode<C>>,
    conversation: &Conversation<C>,
    tree: ExpansionTree,
) -> bool {
    &&& nodes.contains_key(tree.expander_node)
    &&& nodes[tree.expander_node].precondition.holds(conversation)
    &&& well_chained(nodes, conversation, tree)
}

impl<C> Expander<C> {
    /// Makes the node `node`: for each of its parts takes one of the listed nodes,
    /// trying them in an order that the generator picks, and makes that node in
    /// turn. The part `fill.0`, if given, gets the tree `fill.1` as it is. No tree
    /// comes out where a part is left for which no listed node can be taken. The tree
    /// that comes out is made as the nodes say where the given tree fits its part.
    pub fn forward_chain(
        &self,
        conversation: &Conversation<C>,
        rng: &mut Rng,
        node: ExpanderNode,
        fill: Option<(usize, ExpansionTree)>,
        depth: usize,
    ) -> (tree: Option<ExpansionTree>)
        ensures
            tree is Some <==> chains(
                self@,
                conversation,
                node,
                match fill {
                    Some((slot, _)) => Some(slot as int),
                    None => None,
                },
                depth as nat,
            ),
            tree matches Some(made) ==> {
                &&& made.expander_node == node
                &&& made.parts@.len() == self@[node].parts@.len()
                &&& (fill matches Some((slot, child)) ==> slot < made.parts@.len()
                    ==> made.parts@[slot as int] == child)
                &&& (fits(self@, conversation, node, fill) ==> well_chained(
                    self@,
                    conversation,
                    made,
                ))
            },
        decreases depth,
    {
        let ghost filled: Option<int> = match fill {
            Some((slot, _)) => Some(slot as int),
            None => None,
        };
        let found = self.get_node(node);
        let move_node = match found {
            Some(held) => held,
            None => {
                return None;
            },
        };
        let (slot, mut child): (usize, Option<ExpansionTree>) = match fill {
            Some((slot, child)) => (slot, Some(child)),
            None => (0, None),
        };
        let ghost given = child;
        let mut parts: Vec<ExpansionTree> = Vec::new();
        let mut p: usize = 0;
        while p < move_node.parts.len()
            invariant
                p <= move_node.parts@.len(),
                *move_node == self@[node],
                self@.contains_key(node),
                parts@.len() == p,
                filled == (match given {
                    Some(_) => Some(slot as int),
                    None => None,
                }),
                filled == (match fill {
                    Some((slot, _)) => Some(slot as int),
                    None => None,
                }),
                given matches Some(tree) ==> fill matches Some((_, child)) && child == tree,
                given is None ==> fill is None,
                child is Some <==> (given is Some && p <= slot),
                child is Some ==> child == given,
                given matches Some(tree) ==> (p > slot ==> parts@[slot as int] == tree),
                forall|q: int|
                    0 <= q < p && (filled != Some(q) || fits(self@, conversation, node, fill)) ==> {
                        &&& move_node.parts@[q]@.contains((#[trigger] parts@[q]).expander_node)
                        &&& self@.contains_key(parts@[q].expander_node)
                        &&& self@[parts@[q].expander_node].precondition.holds(conversation)
                        &&& well_chained(self@, conversation, parts@[q])
                    },
                forall|q: int|
                    0 <= q < p && filled != Some(q) ==> takes_one(
                        self@,
                        conversation,
                        (#[trigger] move_node.parts@[q])@,
                        depth as nat,
                    ),
            decreases move_node.parts@.len() - p,
        {
            if child.is_some() && p == slot {
                let taken = child.take();
                match taken {
                    Some(tree) => {
                        parts.push(tree);
                    },
                    None => {},
                }
            } else {
                if depth == 0 {
                    proof {
                        assert(filled != Some(p as int));
                        assert(!takes_one(
                            self@,
                            conversation,
                            self@[node].parts@[p as int]@,
                            depth as nat,
                        ));
                    }
                    return None;
                }
                let alts = &move_node.parts[p];
                let ids = shuffled_indices(alts.len(), rng);
                let mut made: Option<ExpansionTree> = None;
                let mut a: usize = 0;
                while a < ids.len() && made.is_none()
                    invariant
                        a <= ids@.len(),
                        depth > 0,
                        forall|b: int| 0 <= b < ids@.len() ==> #[trigger] ids@[b] < alts@.len(),
                        forall|b: int|
                            0 <= b < a && made is None ==> !takes(
                                self@,
                                conversation,
                                alts@[(#[trigger] ids@[b]) as int],
                                (depth - 1) as nat,
                            ),
                        made matches Some(tree) ==> {
                            &&& alts@.contains(tree.expander_node)
                            &&& takes(
                                self@,
                                conversation,
                                tree.expander_node,
                                (depth - 1) as nat,
                            )
                            &&& well_chained(self@, conversation, tree)
                        },
                    decreases ids@.len() - a + (if made is None { 1int } else { 0int }),
                {
                    let alt = alts[ids[a]];
                    match self.get_node(alt) {
                        Some(alt_node) => {
                            if alt_node.precondition.check(conversation) {
                                made = self.forward_chain(conversation, rng, alt, None, depth - 1);
                                proof {
                                    if made is Some {
                                        assert(alts@[ids@[a as int] as int] == alt);
                                    }
                                }
                            }
                        },
                        None => {},
                    }
                    a += 1;
                }
                match made {
                    Some(tree) => {
                        proof {
                            let at = choose|at: int|
                                0 <= at < alts@.len() && alts@[at] == tree.expander_node;
                            assert(takes(self@, conversation, alts@[at], (depth - 1) as nat));
                            assert(takes_one(self@, conversation, alts@, depth as nat));
                        }
                        parts.push(tree);
                    },
                    None => {
                        proof {
                            assert(filled != Some(p as int));
                            assert forall|x: int| 0 <= x < alts@.len() implies !takes(
                                self@,
                                conversation,
                                #[trigger] alts@[x],
                                (depth - 1) as nat,
                            ) by {
                                assert(ids@.contains(x as usize));
                                let b = choose|b: int| 0 <= b < ids@.len() && ids@[b] == x as usize;
                                assert(!takes(
                                    self@,
                                    conversation,
                                    alts@[ids@[b] as int],
                                    (depth - 1) as nat,
                                ));
                            }
                            assert(!takes_one(self@, conversation, alts@, depth as nat));
                            assert(self@[node].parts@[p as int] == *alts);
                            assert(!chains(self@, conversation, node, filled, depth as nat));
                        }
                        return None;
                    },
                }
            }
            p += 1;
        }
        let made = ExpansionTree { expander_node: node, parts };
        proof {
            assert(chains(self@, conversation, node, filled, depth as nat));
            if fits(self@, conversation, node, fill) {
                assert(well_chained(self@, conversation, made));
            }
        }
        Some(made)
    }
}

/// Whether `slot` is the first part of the node that lists `child`.
pub open spec fn first_slot<C>(node: MoveNode<C>, slot: int, child: ExpanderNode) -> bool {
    node.lists_at(slot, child) && forall|q: int| 0 <= q < slot ==> !node.lists_at(q, child)
}

/// Whether `id` may take `child` in as a part: it lists `child`, and its
/// precondition holds.
pub open spec fn may_embed<C>(
    nodes: Map<ExpanderNode, MoveNode<C>>,
    conversation: &Conversation<C>,
    id: ExpanderNode,
    child: ExpanderNode,
) -> bool {
    is_parent(nodes, id, child) && nodes[id].precondition.holds(conversation)
}

/// Whether `id` can be made around `child`: it may take `child` in, and its other
/// parts can be made once `child` fills the first part that lists it.
pub open spec fn embeds<C>(
    nodes: Map<ExpanderNode, MoveNode<C>>,
    conversation: &Conversation<C>,
    id: ExpanderNode,
    child: ExpanderNode,
    depth: nat,
) -> bool {
    may_embed(nodes, conversation, id, child) && exists|slot: int|
        first_slot(nodes[id], slot, child) && #[trigger] chains(
            nodes,
            conversation,
            id,
            Some(slot),
            depth,
        )
}

/// Whether `made` is the tree `child` set into a node that can be made around it:
/// the tree `child` fills the first part that lists it.
pub open spec fn wraps<C>(
    nodes: Map<ExpanderNode, MoveNode<C>>,
    conversation: &Conversation<C>,
    made: ExpansionTree,
    child: ExpansionTree,
    depth: nat,
) -> bool {
    &&& embeds(nodes, conversation, made.expander_node, child.expander_node, depth)
    &&& exists|slot: int|
        first_slot(nodes[made.expander_node], slot, child.expander_node) && #[trigger] made.parts@[slot]
            == child
}

impl<C> Expander<C> {
    /// Takes one of the candidates: tries them in an order that the generator
    /// picks, and makes the first that can be taken.
    pub fn expand_satisfying(
        &self,
        conversation: &Conversation<C>,
        rng: &mut Rng,
        candidates: Vec<ExpanderNode>,
    ) -> (tree: ExpanderResult<ExpansionTree>)
        ensures
            tree is Ok <==> exists|i: int|
                0 <= i < candidates@.len() && takes(
                    self@,
                    conversation,
                    #[trigger] candidates@[i],
                    self.depth(),
                ),
            tree matches Ok(made) ==> {
                &&& candidates@.contains(made.expander_node)
                &&& takes(self@, conversation, made.expander_node, self.depth())
                &&& well_chained(self@, conversation, made)
            },
            tree matches Err(why) ==> why == ExpanderErr::NoNodesSatisfyPreconditions,
    {
        let depth = self.len();
        let mut order = candidates;
        shuffle(&mut order, rng);
        proof {
            lemma_rearranged(candidates@, order@);
        }
        let mut i: usize = 0;
        while i < order.len()
            invariant
                i <= order@.len(),
                depth == self.depth(),
                forall|x: ExpanderNode| order@.contains(x) <==> candidates@.contains(x),
                forall|b: int|
                    0 <= b < i ==> !takes(
                        self@,
                        conversation,
                        #[trigger] order@[b],
                        depth as nat,
                    ),
            decreases order@.len() - i,
        {
            let id = order[i];
            match self.get_node(id) {
                Some(node) => {
                    if node.precondition.check(conversation) {
                        match self.forward_chain(conversation, rng, id, None, depth) {
                            Some(made) => {
                                proof {
                                    assert(order@.contains(id));
                                    assert(candidates@.contains(id));
                                    let k = choose|k: int|
                                        0 <= k < candidates@.len() && candidates@[k] == id;
                                    assert(takes(
                                        self@,
                                        conversation,
                                        candidates@[k],
                                        self.depth(),
                                    ));
                                }
                                return Ok(made);
                            },
                            None => {},
                        }
                    }
                },
                None => {},
            }
            i += 1;
        }
        proof {
            assert forall|k: int| 0 <= k < candidates@.len() implies !takes(
                self@,
                conversation,
                #[trigger] candidates@[k],
                self.depth(),
            ) by {
                assert(candidates@.contains(candidates@[k]));
                assert(order@.contains(candidates@[k]));
                let b = choose|b: int| 0 <= b < order@.len() && order@[b] == candidates@[k];
                assert(!takes(self@, conversation, order@[b], depth as nat));
            }
        }
        Err(ExpanderErr::NoNodesSatisfyPreconditions)
    }

    /// Makes a tree for a dialog move: takes one of the nodes that address it.
    pub fn expand_dialog_move(
        &self,
        conversation: &Conversation<C>,
        rng: &mut Rng,
        dialog_move: DialogMove,
    ) -> (tree: ExpanderResult<ExpansionTree>)
        ensures
            match tree {
                Ok(made) => {
                    &&& addresses_move(self@, made.expander_node, dialog_move)
                    &&& takes(self@, conversation, made.expander_node, self.depth())
                    &&& well_chained(self@, conversation, made)
                },
                Err(ExpanderErr::NoExpanderForMove(which)) => {
                    &&& which == dialog_move
                    &&& !has_expander_for_move(self@, dialog_move)
                },
                Err(ExpanderErr::NoNodesSatisfyPreconditions) => {
                    &&& has_expander_for_move(self@, dialog_move)
                    &&& forall|id: ExpanderNode|
                        addresses_move(self@, id, dialog_move) ==> !takes(
                            self@,
                            conversation,
                            id,
                            self.depth(),
                        )
                },
                Err(ExpanderErr::NoExpanderForTopic(_)) => false,
            },
    {
        let candidates = self.nodes_for_move(dialog_move);
        if candidates.len() == 0 {
            proof {
                assert forall|id: ExpanderNode| !addresses_move(self@, id, dialog_move) by {
                    if candidates@.contains(id) {
                        let k = choose|k: int| 0 <= k < candidates@.len() && candidates@[k] == id;
                    }
                }
            }
            return Err(ExpanderErr::NoExpanderForMove(dialog_move));
        }
        proof {
            assert(candidates@.contains(candidates@[0]));
            assert(addresses_move(self@, candidates@[0], dialog_move));
        }
        let ghost listed = candidates@;
        let tree = self.expand_satisfying(conversation, rng, candidates);
        proof {
            if tree is Err {
                assert forall|id: ExpanderNode|
                    addresses_move(self@, id, dialog_move) implies !takes(
                    self@,
                    conversation,
                    id,
                    self.depth(),
                ) by {
                    assert(listed.contains(id));
                    let k = choose|k: int| 0 <= k < listed.len() && listed[k] == id;
                    assert(!takes(self@, conversation, listed[k], self.depth()));
                }
            }
        }
        tree
    }

    /// Makes a tree for a topic: takes one of the nodes that address it.
    pub fn expand_topic(&self, conversation: &Conversation<C>, rng: &mut Rng, topic: Topic) -> (tree:
        ExpanderResult<ExpansionTree>)
        ensures
            match tree {
                Ok(made) => {
                    &&& addresses_topic(self@, made.expander_node, topic)
                    &&& takes(self@, conversation, made.expander_node, self.depth())
                    &&& well_chained(self@, conversation, made)
                },
                Err(ExpanderErr::NoExpanderForTopic(which)) => {
                    &&& which == topic
                    &&& !has_expander_for_topic(self@, topic)
                },
                Err(ExpanderErr::NoNodesSatisfyPreconditions) => {
                    &&& has_expander_for_topic(self@, topic)
                    &&& forall|id: ExpanderNode|
                        addresses_topic(self@, id, topic) ==> !takes(
                            self@,
                            conversation,
                            id,
                            self.depth(),
                        )
                },
                Err(ExpanderErr::NoExpanderForMove(_)) => false,
            },
    {
        let candidates = self.nodes_for_topic(topic);
        if candidates.len() == 0 {
            proof {
                assert forall|id: ExpanderNode| !addresses_topic(self@, id, topic) by {
                    if candidates@.contains(id) {
                        let k = choose|k: int| 0 <= k < candidates@.len() && candidates@[k] == id;
                    }
                }
            }
            return Err(ExpanderErr::NoExpanderForTopic(topic));
        }
        proof {
            assert(candidates@.contains(candidates@[0]));
            assert(addresses_topic(self@, candidates@[0], topic));
        }
        let ghost listed = candidates@;
        let tree = self.expand_satisfying(conversation, rng, candidates);
        proof {
            if tree is Err {
                assert forall|id: ExpanderNode| addresses_topic(self@, id, topic) implies !takes(
                    self@,
                    conversation,
                    id,
                    self.depth(),
                ) by {
                    assert(listed.contains(id));
                    let k = choose|k: int| 0 <= k < listed.len() && listed[k] == id;
                    assert(!takes(self@, conversation, listed[k], self.depth()));
                }
            }
        }
        tree
    }

    /// Sets a tree into a larger one, where its node is a part of other nodes. A
    /// tree whose node is a part of no node stays as it is. Else the nodes that
    /// list it are gone through; the first whose precondition holds is made around
    /// the tree, which fills the first part that lists it. Where that node cannot
    /// be made, or the precondition of no such node holds, no tree comes out.
    pub fn backward_chain(
        &self,
        conversation: &Conversation<C>,
        rng: &mut Rng,
        tree: ExpansionTree,
    ) -> (wrapped: ExpanderResult<ExpansionTree>)
        ensures
            top_level(self@, tree.expander_node) ==> wrapped == Ok::<ExpansionTree, ExpanderErr>(
                tree,
            ),
            wrapped matches Ok(made) ==> (ready(self@, conversation, tree) ==> well_chained(
                self@,
                conversation,
                made,
            )),
            wrapped matches Ok(made) ==> top_level(self@, tree.expander_node) || wraps(
                self@,
                conversation,
                made,
                tree,
                self.depth(),
            ),
            wrapped matches Err(why) ==> {
                &&& why == ExpanderErr::NoNodesSatisfyPreconditions
                &&& !top_level(self@, tree.expander_node)
                &&& ((forall|id: ExpanderNode|
                    !may_embed(self@, conversation, id, tree.expander_node)) || (exists|
                    id: ExpanderNode,
                |
                    may_embed(self@, conversation, id, tree.expander_node) && !embeds(
                        self@,
                        conversation,
                        id,
                        tree.expander_node,
                        self.depth(),
                    )))
            },
    {
        let child = tree.expander_node;
        let parents = self.parents_of(child);
        if parents.len() == 0 {
            proof {
                assert forall|id: ExpanderNode| !is_parent(self@, id, child) by {
                    if parents@.contains(id) {
                        let k = choose|k: int| 0 <= k < parents@.len() && parents@[k] == id;
                    }
                }
            }
            return Ok(tree);
        }
        proof {
            assert(parents@.contains(parents@[0]));
            assert(is_parent(self@, parents@[0], child));
        }
        let depth = self.len();
        let mut i: usize = 0;
        while i < parents.len()
            invariant
                i <= parents@.len(),
                depth == self.depth(),
                child == tree.expander_node,
                !top_level(self@, child),
                forall|id: ExpanderNode| parents@.contains(id) <==> is_parent(self@, id, child),
                forall|b: int|
                    0 <= b < i ==> !may_embed(self@, conversation, #[trigger] parents@[b], child),
            decreases parents@.len() - i,
        {
            let parent = parents[i];
            proof {
                assert(parents@.contains(parent));
            }
            match self.get_node(parent) {
                Some(parent_node) => {
                    if parent_node.precondition.check(conversation) {
                        match first_part_listing(&parent_node.parts, child) {
                            Some(slot) => {
                                proof {
                                    assert(first_slot(*parent_node, slot as int, child)) by {
                                        assert(parent_node.lists_at(slot as int, child));
                                        assert forall|q: int| 0 <= q < slot implies !parent_node.lists_at(
                                            q,
                                            child,
                                        ) by {
                                            assert(!parent_node.parts@[q]@.contains(child));
                                        }
                                    }
                                    assert(may_embed(self@, conversation, parent, child));
                                }
                                let made = self.forward_chain(
                                    conversation,
                                    rng,
                                    parent,
                                    Some((slot, tree)),
                                    depth,
                                );
                                return match made {
                                    Some(around) => {
                                        proof {
                                            assert(around.parts@[slot as int] == tree);
                                            assert(embeds(
                                                self@,
                                                conversation,
                                                parent,
                                                child,
                                                self.depth(),
                                            ));
                                            assert(wraps(
                                                self@,
                                                conversation,
                                                around,
                                                tree,
                                                self.depth(),
                                            ));
                                        }
                                        Ok(around)
                                    },
                                    None => {
                                        proof {
                                            assert(!embeds(
                                                self@,
                                                conversation,
                                                parent,
                                                child,
                                                self.depth(),
                                            )) by {
                                                assert forall|other: int|
                                                    first_slot(
                                                        self@[parent],
                                                        other,
                                                        child,
                                                    ) implies other == slot by {
                                                    if other < slot {
                                                        assert(!self@[parent].lists_at(
                                                            other,
                                                            child,
                                                        ));
                                                    } else if other > slot {
                                                        assert(self@[parent].lists_at(
                                                            slot as int,
                                                            child,
                                                        ));
                                                    }
                                                }
                                            }
                                        }
                                        Err(ExpanderErr::NoNodesSatisfyPreconditions)
                                    },
                                };
                            },
                            None => {
                                proof {
                                    assert(is_parent(self@, parent, child));
                                    let slot = choose|slot: int|
                                        self@[parent].lists_at(slot, child);
                                    assert(!parent_node.parts@[slot]@.contains(child));
                                }
                            },
                        }
                    }
                },
                None => {},
            }
            i += 1;
        }
        proof {
            assert forall|id: ExpanderNode| !may_embed(self@, conversation, id, child) by {
                if is_parent(self@, id, child) {
                    assert(parents@.contains(id));
                    let b = choose|b: int| 0 <= b < parents@.len() && parents@[b] == id;
                    assert(!may_embed(self@, conversation, parents@[b], child));
                }
            }
        }
        Err(ExpanderErr::NoNodesSatisfyPreconditions)
    }
}

} // verus!
