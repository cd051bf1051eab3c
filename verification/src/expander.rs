//! The expander: the registry of expander nodes, with its indices.

use crate::idset::IdSet;
use crate::ledger::{DialogMove, Topic};
use crate::node::{ExpanderNode, MoveNode};
use crate::sequences::lemma_take_contains;
use crate::table::Table;
use vstd::prelude::*;

verus! {

/// Why no move could be made.
#[derive(Debug, Clone, Copy, PartialEq, Eq, Structural)]
pub enum ExpanderErr {
    /// No expander node addresses the dialog move.
    NoExpanderForMove(DialogMove),
    /// No expander node addresses the topic.
    NoExpanderForTopic(Topic),
    /// Expander nodes address the dialog move or topic, but none of them can be
    /// taken as the conversation stands.
    NoNodesSatisfyPreconditions,
}

/// The result of making a move.
pub type ExpanderResult<T> = Result<T, ExpanderErr>;

/// Whether an index lists `id` under `key`.
spec fn holds_in(index: Map<u64, IdSet>, key: u64, id: u64) -> bool {
    index.contains_key(key) && index[key]@.contains(id)
}

/// Whether the node `id` is registered and addresses the dialog move.
pub open spec fn addresses_move<C>(
    nodes: Map<ExpanderNode, MoveNode<C>>,
    id: ExpanderNode,
    dialog_move: DialogMove,
) -> bool {
    nodes.contains_key(id) && nodes[id].dialog_moves@.contains(dialog_move)
}

/// Whether the node `id` is registered and addresses the topic.
pub open spec fn addresses_topic<C>(
    nodes: Map<ExpanderNode, MoveNode<C>>,
    id: ExpanderNode,
    topic: Topic,
) -> bool {
    nodes.contains_key(id) && nodes[id].addressed_topics@.contains(topic)
}

/// Whether the node `id` is registered and lists `child` in one of its parts.
pub open spec fn is_parent<C>(
    nodes: Map<ExpanderNode, MoveNode<C>>,
    id: ExpanderNode,
    child: ExpanderNode,
) -> bool {
    nodes.contains_key(id) && nodes[id].lists(child)
}

/// Whether the node lists `child` in one of its first `upto` parts.
spec fn lists_before<C>(node: MoveNode<C>, upto: int, child: ExpanderNode) -> bool {
    exists|slot: int| 0 <= slot < upto && node.lists_at(slot, child)
}

/// Whether the three indices say of the nodes what the nodes say themselves.
spec fn indexed<C>(
    nodes: Map<ExpanderNode, MoveNode<C>>,
    by_move: Map<u64, IdSet>,
    by_topic: Map<u64, IdSet>,
    parents: Map<u64, IdSet>,
) -> bool {
    &&& forall|m: u64, id: u64| #[trigger]
        holds_in(by_move, m, id) <==> addresses_move(nodes, id, m)
    &&& forall|t: u64, id: u64| #[trigger]
        holds_in(by_topic, t, id) <==> addresses_topic(nodes, id, t)
    &&& forall|child: u64, id: u64| #[trigger]
        holds_in(parents, child, id) <==> is_parent(nodes, id, child)
}

fn index_add(index: &mut Table<IdSet>, key: u64, id: u64)
    ensures
        forall|k: u64, x: u64| #[trigger]
            holds_in(final(index)@, k, x) <==> (holds_in(old(index)@, k, x) || (k == key && x
                == id)),
{
    let mut members = match index.remove(key) {
        Some(held) => held,
        None => IdSet::new(),
    };
    members.insert(id);
    index.insert(key, members);
}

fn index_all(index: &mut Table<IdSet>, keys: &Vec<u64>, id: u64)
    ensures
        forall|k: u64, x: u64| #[trigger]
            holds_in(final(index)@, k, x) <==> (holds_in(old(index)@, k, x) || (keys@.contains(k)
                && x == id)),
{
    let mut i: usize = 0;
    while i < keys.len()
        invariant
            i <= keys.len(),
            forall|k: u64, x: u64| #[trigger]
                holds_in(index@, k, x) <==> (holds_in(old(index)@, k, x) || (keys@.take(
                    i as int,
                ).contains(k) && x == id)),
        decreases keys.len() - i,
    {
        let ghost before = index@;
        index_add(index, keys[i], id);
        proof {
            assert forall|k: u64, x: u64| #[trigger]
                holds_in(index@, k, x) <==> (holds_in(old(index)@, k, x) || (keys@.take(
                    i + 1,
                ).contains(k) && x == id)) by {
                assert(holds_in(index@, k, x) <==> (holds_in(before, k, x) || (k == keys@[i as int]
                    && x == id)));
                lemma_take_contains(keys@, i as int, k);
            }
        }
        i += 1;
    }
    proof {
        assert(keys@.take(keys.len() as int) == keys@);
    }
}

fn build_indices<C>(nodes: &Table<MoveNode<C>>) -> (indices: (Table<IdSet>, Table<IdSet>, Table<
    IdSet,
>))
    ensures
        indexed(nodes@, indices.0@, indices.1@, indices.2@),
{
    let mut by_move: Table<IdSet> = Table::new();
    let mut by_topic: Table<IdSet> = Table::new();
    let mut parents: Table<IdSet> = Table::new();
    let n = nodes.len();
    let ghost order = nodes.key_order();
    let mut i: usize = 0;
    while i < n
        invariant
            i <= n,
            n == order.len(),
            order == nodes.key_order(),
            order.no_duplicates(),
            order.to_set() == nodes@.dom(),
            forall|m: u64, id: u64| #[trigger]
                holds_in(by_move@, m, id) <==> (order.take(i as int).contains(id)
                    && addresses_move(nodes@, id, m)),
            forall|t: u64, id: u64| #[trigger]
                holds_in(by_topic@, t, id) <==> (order.take(i as int).contains(id)
                    && addresses_topic(nodes@, id, t)),
            forall|child: u64, id: u64| #[trigger]
                holds_in(parents@, child, id) <==> (order.take(i as int).contains(id) && is_parent(
                    nodes@,
                    id,
                    child,
                )),
        decreases n - i,
    {
        let id = nodes.key_at(i);
        let node = nodes.value_at(i);
        let ghost moves_before = by_move@;
        let ghost topics_before = by_topic@;
        let ghost parents_before = parents@;
        let moves = node.dialog_moves.to_vec();
        index_all(&mut by_move, &moves, id);
        let topics = node.addressed_topics.to_vec();
        index_all(&mut by_topic, &topics, id);
        let mut p: usize = 0;
        while p < node.parts.len()
            invariant
                p <= node.parts.len(),
                forall|child: u64, x: u64| #[trigger]
                    holds_in(parents@, child, x) <==> (holds_in(parents_before, child, x) || (x
                        == id && lists_before(*node, p as int, child))),
            decreases node.parts.len() - p,
        {
            let ghost mid = parents@;
            index_all(&mut parents, &node.parts[p], id);
            proof {
                assert forall|child: u64, x: u64| #[trigger]
                    holds_in(parents@, child, x) <==> (holds_in(parents_before, child, x) || (x
                        == id && lists_before(*node, p + 1, child))) by {
                    assert(holds_in(parents@, child, x) <==> (holds_in(mid, child, x) || (
                    node.parts@[p as int]@.contains(child) && x == id)));
                    if lists_before(*node, p + 1, child) {
                        let slot = choose|slot: int|
                            0 <= slot < p + 1 && node.lists_at(slot, child);
                        if slot < p {
                            assert(node.lists_at(slot, child));
                        }
                    }
                    if lists_before(*node, p as int, child) {
                        let slot = choose|slot: int|
                            0 <= slot < p && node.lists_at(slot, child);
                        assert(node.lists_at(slot, child));
                    }
                    if node.parts@[p as int]@.contains(child) {
                        assert(node.lists_at(p as int, child));
                    }
                }
            }
            p += 1;
        }
        proof {
            assert(order.to_set().contains(id));
            assert forall|m: u64, x: u64| #[trigger]
                holds_in(by_move@, m, x) <==> (order.take(i + 1).contains(x) && addresses_move(
                    nodes@,
                    x,
                    m,
                )) by {
                lemma_take_contains(order, i as int, x);
                assert(holds_in(by_move@, m, x) <==> (holds_in(moves_before, m, x) || (
                moves@.contains(m) && x == id)));
                assert(moves@.contains(m) <==> moves@.to_set().contains(m));
            }
            assert forall|t: u64, x: u64| #[trigger]
                holds_in(by_topic@, t, x) <==> (order.take(i + 1).contains(x) && addresses_topic(
                    nodes@,
                    x,
                    t,
                )) by {
                lemma_take_contains(order, i as int, x);
                assert(holds_in(by_topic@, t, x) <==> (holds_in(topics_before, t, x) || (
                topics@.contains(t) && x == id)));
                assert(topics@.contains(t) <==> topics@.to_set().contains(t));
            }
            assert forall|child: u64, x: u64| #[trigger]
                holds_in(parents@, child, x) <==> (order.take(i + 1).contains(x) && is_parent(
                    nodes@,
                    x,
                    child,
                )) by {
                lemma_take_contains(order, i as int, x);
                assert(holds_in(parents@, child, x) <==> (holds_in(parents_before, child, x) || (x
                    == id && lists_before(*node, node.parts@.len() as int, child))));
                if node.lists(child) {
                    let slot = choose|slot: int| node.lists_at(slot, child);
                    assert(0 <= slot < node.parts@.len() && node.lists_at(slot, child));
                }
                if lists_before(*node, node.parts@.len() as int, child) {
                    let slot = choose|slot: int|
                        0 <= slot < node.parts@.len() && node.lists_at(slot, child);
                    assert(node.lists_at(slot, child));
                }
            }
        }
        i += 1;
    }
    proof {
        assert(order.take(n as int) == order);
        assert forall|id: u64| order.contains(id) <==> nodes@.contains_key(id) by {
            assert(order.contains(id) <==> order.to_set().contains(id));
        }
    }
    (by_move, by_topic, parents)
}

/// The nodes that are registered once the named nodes of a list have joined those of
/// `base`: a later node takes the place of an earlier one of the same name.
pub open spec fn extended<C>(
    base: Map<ExpanderNode, MoveNode<C>>,
    named: Seq<(ExpanderNode, MoveNode<C>)>,
) -> Map<ExpanderNode, MoveNode<C>>
    decreases named.len(),
{
    if named.len() == 0 {
        base
    } else {
        extended(base, named.drop_last()).insert(named.last().0, named.last().1)
    }
}

fn put_all<C>(table: &mut Table<MoveNode<C>>, named: Vec<(ExpanderNode, MoveNode<C>)>)
    ensures
        final(table)@ == extended(old(table)@, named@),
{
    let ghost all = named@;
    let mut rest = named;
    proof {
        assert(all.take(0) =~= Seq::empty());
        assert(all.skip(0) =~= all);
    }
    while rest.len() > 0
        invariant
            rest@.len() <= all.len(),
            rest@ == all.skip(all.len() - rest@.len()),
            table@ == extended(old(table)@, all.take(all.len() - rest@.len())),
        decreases rest@.len(),
    {
        let ghost at = all.len() - rest@.len();
        let (id, node) = rest.remove(0);
        table.insert(id, node);
        proof {
            assert(all[at] == (id, node));
            assert(all.take(at + 1).drop_last() =~= all.take(at));
            assert(all.take(at + 1).last() == (id, node));
            assert(rest@ =~= all.skip(at + 1));
        }
    }
    proof {
        assert(all.take(all.len() as int) =~= all);
    }
}

/// The registry of expander nodes.
///
/// Its view is the map from each name to its node.
#[verifier::reject_recursive_types(C)]
pub struct Expander<C> {
    expander_nodes: Table<MoveNode<C>>,
    addressing_move: Table<IdSet>,
    addressing_topic: Table<IdSet>,
    apart_of: Table<IdSet>,
}

impl<C> View for Expander<C> {
    type V = Map<ExpanderNode, MoveNode<C>>;

    closed spec fn view(&self) -> Map<ExpanderNode, MoveNode<C>> {
        self.expander_nodes@
    }
}

impl<C> Expander<C> {
    #[verifier::type_invariant]
    spec fn well_formed(self) -> bool {
        indexed(
            self.expander_nodes@,
            self.addressing_move@,
            self.addressing_topic@,
            self.apart_of@,
        )
    }

    /// The nodes that the index of dialog moves holds for a dialog move.
    pub closed spec fn move_index(&self, dialog_move: DialogMove) -> Set<ExpanderNode> {
        Set::new(|id: ExpanderNode| holds_in(self.addressing_move@, dialog_move, id))
    }

    /// The nodes that the index of topics holds for a topic.
    pub closed spec fn topic_index(&self, topic: Topic) -> Set<ExpanderNode> {
        Set::new(|id: ExpanderNode| holds_in(self.addressing_topic@, topic, id))
    }

    /// The nodes that the index of parents holds for a node.
    pub closed spec fn parent_index(&self, child: ExpanderNode) -> Set<ExpanderNode> {
        Set::new(|id: ExpanderNode| holds_in(self.apart_of@, child, id))
    }

    /// Whether the three indices are those of the registered nodes: for each dialog
    /// move the nodes that address it, for each topic the nodes that address it, and
    /// for each node the nodes that list it in one of their parts.
    pub open spec fn indices_built(&self) -> bool {
        &&& forall|dialog_move: DialogMove| #[trigger]
            self.move_index(dialog_move) == nodes_addressing_move(self@, dialog_move)
        &&& forall|topic: Topic| #[trigger]
            self.topic_index(topic) == nodes_addressing_topic(self@, topic)
        &&& forall|child: ExpanderNode| #[trigger]
            self.parent_index(child) == nodes_listing(self@, child)
    }

    /// The registry of the given nodes, with the indices made from them.
    pub fn new(dialog_nodes: Table<MoveNode<C>>) -> (expander: Expander<C>)
        ensures
            expander@ == dialog_nodes@,
            expander.indices_built(),
    {
        let (by_move, by_topic, parents) = build_indices(&dialog_nodes);
        let expander = Expander {
            expander_nodes: dialog_nodes,
            addressing_move: by_move,
            addressing_topic: by_topic,
            apart_of: parents,
        };
        proof {
            assert forall|dialog_move: DialogMove| #[trigger]
                expander.move_index(dialog_move) == nodes_addressing_move(
                    expander@,
                    dialog_move,
                ) by {
                assert(expander.move_index(dialog_move) =~= nodes_addressing_move(
                    expander@,
                    dialog_move,
                ));
            }
            assert forall|topic: Topic| #[trigger]
                expander.topic_index(topic) == nodes_addressing_topic(expander@, topic) by {
                assert(expander.topic_index(topic) =~= nodes_addressing_topic(expander@, topic));
            }
            assert forall|child: ExpanderNode| #[trigger]
                expander.parent_index(child) == nodes_listing(expander@, child) by {
                assert(expander.parent_index(child) =~= nodes_listing(expander@, child));
            }
        }
        expander
    }

    /// Makes the indices of the registry anew from its nodes: the nodes stay, and
    /// the indices are those of the nodes.
    pub fn build(&mut self)
        ensures
            final(self)@ == old(self)@,
            final(self).indices_built(),
    {
        let mut taken = Expander::new(Table::new());
        core::mem::swap(self, &mut taken);
        let Expander { expander_nodes, addressing_move: _, addressing_topic: _, apart_of: _ } =
            taken;
        *self = Expander::new(expander_nodes);
    }

    /// The number of nodes.
    pub fn len(&self) -> (n: usize)
        ensures
            n == self@.dom().len(),
            self@.dom().finite(),
    {
        let n = self.expander_nodes.len();
        proof {
            self.expander_nodes.key_order().unique_seq_to_set();
            vstd::seq_lib::seq_to_set_is_finite(self.expander_nodes.key_order());
        }
        n
    }

    /// The node of the given name, if there is one.
    pub fn get_node(&self, expander_node: ExpanderNode) -> (node: Option<&MoveNode<C>>)
        ensures
            node == (if self@.contains_key(expander_node) {
                Some(&self@[expander_node])
            } else {
                None
            }),
    {
        self.expander_nodes.get(expander_node)
    }

    /// Registers a node under a name, in place of the node that had the name. The
    /// indices are made anew.
    pub fn insert(&mut self, expander_node: ExpanderNode, move_node: MoveNode<C>) -> (previous:
        Option<MoveNode<C>>)
        ensures
            final(self)@ == old(self)@.insert(expander_node, move_node),
            final(self).indices_built(),
            previous == (if old(self)@.contains_key(expander_node) {
                Some(old(self)@[expander_node])
            } else {
                None
            }),
    {
        let mut taken = Expander::new(Table::new());
        core::mem::swap(self, &mut taken);
        let Expander { mut expander_nodes, addressing_move: _, addressing_topic: _, apart_of: _ } =
            taken;
        let previous = expander_nodes.insert(expander_node, move_node);
        *self = Expander::new(expander_nodes);
        previous
    }

    /// Registers every node of a list under its name, in the order of the list. The
    /// indices are made anew.
    pub fn extend(&mut self, named: Vec<(ExpanderNode, MoveNode<C>)>)
        ensures
            final(self)@ == extended(old(self)@, named@),
            final(self).indices_built(),
    {
        let mut taken = Expander::new(Table::new());
        core::mem::swap(self, &mut taken);
        let Expander { mut expander_nodes, addressing_move: _, addressing_topic: _, apart_of: _ } =
            taken;
        put_all(&mut expander_nodes, named);
        *self = Expander::new(expander_nodes);
    }

    /// The registry of the nodes of a list, each under its name. Of two nodes with
    /// one name the later one stays.
    pub fn from_named(named: Vec<(ExpanderNode, MoveNode<C>)>) -> (expander: Expander<C>)
        ensures
            expander@ == extended(Map::empty(), named@),
            expander.indices_built(),
    {
        let mut table: Table<MoveNode<C>> = Table::new();
        put_all(&mut table, named);
        Expander::new(table)
    }

    /// Takes the node of the given name out. The indices are made anew.
    pub fn remove(&mut self, expander_node: ExpanderNode) -> (previous: Option<MoveNode<C>>)
        ensures
            final(self)@ == old(self)@.remove(expander_node),
            final(self).indices_built(),
            previous == (if old(self)@.contains_key(expander_node) {
                Some(old(self)@[expander_node])
            } else {
                None
            }),
    {
        let mut taken = Expander::new(Table::new());
        core::mem::swap(self, &mut taken);
        let Expander { mut expander_nodes, addressing_move: _, addressing_topic: _, apart_of: _ } =
            taken;
        let previous = expander_nodes.remove(expander_node);
        *self = Expander::new(expander_nodes);
        previous
    }
}

/// Whether some registered node addresses the dialog move.
pub open spec fn has_expander_for_move<C>(
    nodes: Map<ExpanderNode, MoveNode<C>>,
    dialog_move: DialogMove,
) -> bool {
    exists|id: ExpanderNode| addresses_move(nodes, id, dialog_move)
}

/// Whether some registered node addresses the topic.
pub open spec fn has_expander_for_topic<C>(
    nodes: Map<ExpanderNode, MoveNode<C>>,
    topic: Topic,
) -> bool {
    exists|id: ExpanderNode| addresses_topic(nodes, id, topic)
}

/// The registered nodes that address the dialog move.
pub open spec fn nodes_addressing_move<C>(
    nodes: Map<ExpanderNode, MoveNode<C>>,
    dialog_move: DialogMove,
) -> Set<ExpanderNode> {
    Set::new(|id: ExpanderNode| addresses_move(nodes, id, dialog_move))
}

/// The registered nodes that address the topic.
pub open spec fn nodes_addressing_topic<C>(
    nodes: Map<ExpanderNode, MoveNode<C>>,
    topic: Topic,
) -> Set<ExpanderNode> {
    Set::new(|id: ExpanderNode| addresses_topic(nodes, id, topic))
}

/// The registered nodes that list `child` in one of their parts.
pub open spec fn nodes_listing<C>(
    nodes: Map<ExpanderNode, MoveNode<C>>,
    child: ExpanderNode,
) -> Set<ExpanderNode> {
    Set::new(|id: ExpanderNode| is_parent(nodes, id, child))
}

/// Whether no registered node lists `child` in one of its parts.
pub open spec fn top_level<C>(nodes: Map<ExpanderNode, MoveNode<C>>, child: ExpanderNode) -> bool {
    forall|id: ExpanderNode| !is_parent(nodes, id, child)
}

impl<C> Expander<C> {
    /// How many levels deep a node may be made: as many as there are nodes.
    pub open spec fn depth(&self) -> nat {
        self@.dom().len()
    }

    /// The nodes that address the dialog move, each once, in no particular order.
    pub fn nodes_for_move(&self, dialog_move: DialogMove) -> (ids: Vec<ExpanderNode>)
        ensures
            ids@.no_duplicates(),
            ids@.to_set() == self.move_index(dialog_move),
            forall|id: ExpanderNode| ids@.contains(id) <==> addresses_move(self@, id, dialog_move),
    {
        proof {
            use_type_invariant(self);
        }
        let ids = match self.addressing_move.get(dialog_move) {
            Some(listed) => listed.to_vec(),
            None => Vec::new(),
        };
        proof {
            assert forall|id: ExpanderNode| ids@.contains(id) <==> addresses_move(
                self@,
                id,
                dialog_move,
            ) by {
                assert(ids@.contains(id) <==> ids@.to_set().contains(id));
                assert(holds_in(self.addressing_move@, dialog_move, id) <==> addresses_move(
                    self@,
                    id,
                    dialog_move,
                ));
            }
            assert(ids@.to_set() =~= self.move_index(dialog_move));
        }
        ids
    }

    /// The nodes that address the topic, each once, in no particular order.
    pub fn nodes_for_topic(&self, topic: Topic) -> (ids: Vec<ExpanderNode>)
        ensures
            ids@.no_duplicates(),
            ids@.to_set() == self.topic_index(topic),
            forall|id: ExpanderNode| ids@.contains(id) <==> addresses_topic(self@, id, topic),
    {
        proof {
            use_type_invariant(self);
        }
        let ids = match self.addressing_topic.get(topic) {
            Some(listed) => listed.to_vec(),
            None => Vec::new(),
        };
        proof {
            assert forall|id: ExpanderNode| ids@.contains(id) <==> addresses_topic(
                self@,
                id,
                topic,
            ) by {
                assert(ids@.contains(id) <==> ids@.to_set().contains(id));
                assert(holds_in(self.addressing_topic@, topic, id) <==> addresses_topic(
                    self@,
                    id,
                    topic,
                ));
            }
            assert(ids@.to_set() =~= self.topic_index(topic));
        }
        ids
    }

    /// The nodes that list `child` in one of their parts, each once, in no
    /// particular order.
    pub fn parents_of(&self, child: ExpanderNode) -> (ids: Vec<ExpanderNode>)
        ensures
            ids@.no_duplicates(),
            ids@.to_set() == self.parent_index(child),
            forall|id: ExpanderNode| ids@.contains(id) <==> is_parent(self@, id, child),
    {
        proof {
            use_type_invariant(self);
        }
        let ids = match self.apart_of.get(child) {
            Some(listed) => listed.to_vec(),
            None => Vec::new(),
        };
        proof {
            assert forall|id: ExpanderNode| ids@.contains(id) <==> is_parent(
                self@,
                id,
                child,
            ) by {
                assert(ids@.contains(id) <==> ids@.to_set().contains(id));
                assert(holds_in(self.apart_of@, child, id) <==> is_parent(self@, id, child));
            }
            assert(ids@.to_set() =~= self.parent_index(child));
        }
        ids
    }

    /// Whether no node lists `node` in one of its parts.
    pub fn is_top_level(&self, node: ExpanderNode) -> (yes: bool)
        ensures
            yes == top_level(self@, node),
    {
        proof {
            use_type_invariant(self);
        }
        match self.apart_of.get(node) {
            Some(parents) => {
                let empty = parents.is_empty();
                proof {
                    if empty {
                        assert forall|id: ExpanderNode| !is_parent(self@, id, node) by {
                            assert(!holds_in(self.apart_of@, node, id));
                        }
                    } else {
                        let id = choose|id: ExpanderNode| parents@.contains(id);
                        assert(parents@ != Set::<u64>::empty());
                        assert(exists|id: ExpanderNode| parents@.contains(id)) by {
                            if forall|id: ExpanderNode| !parents@.contains(id) {
                                assert(parents@ =~= Set::<u64>::empty());
                            }
                        }
                        assert(holds_in(self.apart_of@, node, id));
                        assert(is_parent(self@, id, node));
                    }
                }
                empty
            },
            None => {
                proof {
                    assert forall|id: ExpanderNode| !is_parent(self@, id, node) by {
                        assert(!holds_in(self.apart_of@, node, id));
                    }
                }
                true
            },
        }
    }
}

} // verus!
