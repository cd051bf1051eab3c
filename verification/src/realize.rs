//! The making of a move out of a tree: its words, what its nodes declare, and
//! what their edits do.

use crate::chain::{embeds, may_embed, takes, well_chained, wraps, ExpansionTree};
use crate::conversation::Conversation;
use crate::expander::{
    addresses_move, addresses_topic, has_expander_for_move, has_expander_for_topic, top_level,
    Expander, ExpanderErr, ExpanderResult,
};
use crate::ledger::{
    DialogMove, HistoricalMove, MoveView, ObligationsView, Speaker, Topic, TopicStateView,
};
use crate::node::{EditHistoricalMove, ExpanderNode, MoveNode};
use crate::random::Rng;
use vstd::prelude::*;

verus! {

/// Whether every node of the tree is registered.
pub open spec fn registered<C>(nodes: Map<ExpanderNode, MoveNode<C>>, tree: ExpansionTree) -> bool
    decreases tree,
{
    &&& nodes.contains_key(tree.expander_node)
    &&& forall|p: int|
        0 <= p < tree.parts@.len() ==> registered(nodes, #[trigger] tree.parts@[p])
}

/// A tree that is made as the nodes say holds registered nodes only.
pub proof fn lemma_well_chained_registered<C>(
    nodes: Map<ExpanderNode, MoveNode<C>>,
    conversation: &Conversation<C>,
    tree: ExpansionTree,
)
    requires
        well_chained(nodes, conversation, tree),
    ensures
        registered(nodes, tree),
    decreases tree,
{
    assert forall|p: int| 0 <= p < tree.parts@.len() implies registered(
        nodes,
        #[trigger] tree.parts@[p],
    ) by {
        lemma_well_chained_registered(nodes, conversation, tree.parts@[p]);
    }
}

/// Whether `text` may be the words of the tree: its node makes them out of words
/// that its parts may have, taken in the order of the parts.
pub open spec fn utters<C>(
    nodes: Map<ExpanderNode, MoveNode<C>>,
    conversation: &Conversation<C>,
    tree: ExpansionTree,
    text: String,
) -> bool
    decreases tree,
{
    &&& nodes.contains_key(tree.expander_node)
    &&& exists|parts: Seq<String>|
        {
            &&& parts.len() == tree.parts@.len()
            &&& forall|p: int|
                0 <= p < tree.parts@.len() ==> utters(
                    nodes,
                    conversation,
                    #[trigger] tree.parts@[p],
                    parts[p],
                )
            &&& #[trigger] nodes[tree.expander_node].formatter.formats(conversation, parts, text)
        }
}

/// A move once a node has added what it declares: the topics that the node
/// addresses are addressed, and its dialog moves are addressed for `speaker`.
pub open spec fn declared_onto<C>(made: MoveView, node: MoveNode<C>, speaker: Speaker) -> MoveView {
    MoveView {
        utterance: made.utterance,
        speaker: made.speaker,
        person0_obligations: if speaker == Speaker::Person0 {
            ObligationsView {
                pushed: made.person0_obligations.pushed,
                addressed: made.person0_obligations.addressed.union(node.dialog_moves@),
            }
        } else {
            made.person0_obligations
        },
        person1_obligations: if speaker == Speaker::Person1 {
            ObligationsView {
                pushed: made.person1_obligations.pushed,
                addressed: made.person1_obligations.addressed.union(node.dialog_moves@),
            }
        } else {
            made.person1_obligations
        },
        topic_state: TopicStateView {
            introduced: made.topic_state.introduced,
            addressed: made.topic_state.addressed.union(node.addressed_topics@),
        },
    }
}

/// Whether the edit of a node, if it has one, may turn `before` into `after`.
/// Without an edit nothing changes.
pub open spec fn edited<C>(
    edit: EditHistoricalMove<C>,
    before: (Conversation<C>, HistoricalMove),
    after: (Conversation<C>, HistoricalMove),
) -> bool {
    match edit.edit {
        Some(change) => change.edits(before, after),
        None => after == before,
    }
}

/// Whether walking the tree may turn the conversation and the move of `before`
/// into those of `after`. The parts come first, in their order; `trace` holds the
/// conversation and the move before and after each of them. Then the node adds what
/// it declares to the move, for the participant who speaks at that point, and its
/// edit, if it has one, is made.
pub open spec fn realizes<C>(
    nodes: Map<ExpanderNode, MoveNode<C>>,
    tree: ExpansionTree,
    before: (Conversation<C>, HistoricalMove),
    after: (Conversation<C>, HistoricalMove),
) -> bool
    decreases tree,
{
    &&& nodes.contains_key(tree.expander_node)
    &&& exists|trace: Seq<(Conversation<C>, HistoricalMove)>, declared: HistoricalMove|
        {
            &&& trace.len() == tree.parts@.len() + 1
            &&& trace[0] == before
            &&& forall|p: int|
                0 <= p < tree.parts@.len() ==> realizes(
                    nodes,
                    #[trigger] tree.parts@[p],
                    trace[p],
                    trace[p + 1],
                )
            &&& declared@ == declared_onto(
                trace.last().1@,
                nodes[tree.expander_node],
                trace.last().0.state.speaker,
            )
            &&& #[trigger] edited(
                nodes[tree.expander_node].edit_historical_move,
                (trace.last().0, declared),
                after,
            )
        }
}

/// Whether making the tree into a move may give `made` and turn the conversation
/// `before` into `after`: the words are made first, then the tree is walked with a
/// move that has those words, the speaker of `before`, and nothing else.
pub open spec fn creates<C>(
    nodes: Map<ExpanderNode, MoveNode<C>>,
    tree: ExpansionTree,
    before: Conversation<C>,
    after: Conversation<C>,
    made: HistoricalMove,
) -> bool {
    exists|text: String, blank: HistoricalMove|
        #![trigger utters(nodes, &before, tree, text), realizes(nodes, tree, (before, blank), (after, made))]
        {
            &&& utters(nodes, &before, tree, text)
            &&& blank@ == MoveView::blank(text@, before.state.speaker)
            &&& realizes(nodes, tree, (before, blank), (after, made))
        }
}

impl<C> Expander<C> {
    /// Makes the words of a tree: each node makes its words out of the words of its
    /// parts. A node that is not registered has no words.
    pub fn create_utterance(
        &self,
        conversation: &Conversation<C>,
        rng: &mut Rng,
        tree: &ExpansionTree,
    ) -> (text: String)
        ensures
            registered(self@, *tree) ==> utters(self@, conversation, *tree, text),
        decreases tree,
    {
        let mut parts: Vec<String> = Vec::new();
        let mut p: usize = 0;
        while p < tree.parts.len()
            invariant
                p <= tree.parts@.len(),
                parts@.len() == p,
                registered(self@, *tree) ==> forall|q: int|
                    0 <= q < p ==> utters(self@, conversation, #[trigger] tree.parts@[q], parts@[q]),
            decreases tree.parts@.len() - p,
        {
            let part = self.create_utterance(conversation, rng, &tree.parts[p]);
            parts.push(part);
            p += 1;
        }
        let ghost texts = parts@;
        match self.get_node(tree.expander_node) {
            Some(node) => {
                let text = node.formatter.format(conversation, rng, parts);
                proof {
                    assert(self@[tree.expander_node].formatter.formats(conversation, texts, text));
                }
                text
            },
            None => String::new(),
        }
    }

    /// Walks a tree and fills in the move that is being made: the parts come first;
    /// then the node adds the topics and dialog moves that it declares, and makes
    /// its edit, if it has one. A node that is not registered adds nothing.
    pub fn create_historical_tree(
        &self,
        conversation: &mut Conversation<C>,
        rng: &mut Rng,
        tree: &ExpansionTree,
        historical_move: &mut HistoricalMove,
    )
        ensures
            registered(self@, *tree) ==> realizes(
                self@,
                *tree,
                (*old(conversation), *old(historical_move)),
                (*final(conversation), *final(historical_move)),
            ),
        decreases tree,
    {
        let ghost mut trace: Seq<(Conversation<C>, HistoricalMove)> = seq![
            (*conversation, *historical_move),
        ];
        let mut p: usize = 0;
        while p < tree.parts.len()
            invariant
                p <= tree.parts@.len(),
                trace.len() == p + 1,
                trace[0] == (*old(conversation), *old(historical_move)),
                trace.last() == (*conversation, *historical_move),
                registered(self@, *tree) ==> forall|q: int|
                    0 <= q < p ==> realizes(
                        self@,
                        #[trigger] tree.parts@[q],
                        trace[q],
                        trace[q + 1],
                    ),
            decreases tree.parts@.len() - p,
        {
            self.create_historical_tree(conversation, rng, &tree.parts[p], historical_move);
            proof {
                trace = trace.push((*conversation, *historical_move));
            }
            p += 1;
        }
        match self.get_node(tree.expander_node) {
            Some(node) => {
                let ghost walked = historical_move@;
                match conversation.state.speaker {
                    Speaker::Person0 => {
                        historical_move.person0_obligations.addressed.extend_from(
                            &node.dialog_moves,
                        );
                    },
                    Speaker::Person1 => {
                        historical_move.person1_obligations.addressed.extend_from(
                            &node.dialog_moves,
                        );
                    },
                }
                historical_move.topic_state.addressed.extend_from(&node.addressed_topics);
                let ghost declared = *historical_move;
                proof {
                    assert(declared@ == declared_onto(walked, *node, conversation.state.speaker));
                }
                match &node.edit_historical_move.edit {
                    Some(change) => {
                        change.edit(conversation, rng, historical_move);
                    },
                    None => {},
                }
                proof {
                    assert(edited(
                        self@[tree.expander_node].edit_historical_move,
                        (trace.last().0, declared),
                        (*conversation, *historical_move),
                    ));
                }
            },
            None => {},
        }
    }

    /// Makes a tree into a move: the words first, then what the nodes declare and
    /// what their edits do.
    pub fn create_historical(
        &self,
        conversation: &mut Conversation<C>,
        rng: &mut Rng,
        tree: ExpansionTree,
    ) -> (made: HistoricalMove)
        ensures
            registered(self@, tree) ==> creates(
                self@,
                tree,
                *old(conversation),
                *final(conversation),
                made,
            ),
    {
        let text = self.create_utterance(conversation, rng, &tree);
        let mut made = HistoricalMove::new(text, conversation.state.speaker);
        let ghost blank = made;
        self.create_historical_tree(conversation, rng, &tree, &mut made);
        proof {
            if registered(self@, tree) {
                assert(realizes(self@, tree, (*old(conversation), blank), (*conversation, made)));
            }
        }
        made
    }
}

/// Whether a tree is one whose node was taken: the node can be taken, and the tree
/// is made as the nodes say.
pub open spec fn taken<C>(
    nodes: Map<ExpanderNode, MoveNode<C>>,
    conversation: &Conversation<C>,
    tree: ExpansionTree,
    depth: nat,
) -> bool {
    takes(nodes, conversation, tree.expander_node, depth) && well_chained(
        nodes,
        conversation,
        tree,
    )
}

/// Whether `whole` is a tree that starting from the node `start` may give: `start`
/// can be taken, and `whole` is its tree where no node lists `start`, or that tree
/// set into a node that lists `start`.
pub open spec fn grown_from<C>(
    nodes: Map<ExpanderNode, MoveNode<C>>,
    conversation: &Conversation<C>,
    whole: ExpansionTree,
    start: ExpanderNode,
    depth: nat,
) -> bool {
    &&& takes(nodes, conversation, start, depth)
    &&& well_chained(nodes, conversation, whole)
    &&& if top_level(nodes, start) {
        whole.expander_node == start
    } else {
        exists|tree: ExpansionTree|
            {
                &&& tree.expander_node == start
                &&& well_chained(nodes, conversation, tree)
                &&& #[trigger] wraps(nodes, conversation, whole, tree, depth)
            }
    }
}

/// Whether starting from the node `start` may give no tree although `start` can be
/// taken: other nodes list `start`, and either the precondition of none of them
/// holds, or one of those whose precondition holds cannot be made around it.
pub open spec fn stuck<C>(
    nodes: Map<ExpanderNode, MoveNode<C>>,
    conversation: &Conversation<C>,
    start: ExpanderNode,
    depth: nat,
) -> bool {
    &&& takes(nodes, conversation, start, depth)
    &&& !top_level(nodes, start)
    &&& ((forall|id: ExpanderNode| !may_embed(nodes, conversation, id, start)) || (exists|
        id: ExpanderNode,
    |
        may_embed(nodes, conversation, id, start) && !embeds(
            nodes,
            conversation,
            id,
            start,
            depth,
        )))
}

/// Whether making a move from the node `start` may give `made` and turn the
/// conversation `before` into `after`.
pub open spec fn made_from<C>(
    nodes: Map<ExpanderNode, MoveNode<C>>,
    start: ExpanderNode,
    depth: nat,
    before: Conversation<C>,
    after: Conversation<C>,
    made: HistoricalMove,
) -> bool {
    exists|whole: ExpansionTree|
        grown_from(nodes, &before, whole, start, depth) && #[trigger] creates(
            nodes,
            whole,
            before,
            after,
            made,
        )
}

/// Whether addressing the dialog move may give `made` and turn the conversation
/// `before` into `after`: the move is made from a node that addresses the dialog
/// move.
pub open spec fn made_for_move<C>(
    nodes: Map<ExpanderNode, MoveNode<C>>,
    dialog_move: DialogMove,
    depth: nat,
    before: Conversation<C>,
    after: Conversation<C>,
    made: HistoricalMove,
) -> bool {
    exists|start: ExpanderNode|
        addresses_move(nodes, start, dialog_move) && #[trigger] made_from(
            nodes,
            start,
            depth,
            before,
            after,
            made,
        )
}

/// Whether addressing the topic may give `made` and turn the conversation `before`
/// into `after`: the move is made from a node that addresses the topic.
pub open spec fn made_for_topic<C>(
    nodes: Map<ExpanderNode, MoveNode<C>>,
    topic: Topic,
    depth: nat,
    before: Conversation<C>,
    after: Conversation<C>,
    made: HistoricalMove,
) -> bool {
    exists|start: ExpanderNode|
        addresses_topic(nodes, start, topic) && #[trigger] made_from(
            nodes,
            start,
            depth,
            before,
            after,
            made,
        )
}

/// Whether starting from the node `start` gives a tree for sure: `start` can be
/// taken, and either no node lists it, or the precondition of some node that lists
/// it holds and every such node can be made around it.
pub open spec fn grows<C>(
    nodes: Map<ExpanderNode, MoveNode<C>>,
    conversation: &Conversation<C>,
    start: ExpanderNode,
    depth: nat,
) -> bool {
    takes(nodes, conversation, start, depth) && !stuck(nodes, conversation, start, depth)
}

/// Whether starting from the node `start` gives no tree for sure: `start` cannot be
/// taken, or nodes list it and none of them can be made around it.
pub open spec fn withers<C>(
    nodes: Map<ExpanderNode, MoveNode<C>>,
    conversation: &Conversation<C>,
    start: ExpanderNode,
    depth: nat,
) -> bool {
    !takes(nodes, conversation, start, depth) || (!top_level(nodes, start) && forall|
        id: ExpanderNode,
    |
        !embeds(nodes, conversation, id, start, depth))
}

/// Whether a move is made for the dialog move for sure: some node that addresses
/// it can be taken, and each one that can be taken gives a tree for sure.
pub open spec fn move_is_sure<C>(
    nodes: Map<ExpanderNode, MoveNode<C>>,
    conversation: &Conversation<C>,
    dialog_move: DialogMove,
    depth: nat,
) -> bool {
    &&& exists|id: ExpanderNode|
        addresses_move(nodes, id, dialog_move) && takes(nodes, conversation, id, depth)
    &&& forall|id: ExpanderNode|
        addresses_move(nodes, id, dialog_move) && takes(nodes, conversation, id, depth) ==> grows(
            nodes,
            conversation,
            id,
            depth,
        )
}

/// Whether no move is made for the dialog move for sure: every node that addresses
/// it gives no tree.
pub open spec fn move_is_hopeless<C>(
    nodes: Map<ExpanderNode, MoveNode<C>>,
    conversation: &Conversation<C>,
    dialog_move: DialogMove,
    depth: nat,
) -> bool {
    forall|id: ExpanderNode|
        addresses_move(nodes, id, dialog_move) ==> withers(nodes, conversation, id, depth)
}

/// Whether a move is made for the topic for sure: some node that addresses it can
/// be taken, and each one that can be taken gives a tree for sure.
pub open spec fn topic_is_sure<C>(
    nodes: Map<ExpanderNode, MoveNode<C>>,
    conversation: &Conversation<C>,
    topic: Topic,
    depth: nat,
) -> bool {
    &&& exists|id: ExpanderNode|
        addresses_topic(nodes, id, topic) && takes(nodes, conversation, id, depth)
    &&& forall|id: ExpanderNode|
        addresses_topic(nodes, id, topic) && takes(nodes, conversation, id, depth) ==> grows(
            nodes,
            conversation,
            id,
            depth,
        )
}

/// Whether no move is made for the topic for sure: every node that addresses it
/// gives no tree.
pub open spec fn topic_is_hopeless<C>(
    nodes: Map<ExpanderNode, MoveNode<C>>,
    conversation: &Conversation<C>,
    topic: Topic,
    depth: nat,
) -> bool {
    forall|id: ExpanderNode|
        addresses_topic(nodes, id, topic) ==> withers(nodes, conversation, id, depth)
}

/// Whether nothing can be made for the dialog move as the conversation stands,
/// although nodes address it: none of them can be taken, or one that can be taken
/// is stuck.
pub open spec fn move_blocked<C>(
    nodes: Map<ExpanderNode, MoveNode<C>>,
    conversation: &Conversation<C>,
    dialog_move: DialogMove,
    depth: nat,
) -> bool {
    &&& has_expander_for_move(nodes, dialog_move)
    &&& ((forall|id: ExpanderNode|
        addresses_move(nodes, id, dialog_move) ==> !takes(nodes, conversation, id, depth)) || (
    exists|id: ExpanderNode|
        addresses_move(nodes, id, dialog_move) && stuck(nodes, conversation, id, depth)))
}

/// Whether nothing can be made for the topic as the conversation stands, although
/// nodes address it: none of them can be taken, or one that can be taken is stuck.
pub open spec fn topic_blocked<C>(
    nodes: Map<ExpanderNode, MoveNode<C>>,
    conversation: &Conversation<C>,
    topic: Topic,
    depth: nat,
) -> bool {
    &&& has_expander_for_topic(nodes, topic)
    &&& ((forall|id: ExpanderNode|
        addresses_topic(nodes, id, topic) ==> !takes(nodes, conversation, id, depth)) || (exists|
        id: ExpanderNode,
    |
        addresses_topic(nodes, id, topic) && stuck(nodes, conversation, id, depth)))
}

impl<C> Expander<C> {
    /// Makes a move of a tree whose node was taken: sets the tree into a larger one
    /// where its node is a part of other nodes, and makes the move of what comes
    /// out. The conversation stays as it is where no move comes out.
    pub fn address_tree(
        &self,
        conversation: &mut Conversation<C>,
        rng: &mut Rng,
        tree: ExpansionTree,
    ) -> (made: ExpanderResult<HistoricalMove>)
        ensures
            made matches Err(why) ==> {
                &&& why == ExpanderErr::NoNodesSatisfyPreconditions
                &&& *final(conversation) == *old(conversation)
            },
            taken(self@, &*old(conversation), tree, self.depth()) ==> {
                &&& made matches Ok(hmove) ==> made_from(
                    self@,
                    tree.expander_node,
                    self.depth(),
                    *old(conversation),
                    *final(conversation),
                    hmove,
                )
                &&& made is Ok ==> !withers(
                    self@,
                    &*old(conversation),
                    tree.expander_node,
                    self.depth(),
                )
                &&& made is Err ==> stuck(
                    self@,
                    &*old(conversation),
                    tree.expander_node,
                    self.depth(),
                )
                &&& made is Err ==> !grows(
                    self@,
                    &*old(conversation),
                    tree.expander_node,
                    self.depth(),
                )
            },
    {
        let wrapped = self.backward_chain(conversation, rng, tree);
        match wrapped {
            Ok(whole) => {
                proof {
                    if taken(self@, &*conversation, tree, self.depth()) {
                        lemma_well_chained_registered(self@, &*conversation, whole);
                        assert(grown_from(
                            self@,
                            &*old(conversation),
                            whole,
                            tree.expander_node,
                            self.depth(),
                        )) by {
                            if top_level(self@, tree.expander_node) {
                                assert(whole == tree);
                            } else {
                                assert(wraps(
                                    self@,
                                    &*old(conversation),
                                    whole,
                                    tree,
                                    self.depth(),
                                ));
                            }
                        }
                    }
                }
                let hmove = self.create_historical(conversation, rng, whole);
                Ok(hmove)
            },
            Err(why) => Err(why),
        }
    }

    /// Makes a move that addresses a dialog move. The conversation stays as it is
    /// where no move comes out.
    pub fn address_dialog_move(
        &self,
        conversation: &mut Conversation<C>,
        rng: &mut Rng,
        dialog_move: DialogMove,
    ) -> (made: ExpanderResult<HistoricalMove>)
        ensures
            match made {
                Ok(hmove) => made_for_move(
                    self@,
                    dialog_move,
                    self.depth(),
                    *old(conversation),
                    *final(conversation),
                    hmove,
                ),
                Err(ExpanderErr::NoExpanderForMove(which)) => {
                    &&& which == dialog_move
                    &&& !has_expander_for_move(self@, dialog_move)
                },
                Err(ExpanderErr::NoNodesSatisfyPreconditions) => move_blocked(
                    self@,
                    &*old(conversation),
                    dialog_move,
                    self.depth(),
                ),
                Err(ExpanderErr::NoExpanderForTopic(_)) => false,
            },
            made is Err ==> *final(conversation) == *old(conversation),
            move_is_sure(self@, &*old(conversation), dialog_move, self.depth()) ==> made is Ok,
            move_is_hopeless(self@, &*old(conversation), dialog_move, self.depth())
                ==> made is Err,
    {
        let expanded = self.expand_dialog_move(conversation, rng, dialog_move);
        match expanded {
            Ok(tree) => {
                let ghost start = tree.expander_node;
                let made = self.address_tree(conversation, rng, tree);
                proof {
                    if made is Ok {
                        assert(made_from(
                            self@,
                            start,
                            self.depth(),
                            *old(conversation),
                            *conversation,
                            made->Ok_0,
                        ));
                    } else {
                        assert(addresses_move(self@, start, dialog_move) && stuck(
                            self@,
                            &*old(conversation),
                            start,
                            self.depth(),
                        ));
                    }
                }
                made
            },
            Err(why) => Err(why),
        }
    }

    /// Makes a move that addresses a topic. The conversation stays as it is where
    /// no move comes out.
    pub fn address_topic(&self, conversation: &mut Conversation<C>, rng: &mut Rng, topic: Topic) -> (made:
        ExpanderResult<HistoricalMove>)
        ensures
            match made {
                Ok(hmove) => made_for_topic(
                    self@,
                    topic,
                    self.depth(),
                    *old(conversation),
                    *final(conversation),
                    hmove,
                ),
                Err(ExpanderErr::NoExpanderForTopic(which)) => {
                    &&& which == topic
                    &&& !has_expander_for_topic(self@, topic)
                },
                Err(ExpanderErr::NoNodesSatisfyPreconditions) => topic_blocked(
                    self@,
                    &*old(conversation),
                    topic,
                    self.depth(),
                ),
                Err(ExpanderErr::NoExpanderForMove(_)) => false,
            },
            made is Err ==> *final(conversation) == *old(conversation),
            topic_is_sure(self@, &*old(conversation), topic, self.depth()) ==> made is Ok,
            topic_is_hopeless(self@, &*old(conversation), topic, self.depth()) ==> made is Err,
    {
        let expanded = self.expand_topic(conversation, rng, topic);
        match expanded {
            Ok(tree) => {
                let ghost start = tree.expander_node;
                let made = self.address_tree(conversation, rng, tree);
                proof {
                    if made is Ok {
                        assert(made_from(
                            self@,
                            start,
                            self.depth(),
                            *old(conversation),
                            *conversation,
                            made->Ok_0,
                        ));
                    } else {
                        assert(addresses_topic(self@, start, topic) && stuck(
                            self@,
                            &*old(conversation),
                            start,
                            self.depth(),
                        ));
                    }
                }
                made
            },
            Err(why) => Err(why),
        }
    }
}

} // verus!
