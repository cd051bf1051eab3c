//! The dialog manager: it holds the expander nodes and the frames, and lets a
//! conversation take one step at a time.

use crate::conversation::Conversation;
use crate::expander::{
    extended, has_expander_for_move, has_expander_for_topic, Expander, ExpanderErr,
    ExpanderResult,
};
use crate::goal::Frame;
use crate::ledger::{decayed, DialogMove, HistoricalMove, Speaker, Topic};
use crate::node::{ExpanderNode, MoveNode};
use crate::random::{sample_chance, Rng};
use crate::sequences::lemma_rearranged;
use crate::realize::{
    made_for_move, made_for_topic, move_blocked, move_is_hopeless, move_is_sure, topic_blocked,
    topic_is_hopeless, topic_is_sure,
};
use rand::distributions::Bernoulli;
use vstd::prelude::*;

verus! {

/// Whether `after` is the conversation `before` once a move was made for the dialog
/// move and taken in.
pub open spec fn speaks_move<C>(
    nodes: Map<ExpanderNode, MoveNode<C>>,
    depth: nat,
    dialog_move: DialogMove,
    before: Conversation<C>,
    after: Conversation<C>,
) -> bool {
    exists|mid: Conversation<C>, made: HistoricalMove|
        #![trigger made_for_move(nodes, dialog_move, depth, before, mid, made), mid.updated_by(made, after)]
        made_for_move(nodes, dialog_move, depth, before, mid, made) && mid.updated_by(made, after)
}

/// Whether `after` is the conversation `before` once a move was made for the topic
/// and taken in.
pub open spec fn speaks_topic<C>(
    nodes: Map<ExpanderNode, MoveNode<C>>,
    depth: nat,
    topic: Topic,
    before: Conversation<C>,
    after: Conversation<C>,
) -> bool {
    exists|mid: Conversation<C>, made: HistoricalMove|
        #![trigger made_for_topic(nodes, topic, depth, before, mid, made), mid.updated_by(made, after)]
        made_for_topic(nodes, topic, depth, before, mid, made) && mid.updated_by(made, after)
}

/// Whether the participant who speaks next may try the dialog move: a goal proposes
/// it to that participant, or the participant owes it.
pub open spec fn may_try<C>(conversation: Conversation<C>, dialog_move: DialogMove) -> bool {
    conversation.goal_proposals().contains(dialog_move) || conversation.state.participant(
        conversation.state.speaker,
    ).pushed_obligations@.contains_key(dialog_move)
}

/// Whether `after` is the conversation `before` once the participant who speaks
/// next has spoken: of a topic that was introduced and not yet addressed, or by a
/// dialog move that the participant may try.
pub open spec fn speaks<C>(
    nodes: Map<ExpanderNode, MoveNode<C>>,
    depth: nat,
    before: Conversation<C>,
    after: Conversation<C>,
) -> bool {
    ||| exists|topic: Topic|
        before.state.open_topics().contains(topic) && #[trigger] speaks_topic(
            nodes,
            depth,
            topic,
            before,
            after,
        )
    ||| exists|dialog_move: DialogMove|
        may_try(before, dialog_move) && #[trigger] speaks_move(
            nodes,
            depth,
            dialog_move,
            before,
            after,
        )
}

/// Whether the participant who speaks next may find nothing to say: every topic
/// that waits and every dialog move that the participant may try is blocked.
pub open spec fn quiet<C>(
    nodes: Map<ExpanderNode, MoveNode<C>>,
    depth: nat,
    conversation: Conversation<C>,
) -> bool {
    &&& forall|topic: Topic| #[trigger]
        conversation.state.open_topics().contains(topic) ==> topic_blocked(
            nodes,
            &conversation,
            topic,
            depth,
        )
    &&& forall|dialog_move: DialogMove| #[trigger]
        may_try(conversation, dialog_move) ==> move_blocked(
            nodes,
            &conversation,
            dialog_move,
            depth,
        )
}

/// Whether the error may come up when the participant who speaks next tries to
/// speak: no node addresses a topic that waits, or a dialog move that the
/// participant may try.
pub open spec fn lacks<C>(
    nodes: Map<ExpanderNode, MoveNode<C>>,
    conversation: Conversation<C>,
    why: ExpanderErr,
) -> bool {
    match why {
        ExpanderErr::NoExpanderForTopic(topic) => conversation.state.open_topics().contains(topic)
            && !has_expander_for_topic(nodes, topic),
        ExpanderErr::NoExpanderForMove(dialog_move) => may_try(conversation, dialog_move)
            && !has_expander_for_move(nodes, dialog_move),
        ExpanderErr::NoNodesSatisfyPreconditions => false,
    }
}

impl<C> Conversation<C> {
    /// The conversation with the other participant as the one who speaks next.
    pub open spec fn turned(self) -> Conversation<C> {
        Conversation {
            state: crate::conversation::ConversationState {
                speaker: self.state.speaker.flipped(),
                ..self.state
            },
            ..self
        }
    }

    /// The conversation, over.
    pub open spec fn ended(self) -> Conversation<C> {
        Conversation {
            state: crate::conversation::ConversationState { done: true, ..self.state },
            ..self
        }
    }

    /// Whether `after` is the conversation one timestep later: the obligations of
    /// both participants have decayed, and nothing else has changed.
    pub open spec fn ticked(self, after: Conversation<C>) -> bool {
        &&& after.state.person0.pushed_obligations@ == decayed(
            self.state.person0.pushed_obligations@,
        )
        &&& after.state.person1.pushed_obligations@ == decayed(
            self.state.person1.pushed_obligations@,
        )
        &&& after.state.same_setting(self.state)
        &&& after.state.person0.topics == self.state.person0.topics
        &&& after.state.person1.topics == self.state.person1.topics
        &&& after.state.topic_state == self.state.topic_state
        &&& after.state.history == self.state.history
        &&& after.goals == self.goals
    }
}

/// Whether a lull that begins in the conversation `before` may end in `after` with
/// the result `outcome`. The conversation may be over at once. Else the participant
/// who speaks next tries the lull move, then the other one; when one of them makes
/// it, the other speaks next. When neither can, the conversation is over.
pub open spec fn lulls<C>(
    nodes: Map<ExpanderNode, MoveNode<C>>,
    depth: nat,
    lull_move: DialogMove,
    before: Conversation<C>,
    after: Conversation<C>,
    outcome: ExpanderResult<()>,
) -> bool {
    let missing = ExpanderErr::NoExpanderForMove(lull_move);
    ||| outcome is Ok && after == before.ended()
    ||| outcome is Ok && exists|spoken: Conversation<C>| #[trigger]
        speaks_move(nodes, depth, lull_move, before, spoken) && after == spoken.turned()
    ||| outcome is Ok && move_blocked(nodes, &before, lull_move, depth) && exists|
        spoken: Conversation<C>,
    | #[trigger]
        speaks_move(nodes, depth, lull_move, before.turned(), spoken) && after == spoken.turned()
    ||| outcome is Ok && move_blocked(nodes, &before, lull_move, depth) && move_blocked(
        nodes,
        &before.turned(),
        lull_move,
        depth,
    ) && after == before.turned().ended()
    ||| outcome == Err::<(), ExpanderErr>(missing) && !has_expander_for_move(nodes, lull_move) && after
        == before
}

/// Whether one step may turn the conversation `before`, which is not over and in
/// which the timestep has passed, into `after` with the result `outcome`. The
/// participant who speaks next tries to speak, then the other one; when one of them
/// has spoken, the other speaks next. When neither finds anything to say, there is
/// a lull. An error comes up where no node addresses what a participant tries, and
/// the step ends there.
pub open spec fn takes_turn<C>(
    nodes: Map<ExpanderNode, MoveNode<C>>,
    depth: nat,
    lull_move: DialogMove,
    before: Conversation<C>,
    after: Conversation<C>,
    outcome: ExpanderResult<()>,
) -> bool {
    ||| outcome is Ok && exists|spoken: Conversation<C>| #[trigger]
        speaks(nodes, depth, before, spoken) && after == spoken.turned()
    ||| outcome is Ok && quiet(nodes, depth, before) && exists|spoken: Conversation<C>| #[trigger]
        speaks(nodes, depth, before.turned(), spoken) && after == spoken.turned()
    ||| outcome matches Err(why) && lacks(nodes, before, why) && after == before
    ||| outcome matches Err(why) && quiet(nodes, depth, before) && lacks(
        nodes,
        before.turned(),
        why,
    ) && after == before.turned()
    ||| quiet(nodes, depth, before) && quiet(nodes, depth, before.turned()) && lulls(
        nodes,
        depth,
        lull_move,
        before.turned(),
        after,
        outcome,
    )
}

/// The dialog manager.
#[verifier::reject_recursive_types(C)]
pub struct DialogManager<C> {
    /// The registry of expander nodes.
    pub expander: Expander<C>,
    /// The frames, which set up each conversation that begins.
    pub frames: Vec<Frame<C>>,
}

impl<C> DialogManager<C> {
    /// The expander nodes, each under its name.
    pub open spec fn nodes(&self) -> Map<ExpanderNode, MoveNode<C>> {
        self.expander@
    }

    /// How many levels deep a node may be made: as many as there are nodes.
    pub open spec fn depth(&self) -> nat {
        self.nodes().dom().len()
    }

    /// The manager of the given nodes and frames. Of two nodes with one name the
    /// later one stays.
    pub fn new(expanders: Vec<(ExpanderNode, MoveNode<C>)>, frames: Vec<Frame<C>>) -> (manager:
        DialogManager<C>)
        ensures
            manager.nodes() == extended(Map::empty(), expanders@),
            manager.frames@ == frames@,
    {
        DialogManager { expander: Expander::from_named(expanders), frames }
    }

    /// Makes the indices of the expander nodes anew: the nodes and the frames stay,
    /// and the indices are those of the nodes.
    pub fn rebuild_expander(&mut self)
        ensures
            final(self).nodes() == old(self).nodes(),
            final(self).frames == old(self).frames,
            final(self).expander.indices_built(),
    {
        self.expander.build();
    }

    /// Begins a conversation, and lets each frame set it up, in their order.
    pub fn new_conversation(
        &self,
        initiator: Speaker,
        lull_continue_chance: Bernoulli,
        person0: C,
        person1: C,
    ) -> (conversation: Conversation<C>)
        ensures
            exists|trace: Seq<Conversation<C>>|
                {
                    &&& Conversation::framed(self.frames@, trace)
                    &&& trace[0].is_fresh(initiator, lull_continue_chance, person0, person1)
                    &&& #[trigger] trace.last() == conversation
                },
    {
        Conversation::new(initiator, &self.frames, lull_continue_chance, person0, person1)
    }

    /// The node of the given name, if there is one.
    pub fn get_move_node(&self, expander_node: ExpanderNode) -> (node: Option<&MoveNode<C>>)
        ensures
            node == (if self.nodes().contains_key(expander_node) {
                Some(&self.nodes()[expander_node])
            } else {
                None
            }),
    {
        self.expander.get_node(expander_node)
    }

    /// Registers a node under a name, in place of the node that had the name.
    pub fn insert_move_node(&mut self, expander_node: ExpanderNode, move_node: MoveNode<C>) -> (previous:
        Option<MoveNode<C>>)
        ensures
            final(self).nodes() == old(self).nodes().insert(expander_node, move_node),
            final(self).frames == old(self).frames,
            previous == (if old(self).nodes().contains_key(expander_node) {
                Some(old(self).nodes()[expander_node])
            } else {
                None
            }),
    {
        self.expander.insert(expander_node, move_node)
    }

    /// Registers every node of a list under its name, in the order of the list.
    pub fn extend_move_nodes(&mut self, named: Vec<(ExpanderNode, MoveNode<C>)>)
        ensures
            final(self).nodes() == extended(old(self).nodes(), named@),
            final(self).frames == old(self).frames,
    {
        self.expander.extend(named);
    }

    /// Adds frames, behind those that are there.
    pub fn extend_frames(&mut self, frames: Vec<Frame<C>>)
        ensures
            final(self).frames@ == old(self).frames@ + frames@,
            final(self).nodes() == old(self).nodes(),
    {
        let mut more = frames;
        self.frames.append(&mut more);
    }

    /// Takes the node of the given name out.
    pub fn remove_move_node(&mut self, expander_node: ExpanderNode) -> (previous: Option<
        MoveNode<C>,
    >)
        ensures
            final(self).nodes() == old(self).nodes().remove(expander_node),
            final(self).frames == old(self).frames,
            previous == (if old(self).nodes().contains_key(expander_node) {
                Some(old(self).nodes()[expander_node])
            } else {
                None
            }),
    {
        self.expander.remove(expander_node)
    }

    /// Tries to make a move for the dialog move, and takes it into the conversation.
    /// The result tells whether a move was made; the conversation stays as it is
    /// where none was.
    pub fn attempt_to_make_move(
        &self,
        rng: &mut Rng,
        conversation: &mut Conversation<C>,
        dialog_move: DialogMove,
    ) -> (made: ExpanderResult<bool>)
        ensures
            match made {
                Ok(true) => speaks_move(
                    self.nodes(),
                    self.depth(),
                    dialog_move,
                    *old(conversation),
                    *final(conversation),
                ),
                Ok(false) => move_blocked(
                    self.nodes(),
                    &*old(conversation),
                    dialog_move,
                    self.depth(),
                ),
                Err(why) => why == ExpanderErr::NoExpanderForMove(dialog_move)
                    && !has_expander_for_move(self.nodes(), dialog_move),
            },
            !(made matches Ok(true)) ==> *final(conversation) == *old(conversation),
            made is Err <==> !has_expander_for_move(self.nodes(), dialog_move),
            move_is_sure(self.nodes(), &*old(conversation), dialog_move, self.depth()) ==> made
                == Ok::<bool, ExpanderErr>(true),
            move_is_hopeless(self.nodes(), &*old(conversation), dialog_move, self.depth())
                ==> !(made matches Ok(true)),
    {
        match self.expander.address_dialog_move(conversation, rng, dialog_move) {
            Ok(hmove) => {
                let ghost mid = *conversation;
                conversation.update_for_move(hmove);
                proof {
                    assert(made_for_move(
                        self.nodes(),
                        dialog_move,
                        self.depth(),
                        *old(conversation),
                        mid,
                        hmove,
                    ));
                    assert(mid.updated_by(hmove, *conversation));
                }
                Ok(true)
            },
            Err(ExpanderErr::NoNodesSatisfyPreconditions) => Ok(false),
            Err(why) => Err(why),
        }
    }

    /// Tries to make a move for the topic, and takes it into the conversation. The
    /// result tells whether a move was made; the conversation stays as it is where
    /// none was.
    pub fn attempt_to_address_topic(
        &self,
        rng: &mut Rng,
        conversation: &mut Conversation<C>,
        topic: Topic,
    ) -> (made: ExpanderResult<bool>)
        ensures
            match made {
                Ok(true) => speaks_topic(
                    self.nodes(),
                    self.depth(),
                    topic,
                    *old(conversation),
                    *final(conversation),
                ),
                Ok(false) => topic_blocked(self.nodes(), &*old(conversation), topic, self.depth()),
                Err(why) => why == ExpanderErr::NoExpanderForTopic(topic)
                    && !has_expander_for_topic(self.nodes(), topic),
            },
            !(made matches Ok(true)) ==> *final(conversation) == *old(conversation),
            made is Err <==> !has_expander_for_topic(self.nodes(), topic),
            topic_is_sure(self.nodes(), &*old(conversation), topic, self.depth()) ==> made
                == Ok::<bool, ExpanderErr>(true),
            topic_is_hopeless(self.nodes(), &*old(conversation), topic, self.depth())
                ==> !(made matches Ok(true)),
    {
        match self.expander.address_topic(conversation, rng, topic) {
            Ok(hmove) => {
                let ghost mid = *conversation;
                conversation.update_for_move(hmove);
                proof {
                    assert(made_for_topic(
                        self.nodes(),
                        topic,
                        self.depth(),
                        *old(conversation),
                        mid,
                        hmove,
                    ));
                    assert(mid.updated_by(hmove, *conversation));
                }
                Ok(true)
            },
            Err(ExpanderErr::NoNodesSatisfyPreconditions) => Ok(false),
            Err(why) => Err(why),
        }
    }

    /// Lets the participant who speaks next try to speak: first of each topic that
    /// was introduced and not yet addressed, in an order that the generator picks;
    /// then by each dialog move that the participant may try, the most urgent
    /// obligation first and what the goals propose last. The first move that can be
    /// made is made. The result tells whether one was; the conversation stays as it
    /// is where none was.
    pub fn attempt_to_speak(&self, rng: &mut Rng, conversation: &mut Conversation<C>) -> (spoke:
        ExpanderResult<bool>)
        ensures
            match spoke {
                Ok(true) => speaks(
                    self.nodes(),
                    self.depth(),
                    *old(conversation),
                    *final(conversation),
                ),
                Ok(false) => quiet(self.nodes(), self.depth(), *old(conversation)),
                Err(why) => lacks(self.nodes(), *old(conversation), why),
            },
            !(spoke matches Ok(true)) ==> *final(conversation) == *old(conversation),
    {
        let topics = conversation.get_next_speaker_topics(rng);
        let mut t: usize = 0;
        while t < topics.len()
            invariant
                t <= topics@.len(),
                *conversation == *old(conversation),
                topics@.to_set() == conversation.state.open_topics(),
                forall|b: int|
                    0 <= b < t ==> topic_blocked(
                        self.nodes(),
                        &*conversation,
                        #[trigger] topics@[b],
                        self.depth(),
                    ),
            decreases topics@.len() - t,
        {
            let topic = topics[t];
            proof {
                assert(topics@.contains(topic));
                assert(topics@.to_set().contains(topic));
            }
            match self.attempt_to_address_topic(rng, conversation, topic) {
                Ok(true) => {
                    proof {
                        assert(speaks_topic(
                            self.nodes(),
                            self.depth(),
                            topic,
                            *old(conversation),
                            *conversation,
                        ));
                    }
                    return Ok(true);
                },
                Ok(false) => {},
                Err(why) => {
                    return Err(why);
                },
            }
            t += 1;
        }
        let moves = conversation.get_next_speaker_moves(rng);
        proof {
            lemma_moves_to_try(*conversation, moves@);
        }
        let mut m: usize = moves.len();
        while m > 0
            invariant
                m <= moves@.len(),
                *conversation == *old(conversation),
                topics@.to_set() == conversation.state.open_topics(),
                forall|b: int|
                    0 <= b < topics@.len() ==> topic_blocked(
                        self.nodes(),
                        &*conversation,
                        #[trigger] topics@[b],
                        self.depth(),
                    ),
                forall|x: DialogMove| moves@.contains(x) <==> may_try(*conversation, x),
                forall|b: int|
                    m <= b < moves@.len() ==> move_blocked(
                        self.nodes(),
                        &*conversation,
                        #[trigger] moves@[b],
                        self.depth(),
                    ),
            decreases m,
        {
            m -= 1;
            let dialog_move = moves[m];
            proof {
                assert(moves@.contains(dialog_move));
            }
            match self.attempt_to_make_move(rng, conversation, dialog_move) {
                Ok(true) => {
                    proof {
                        assert(may_try(*old(conversation), dialog_move));
                        assert(speaks_move(
                            self.nodes(),
                            self.depth(),
                            dialog_move,
                            *old(conversation),
                            *conversation,
                        ));
                    }
                    return Ok(true);
                },
                Ok(false) => {},
                Err(why) => {
                    return Err(why);
                },
            }
        }
        proof {
            assert forall|topic: Topic| #[trigger]
                conversation.state.open_topics().contains(topic) implies topic_blocked(
                self.nodes(),
                &*conversation,
                topic,
                self.depth(),
            ) by {
                assert(topics@.to_set().contains(topic));
                let b = choose|b: int| 0 <= b < topics@.len() && topics@[b] == topic;
                assert(topic_blocked(self.nodes(), &*conversation, topics@[b], self.depth()));
            }
            assert forall|dialog_move: DialogMove| #[trigger]
                may_try(*conversation, dialog_move) implies move_blocked(
                self.nodes(),
                &*conversation,
                dialog_move,
                self.depth(),
            ) by {
                assert(moves@.contains(dialog_move));
                let b = choose|b: int| 0 <= b < moves@.len() && moves@[b] == dialog_move;
                assert(move_blocked(self.nodes(), &*conversation, moves@[b], self.depth()));
            }
        }
        Ok(false)
    }

    /// Lets the conversation take one step. A conversation that is over stays as it
    /// is. Else a timestep passes for what both participants owe, and the
    /// participants take their turn.
    pub fn step_conversation(
        &self,
        conversation: &mut Conversation<C>,
        lull_move: DialogMove,
        rng: &mut Rng,
    ) -> (outcome: ExpanderResult<()>)
        ensures
            old(conversation).state.done ==> outcome is Ok && *final(conversation) == *old(
                conversation,
            ),
            !old(conversation).state.done ==> exists|ticked: Conversation<C>|
                #![trigger old(conversation).ticked(ticked)]
                old(conversation).ticked(ticked) && takes_turn(
                    self.nodes(),
                    self.depth(),
                    lull_move,
                    ticked,
                    *final(conversation),
                    outcome,
                ),
    {
        if conversation.state.done {
            return Ok(());
        }
        conversation.timestep();
        let ghost ticked = *conversation;
        let ghost nodes = self.nodes();
        let ghost depth = self.depth();
        proof {
            assert(old(conversation).ticked(ticked));
        }
        let first = self.attempt_to_speak(rng, conversation);
        match first {
            Ok(true) => {
                let ghost spoken = *conversation;
                conversation.state.speaker = conversation.state.speaker.other();
                proof {
                    assert(speaks(nodes, depth, ticked, spoken) && *conversation
                        == spoken.turned());
                    assert(takes_turn(
                        nodes,
                        depth,
                        lull_move,
                        ticked,
                        *conversation,
                        Ok::<(), ExpanderErr>(()),
                    ));
                }
                return Ok(());
            },
            Ok(false) => {},
            Err(why) => {
                proof {
                    assert(takes_turn(
                        nodes,
                        depth,
                        lull_move,
                        ticked,
                        *conversation,
                        Err::<(), ExpanderErr>(why),
                    ));
                }
                return Err(why);
            },
        }
        conversation.state.speaker = conversation.state.speaker.other();
        proof {
            assert(*conversation == ticked.turned());
        }
        let second = self.attempt_to_speak(rng, conversation);
        match second {
            Ok(true) => {
                let ghost spoken = *conversation;
                conversation.state.speaker = conversation.state.speaker.other();
                proof {
                    assert(speaks(nodes, depth, ticked.turned(), spoken) && *conversation
                        == spoken.turned());
                    assert(takes_turn(
                        nodes,
                        depth,
                        lull_move,
                        ticked,
                        *conversation,
                        Ok::<(), ExpanderErr>(()),
                    ));
                }
                return Ok(());
            },
            Ok(false) => {},
            Err(why) => {
                proof {
                    assert(takes_turn(
                        nodes,
                        depth,
                        lull_move,
                        ticked,
                        *conversation,
                        Err::<(), ExpanderErr>(why),
                    ));
                }
                return Err(why);
            },
        }
        let ghost lull = *conversation;
        if !sample_chance(&conversation.state.lull_continue_chance, rng) {
            conversation.state.done = true;
            proof {
                assert(*conversation == lull.ended());
                assert(lulls(
                    nodes,
                    depth,
                    lull_move,
                    lull,
                    *conversation,
                    Ok::<(), ExpanderErr>(()),
                ));
            }
            return Ok(());
        }
        match self.attempt_to_make_move(rng, conversation, lull_move) {
            Ok(true) => {
                let ghost spoken = *conversation;
                conversation.state.speaker = conversation.state.speaker.other();
                proof {
                    assert(speaks_move(nodes, depth, lull_move, lull, spoken) && *conversation
                        == spoken.turned());
                    assert(lulls(
                        nodes,
                        depth,
                        lull_move,
                        lull,
                        *conversation,
                        Ok::<(), ExpanderErr>(()),
                    ));
                }
                return Ok(());
            },
            Ok(false) => {},
            Err(why) => {
                proof {
                    assert(lulls(
                        nodes,
                        depth,
                        lull_move,
                        lull,
                        *conversation,
                        Err::<(), ExpanderErr>(why),
                    ));
                }
                return Err(why);
            },
        }
        conversation.state.speaker = conversation.state.speaker.other();
        proof {
            assert(*conversation == lull.turned());
        }
        match self.attempt_to_make_move(rng, conversation, lull_move) {
            Ok(true) => {
                let ghost spoken = *conversation;
                conversation.state.speaker = conversation.state.speaker.other();
                proof {
                    assert(speaks_move(nodes, depth, lull_move, lull.turned(), spoken)
                        && *conversation == spoken.turned());
                    assert(lulls(
                        nodes,
                        depth,
                        lull_move,
                        lull,
                        *conversation,
                        Ok::<(), ExpanderErr>(()),
                    ));
                }
                Ok(())
            },
            Ok(false) => {
                conversation.state.done = true;
                proof {
                    assert(*conversation == lull.turned().ended());
                    assert(lulls(
                        nodes,
                        depth,
                        lull_move,
                        lull,
                        *conversation,
                        Ok::<(), ExpanderErr>(()),
                    ));
                }
                Ok(())
            },
            Err(why) => {
                proof {
                    assert(lulls(
                        nodes,
                        depth,
                        lull_move,
                        lull,
                        *conversation,
                        Err::<(), ExpanderErr>(why),
                    ));
                }
                Err(why)
            },
        }
    }
}

/// The dialog moves that the participant who speaks next gets to try are those that
/// the participant may try.
proof fn lemma_moves_to_try<C>(conversation: Conversation<C>, moves: Seq<DialogMove>)
    requires
        moves.len() >= conversation.goal_proposals().len(),
        moves.take(conversation.goal_proposals().len() as int).to_multiset()
            == conversation.goal_proposals().to_multiset(),
        crate::conversation::urgency_order(
            conversation.state.participant(conversation.state.speaker).pushed_obligations@,
            moves.skip(conversation.goal_proposals().len() as int),
        ),
    ensures
        forall|x: DialogMove| moves.contains(x) <==> may_try(conversation, x),
{
    let n = conversation.goal_proposals().len() as int;
    let proposed = moves.take(n);
    let owed = moves.skip(n);
    lemma_rearranged(conversation.goal_proposals(), proposed);
    assert forall|x: DialogMove| moves.contains(x) <==> may_try(conversation, x) by {
        if moves.contains(x) {
            let k = choose|k: int| 0 <= k < moves.len() && moves[k] == x;
            if k < n {
                assert(proposed[k] == x);
                assert(proposed.contains(x));
            } else {
                assert(owed[k - n] == x);
                assert(owed.contains(x));
                assert(owed.to_set().contains(x));
            }
        }
        if conversation.goal_proposals().contains(x) {
            assert(proposed.contains(x));
            let k = choose|k: int| 0 <= k < proposed.len() && proposed[k] == x;
            assert(moves[k] == x);
        }
        if conversation.state.participant(
            conversation.state.speaker,
        ).pushed_obligations@.contains_key(x) {
            assert(owed.to_set().contains(x));
            let k = choose|k: int| 0 <= k < owed.len() && owed[k] == x;
            assert(moves[k + n] == x);
        }
    }
}

} // verus!
