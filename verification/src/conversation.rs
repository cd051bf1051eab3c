//! The state of one conversation between two participants.

use crate::goal::{Frame, Goal};
use crate::ledger::{
    bumped, merged_obligations, DialogMove, HistoricalMove, ParticipantState,
    PushedObligationMetadata, Speaker, Topic, TopicMetadata, TopicState, TopicStateView,
};
use crate::random::{shuffle, Rng};
use crate::sequences::{
    lemma_fresh_in_prefix, lemma_push_to_set, lemma_rearranged, lemma_take_push_to_set,
};
use crate::table::Table;
use rand::distributions::Bernoulli;
use vstd::prelude::*;

verus! {

/// The state of a conversation, but for its goals.
pub struct ConversationState<C> {
    /// The participant who started the conversation.
    pub initiator: Speaker,
    /// The participant who speaks next.
    pub speaker: Speaker,
    /// The state of the first participant.
    pub person0: ParticipantState<C>,
    /// The state of the second participant.
    pub person1: ParticipantState<C>,
    /// The topics that were introduced and addressed so far.
    pub topic_state: TopicState,
    /// The moves that were made, the first one first.
    pub history: Vec<HistoricalMove>,
    /// Whether the conversation is over.
    pub done: bool,
    /// The chance that the conversation goes on when nobody has anything to say.
    pub lull_continue_chance: Bernoulli,
}

/// A conversation between two participants.
#[verifier::reject_recursive_types(C)]
pub struct Conversation<C> {
    /// Who speaks, what was said and what is owed.
    pub state: ConversationState<C>,
    /// The goals of the conversation.
    pub goals: Vec<Goal<C>>,
}

/// The counts of a topic, or no counts where the topic never came up.
pub open spec fn counts_of(counts: Map<Topic, TopicMetadata>, topic: Topic) -> TopicMetadata {
    if counts.contains_key(topic) {
        counts[topic]
    } else {
        TopicMetadata { times_introduced: 0, times_addressed: 0 }
    }
}

/// The counts of a speaker who introduced the topics of `introduced` and addressed
/// those of `addressed`, each once more.
pub open spec fn counted_topics(
    counts: Map<Topic, TopicMetadata>,
    introduced: Set<Topic>,
    addressed: Set<Topic>,
) -> Map<Topic, TopicMetadata> {
    Map::new(
        |t: Topic| counts.contains_key(t) || introduced.contains(t) || addressed.contains(t),
        |t: Topic|
            TopicMetadata {
                times_introduced: if introduced.contains(t) {
                    bumped(counts_of(counts, t).times_introduced)
                } else {
                    counts_of(counts, t).times_introduced
                },
                times_addressed: if addressed.contains(t) {
                    bumped(counts_of(counts, t).times_addressed)
                } else {
                    counts_of(counts, t).times_addressed
                },
            },
    )
}

/// Whether obligation `a` may come before obligation `b` among the moves that a
/// speaker is to try: the less urgent comes first, and of two that are equally
/// urgent the one with more time to live.
pub open spec fn not_after(a: PushedObligationMetadata, b: PushedObligationMetadata) -> bool {
    a.urgency < b.urgency || (a.urgency == b.urgency && a.time_to_live >= b.time_to_live)
}

/// Whether `order` lists the dialog moves that are owed, each once, the less urgent
/// before the more urgent, and among equally urgent ones those with more time to
/// live first.
pub open spec fn urgency_order(
    owed: Map<DialogMove, PushedObligationMetadata>,
    order: Seq<DialogMove>,
) -> bool {
    &&& order.no_duplicates()
    &&& order.to_set() == owed.dom()
    &&& forall|i: int, j: int|
        0 <= i < j < order.len() ==> not_after(owed[#[trigger] order[i]], owed[#[trigger] order[j]])
}

impl<C> ConversationState<C> {
    /// The state of one participant.
    pub open spec fn participant(self, speaker: Speaker) -> ParticipantState<C> {
        match speaker {
            Speaker::Person0 => self.person0,
            Speaker::Person1 => self.person1,
        }
    }

    /// Whether nothing changed between the two states but what the participants
    /// owe and have said.
    pub open spec fn same_setting(self, other: ConversationState<C>) -> bool {
        &&& self.initiator == other.initiator
        &&& self.speaker == other.speaker
        &&& self.done == other.done
        &&& self.lull_continue_chance == other.lull_continue_chance
        &&& self.person0.character == other.person0.character
        &&& self.person1.character == other.person1.character
    }

    /// The topics that were introduced and not yet addressed.
    pub open spec fn open_topics(self) -> Set<Topic> {
        self.topic_state@.introduced.difference(self.topic_state@.addressed)
    }
}

impl<C> Conversation<C> {
    /// The dialog moves that the goals propose to the participant who speaks next,
    /// in the order of the goals.
    pub open spec fn goal_proposals(self) -> Seq<DialogMove> {
        self.goals@.filter_map(
            |goal: Goal<C>|
                match goal.state.proposal(&self.state) {
                    Some(step) => if step.pursuer.agrees(self.state.speaker) {
                        Some(step.dialog_move)
                    } else {
                        None
                    },
                    None => None,
                },
        )
    }

    /// The conversation with another state for one participant.
    pub open spec fn with_participant(
        self,
        speaker: Speaker,
        state: ParticipantState<C>,
    ) -> Conversation<C> {
        match speaker {
            Speaker::Person0 => Conversation {
                state: ConversationState { person0: state, ..self.state },
                ..self
            },
            Speaker::Person1 => Conversation {
                state: ConversationState { person1: state, ..self.state },
                ..self
            },
        }
    }

    /// Whether `self` is a conversation that has just begun: nothing was said,
    /// nothing is owed, and there is no goal.
    pub open spec fn is_fresh(
        self,
        initiator: Speaker,
        lull_continue_chance: Bernoulli,
        person0: C,
        person1: C,
    ) -> bool {
        &&& self.state.initiator == initiator
        &&& self.state.speaker == initiator
        &&& !self.state.done
        &&& self.state.lull_continue_chance == lull_continue_chance
        &&& self.state.person0.character == person0
        &&& self.state.person1.character == person1
        &&& self.state.person0.topics@ == Map::<Topic, TopicMetadata>::empty()
        &&& self.state.person1.topics@ == Map::<Topic, TopicMetadata>::empty()
        &&& self.state.person0.pushed_obligations@ == Map::<
            DialogMove,
            PushedObligationMetadata,
        >::empty()
        &&& self.state.person1.pushed_obligations@ == Map::<
            DialogMove,
            PushedObligationMetadata,
        >::empty()
        &&& self.state.topic_state@ == TopicStateView::empty()
        &&& self.state.history@ == Seq::<HistoricalMove>::empty()
        &&& self.goals@ == Seq::<Goal<C>>::empty()
    }

    /// Whether `goals` are the goals of `self` once each was told of the move `made`,
    /// and saw the conversation as it was before the move.
    pub open spec fn told(self, made: HistoricalMove, goals: Seq<Goal<C>>) -> bool {
        &&& goals.len() == self.goals@.len()
        &&& forall|i: int|
            0 <= i < goals.len() ==> (#[trigger] goals[i]).state.satisfied()
                == self.goals@[i].state.satisfied_after(&self.state, &made)
        &&& forall|i: int, then: &ConversationState<C>|
            0 <= i < goals.len() ==> #[trigger] goals[i].state.proposal(then)
                == self.goals@[i].state.proposal_after(&self.state, &made, then)
    }

    /// Whether `after` is `self` once the move `made` is taken in: its topics are
    /// marked and counted for the participant who speaks, its obligations are
    /// merged into what each participant owes, and it stands last in the history.
    /// Every goal was told of the move.
    pub open spec fn updated_by(self, made: HistoricalMove, after: Conversation<C>) -> bool {
        let speaker = self.state.speaker;
        &&& after.state.same_setting(self.state)
        &&& self.told(made, after.goals@)
        &&& after.state.topic_state@.introduced == self.state.topic_state@.introduced.union(
            made@.topic_state.introduced,
        )
        &&& after.state.topic_state@.addressed == self.state.topic_state@.addressed.union(
            made@.topic_state.addressed,
        )
        &&& after.state.participant(speaker).topics@ == counted_topics(
            self.state.participant(speaker).topics@,
            made@.topic_state.introduced,
            made@.topic_state.addressed,
        )
        &&& after.state.participant(speaker.flipped()).topics@ == self.state.participant(
            speaker.flipped(),
        ).topics@
        &&& after.state.person0.pushed_obligations@ == merged_obligations(
            self.state.person0.pushed_obligations@,
            made@.person0_obligations,
        )
        &&& after.state.person1.pushed_obligations@ == merged_obligations(
            self.state.person1.pushed_obligations@,
            made@.person1_obligations,
        )
        &&& after.state.history@ == self.state.history@.push(made)
    }

    /// Whether `trace` holds the conversation before and after each frame of
    /// `frames`, in their order.
    pub open spec fn framed(frames: Seq<Frame<C>>, trace: Seq<Conversation<C>>) -> bool {
        &&& trace.len() == frames.len() + 1
        &&& forall|i: int|
            0 <= i < frames.len() ==> (#[trigger] frames[i]).state.applies(trace[i], trace[i + 1])
    }

    /// Begins a conversation, and lets each frame set it up, in their order.
    pub fn new(
        initiator: Speaker,
        frames: &Vec<Frame<C>>,
        lull_continue_chance: Bernoulli,
        person0: C,
        person1: C,
    ) -> (conversation: Conversation<C>)
        ensures
            exists|trace: Seq<Conversation<C>>|
                {
                    &&& Self::framed(frames@, trace)
                    &&& trace[0].is_fresh(initiator, lull_continue_chance, person0, person1)
                    &&& #[trigger] trace.last() == conversation
                },
    {
        let mut conversation = Conversation {
            state: ConversationState {
                initiator,
                speaker: initiator,
                person0: ParticipantState::new(person0),
                person1: ParticipantState::new(person1),
                topic_state: TopicState::new(),
                history: Vec::new(),
                done: false,
                lull_continue_chance,
            },
            goals: Vec::new(),
        };
        let ghost mut trace: Seq<Conversation<C>> = seq![conversation];
        let mut i: usize = 0;
        while i < frames.len()
            invariant
                i <= frames.len(),
                trace.len() == i + 1,
                trace[0].is_fresh(initiator, lull_continue_chance, person0, person1),
                trace.last() == conversation,
                forall|k: int|
                    0 <= k < i ==> (#[trigger] frames@[k]).state.applies(trace[k], trace[k + 1]),
            decreases frames.len() - i,
        {
            frames[i].state.apply(&mut conversation);
            proof {
                trace = trace.push(conversation);
            }
            i += 1;
        }
        conversation
    }

    /// Lets one timestep pass for what both participants owe.
    pub fn timestep(&mut self)
        ensures
            final(self).state.person0.pushed_obligations@ == crate::ledger::decayed(
                old(self).state.person0.pushed_obligations@,
            ),
            final(self).state.person1.pushed_obligations@ == crate::ledger::decayed(
                old(self).state.person1.pushed_obligations@,
            ),
            final(self).state.same_setting(old(self).state),
            final(self).state.person0.topics == old(self).state.person0.topics,
            final(self).state.person1.topics == old(self).state.person1.topics,
            final(self).state.topic_state == old(self).state.topic_state,
            final(self).state.history == old(self).state.history,
            final(self).goals == old(self).goals,
    {
        self.state.person0.timestep();
        self.state.person1.timestep();
    }

    /// Marks a topic as introduced, and counts it for the participant who speaks.
    pub fn introduce_topic(&mut self, topic: Topic)
        ensures
            final(self).state.same_setting(old(self).state),
            final(self).goals == old(self).goals,
            final(self).state.history == old(self).state.history,
            final(self).state.topic_state@.introduced == old(
                self,
            ).state.topic_state@.introduced.insert(topic),
            final(self).state.topic_state.addressed == old(self).state.topic_state.addressed,
            final(self).state.person0.pushed_obligations == old(
                self,
            ).state.person0.pushed_obligations,
            final(self).state.person1.pushed_obligations == old(
                self,
            ).state.person1.pushed_obligations,
            final(self).state.participant(old(self).state.speaker).topics@ == counted_topics(
                old(self).state.participant(old(self).state.speaker).topics@,
                set![topic],
                Set::empty(),
            ),
            final(self).state.participant(old(self).state.speaker.flipped()).topics == old(
                self,
            ).state.participant(old(self).state.speaker.flipped()).topics,
    {
        self.state.topic_state.introduced.insert(topic);
        match self.state.speaker {
            Speaker::Person0 => count_topic(&mut self.state.person0.topics, topic, true),
            Speaker::Person1 => count_topic(&mut self.state.person1.topics, topic, true),
        }
    }

    /// Marks a topic as addressed, and counts it for the participant who speaks.
    pub fn address_topic(&mut self, topic: Topic)
        ensures
            final(self).state.same_setting(old(self).state),
            final(self).goals == old(self).goals,
            final(self).state.history == old(self).state.history,
            final(self).state.topic_state@.addressed == old(
                self,
            ).state.topic_state@.addressed.insert(topic),
            final(self).state.topic_state.introduced == old(self).state.topic_state.introduced,
            final(self).state.person0.pushed_obligations == old(
                self,
            ).state.person0.pushed_obligations,
            final(self).state.person1.pushed_obligations == old(
                self,
            ).state.person1.pushed_obligations,
            final(self).state.participant(old(self).state.speaker).topics@ == counted_topics(
                old(self).state.participant(old(self).state.speaker).topics@,
                Set::empty(),
                set![topic],
            ),
            final(self).state.participant(old(self).state.speaker.flipped()).topics == old(
                self,
            ).state.participant(old(self).state.speaker.flipped()).topics,
    {
        self.state.topic_state.addressed.insert(topic);
        match self.state.speaker {
            Speaker::Person0 => count_topic(&mut self.state.person0.topics, topic, false),
            Speaker::Person1 => count_topic(&mut self.state.person1.topics, topic, false),
        }
    }

    /// Takes a move that was made into the conversation. Every goal is told of it,
    /// and sees the conversation as it was before the move. Then the topics of the
    /// move are marked and counted, its obligations are merged into what each
    /// participant owes, and the move is put last in the history.
    pub fn update_for_move(&mut self, hmove: HistoricalMove)
        ensures
            old(self).updated_by(hmove, *final(self)),
    {
        let mut goals: Vec<Goal<C>> = Vec::new();
        core::mem::swap(&mut goals, &mut self.goals);
        let mut g: usize = 0;
        while g < goals.len()
            invariant
                g <= goals@.len(),
                goals@.len() == old(self).goals@.len(),
                self.state == old(self).state,
                forall|i: int| g <= i < goals@.len() ==> goals@[i] == old(self).goals@[i],
                forall|i: int|
                    0 <= i < g ==> (#[trigger] goals@[i]).state.satisfied() == old(
                        self,
                    ).goals@[i].state.satisfied_after(&old(self).state, &hmove),
                forall|i: int, then: &ConversationState<C>|
                    0 <= i < g ==> #[trigger] goals@[i].state.proposal(then) == old(
                        self,
                    ).goals@[i].state.proposal_after(&old(self).state, &hmove, then),
            decreases goals.len() - g,
        {
            goals[g].state.made_move(&self.state, &hmove);
            g += 1;
        }
        self.goals = goals;
        let ghost told = self.goals@;
        proof {
            assert(old(self).told(hmove, told));
        }
        let ghost speaker = self.state.speaker;
        let ghost counts = old(self).state.participant(speaker).topics@;
        let introduced = hmove.topic_state.introduced.to_vec();
        let mut i: usize = 0;
        proof {
            assert(introduced@.take(0).to_set() =~= Set::<Topic>::empty());
            assert(counted_topics(counts, Set::empty(), Set::empty()) =~= counts);
        }
        while i < introduced.len()
            invariant
                i <= introduced.len(),
                speaker == old(self).state.speaker,
                counts == old(self).state.participant(speaker).topics@,
                introduced@.to_set() == hmove@.topic_state.introduced,
                introduced@.no_duplicates(),
                self.state.same_setting(old(self).state),
                self.goals@ == told,
                old(self).told(hmove, told),
                self.state.history == old(self).state.history,
                self.state.topic_state@.introduced == old(self).state.topic_state@.introduced.union(
                    introduced@.take(i as int).to_set(),
                ),
                self.state.topic_state.addressed == old(self).state.topic_state.addressed,
                self.state.person0.pushed_obligations == old(self).state.person0.pushed_obligations,
                self.state.person1.pushed_obligations == old(self).state.person1.pushed_obligations,
                self.state.participant(speaker).topics@ == counted_topics(
                    counts,
                    introduced@.take(i as int).to_set(),
                    Set::empty(),
                ),
                self.state.participant(speaker.flipped()).topics == old(self).state.participant(
                    speaker.flipped(),
                ).topics,
            decreases introduced.len() - i,
        {
            self.introduce_topic(introduced[i]);
            proof {
                lemma_take_push_to_set(introduced@, i as int);
                lemma_fresh_in_prefix(introduced@, i as int);
                assert(self.state.participant(speaker).topics@ =~= counted_topics(
                    counts,
                    introduced@.take(i + 1).to_set(),
                    Set::empty(),
                ));
                assert(self.state.topic_state@.introduced =~= old(
                    self,
                ).state.topic_state@.introduced.union(introduced@.take(i + 1).to_set()));
            }
            i += 1;
        }
        proof {
            assert(introduced@.take(introduced.len() as int) == introduced@);
        }
        let addressed = hmove.topic_state.addressed.to_vec();
        let mut j: usize = 0;
        proof {
            assert(addressed@.take(0).to_set() =~= Set::<Topic>::empty());
        }
        while j < addressed.len()
            invariant
                j <= addressed.len(),
                speaker == old(self).state.speaker,
                counts == old(self).state.participant(speaker).topics@,
                addressed@.to_set() == hmove@.topic_state.addressed,
                addressed@.no_duplicates(),
                self.state.same_setting(old(self).state),
                self.goals@ == told,
                old(self).told(hmove, told),
                self.state.history == old(self).state.history,
                self.state.topic_state@.introduced == old(self).state.topic_state@.introduced.union(
                    hmove@.topic_state.introduced,
                ),
                self.state.topic_state@.addressed == old(self).state.topic_state@.addressed.union(
                    addressed@.take(j as int).to_set(),
                ),
                self.state.person0.pushed_obligations == old(self).state.person0.pushed_obligations,
                self.state.person1.pushed_obligations == old(self).state.person1.pushed_obligations,
                self.state.participant(speaker).topics@ == counted_topics(
                    counts,
                    hmove@.topic_state.introduced,
                    addressed@.take(j as int).to_set(),
                ),
                self.state.participant(speaker.flipped()).topics == old(self).state.participant(
                    speaker.flipped(),
                ).topics,
            decreases addressed.len() - j,
        {
            self.address_topic(addressed[j]);
            proof {
                lemma_take_push_to_set(addressed@, j as int);
                lemma_fresh_in_prefix(addressed@, j as int);
                assert(self.state.participant(speaker).topics@ =~= counted_topics(
                    counts,
                    hmove@.topic_state.introduced,
                    addressed@.take(j + 1).to_set(),
                ));
                assert(self.state.topic_state@.addressed =~= old(
                    self,
                ).state.topic_state@.addressed.union(addressed@.take(j + 1).to_set()));
            }
            j += 1;
        }
        proof {
            assert(addressed@.take(addressed.len() as int) == addressed@);
        }
        self.state.person0.merge_historical_obligations(&hmove.person0_obligations);
        self.state.person1.merge_historical_obligations(&hmove.person1_obligations);
        self.state.history.push(hmove);
    }

    /// The topics that were introduced and not yet addressed, each once, in an
    /// order that the generator picks. Nothing is drawn where at most one topic
    /// waits.
    pub fn get_next_speaker_topics(&self, rng: &mut Rng) -> (topics: Vec<Topic>)
        ensures
            topics@.no_duplicates(),
            topics@.to_set() == self.state.open_topics(),
            topics@.len() <= 1 ==> *final(rng) == *old(rng),
    {
        let introduced = self.state.topic_state.introduced.to_vec();
        let mut topics: Vec<Topic> = Vec::new();
        let mut i: usize = 0;
        proof {
            assert(topics@.to_set() =~= introduced@.take(0).to_set().difference(
                self.state.topic_state@.addressed,
            ));
        }
        while i < introduced.len()
            invariant
                i <= introduced.len(),
                introduced@.no_duplicates(),
                introduced@.to_set() == self.state.topic_state@.introduced,
                topics@.no_duplicates(),
                topics@.to_set() == introduced@.take(i as int).to_set().difference(
                    self.state.topic_state@.addressed,
                ),
            decreases introduced.len() - i,
        {
            let topic = introduced[i];
            proof {
                lemma_take_push_to_set(introduced@, i as int);
                lemma_fresh_in_prefix(introduced@, i as int);
            }
            if self.state.topic_state.can_be_addressed(topic) {
                let ghost before = topics@;
                topics.push(topic);
                proof {
                    assert(!before.contains(topic)) by {
                        if before.contains(topic) {
                            assert(before.to_set().contains(topic));
                        }
                    }
                    lemma_push_to_set(before, topic);
                }
            }
            proof {
                assert(topics@.to_set() =~= introduced@.take(i + 1).to_set().difference(
                    self.state.topic_state@.addressed,
                ));
            }
            i += 1;
        }
        proof {
            assert(introduced@.take(introduced.len() as int) == introduced@);
        }
        if topics.len() > 1 {
            let ghost before = topics@;
            shuffle(&mut topics, rng);
            proof {
                lemma_rearranged(before, topics@);
                assert(topics@.to_set() =~= before.to_set());
            }
        }
        topics
    }

    /// The dialog moves that the participant who speaks next may try, the last one
    /// first. The moves that the goals propose to that participant stand first, in
    /// an order that the generator picks; nothing is drawn where there is at most one
    /// of them. What the participant owes follows, the less urgent before the more
    /// urgent.
    pub fn get_next_speaker_moves(&self, rng: &mut Rng) -> (moves: Vec<DialogMove>)
        ensures
            moves@.len() >= self.goal_proposals().len(),
            moves@.take(self.goal_proposals().len() as int).to_multiset()
                == self.goal_proposals().to_multiset(),
            urgency_order(
                self.state.participant(self.state.speaker).pushed_obligations@,
                moves@.skip(self.goal_proposals().len() as int),
            ),
            self.goal_proposals().len() <= 1 ==> *final(rng) == *old(rng),
            self.goal_proposals().len() <= 1 ==> moves@.take(self.goal_proposals().len() as int)
                == self.goal_proposals(),
    {
        let mut moves: Vec<DialogMove> = Vec::new();
        let ghost pick = |goal: Goal<C>|
            match goal.state.proposal(&self.state) {
                Some(step) => if step.pursuer.agrees(self.state.speaker) {
                    Some(step.dialog_move)
                } else {
                    None
                },
                None => None,
            };
        let mut g: usize = 0;
        proof {
            assert(self.goals@.take(0).len() == 0);
        }
        while g < self.goals.len()
            invariant
                g <= self.goals.len(),
                pick == |goal: Goal<C>|
                    match goal.state.proposal(&self.state) {
                        Some(step) => if step.pursuer.agrees(self.state.speaker) {
                            Some(step.dialog_move)
                        } else {
                            None
                        },
                        None => None,
                    },
                moves@ == self.goals@.take(g as int).filter_map(pick),
            decreases self.goals.len() - g,
        {
            proof {
                let next = self.goals@.take(g + 1);
                assert(next.drop_last() == self.goals@.take(g as int));
                assert(next.last() == self.goals@[g as int]);
            }
            match self.goals[g].state.next_step(&self.state) {
                Some(step) => {
                    if step.pursuer.agrees_with(self.state.speaker) {
                        moves.push(step.dialog_move);
                        proof {
                            let rest = self.goals@.take(g as int).filter_map(pick);
                            assert(rest.push(step.dialog_move) == rest + seq![step.dialog_move]);
                        }
                    }
                },
                None => {},
            }
            g += 1;
        }
        proof {
            assert(self.goals@.take(self.goals.len() as int) == self.goals@);
        }
        if moves.len() > 1 {
            let ghost before = moves@;
            shuffle(&mut moves, rng);
            proof {
                lemma_rearranged(before, moves@);
            }
        }
        let ghost proposed = moves@;
        let mut owed = match self.state.speaker {
            Speaker::Person0 => sorted_obligations(&self.state.person0.pushed_obligations),
            Speaker::Person1 => sorted_obligations(&self.state.person1.pushed_obligations),
        };
        let ghost order = owed@;
        moves.append(&mut owed);
        proof {
            assert(moves@.take(proposed.len() as int) == proposed);
            assert(moves@.skip(proposed.len() as int) == order);
        }
        moves
    }

    /// The state of one participant.
    pub fn get_speaker_state(&self, speaker: Speaker) -> (state: &ParticipantState<C>)
        ensures
            *state == self.state.participant(speaker),
    {
        match speaker {
            Speaker::Person0 => &self.state.person0,
            Speaker::Person1 => &self.state.person1,
        }
    }

    /// The state of the participant who speaks next.
    pub fn get_my_state(&self) -> (state: &ParticipantState<C>)
        ensures
            *state == self.state.participant(self.state.speaker),
    {
        self.get_speaker_state(self.state.speaker)
    }

    /// The state of the participant who listens next.
    pub fn get_others_state(&self) -> (state: &ParticipantState<C>)
        ensures
            *state == self.state.participant(self.state.speaker.flipped()),
    {
        self.get_speaker_state(self.state.speaker.other())
    }

    /// The state of one participant, to be changed.
    pub fn get_speaker_state_mut(&mut self, speaker: Speaker) -> (state: &mut ParticipantState<C>)
        ensures
            *state == old(self).state.participant(speaker),
            *final(self) == old(self).with_participant(speaker, *final(state)),
    {
        match speaker {
            Speaker::Person0 => &mut self.state.person0,
            Speaker::Person1 => &mut self.state.person1,
        }
    }

    /// The state of the participant who speaks next, to be changed.
    pub fn get_my_state_mut(&mut self) -> (state: &mut ParticipantState<C>)
        ensures
            *state == old(self).state.participant(old(self).state.speaker),
            *final(self) == old(self).with_participant(old(self).state.speaker, *final(state)),
    {
        let speaker = self.state.speaker;
        self.get_speaker_state_mut(speaker)
    }

    /// The state of the participant who listens next, to be changed.
    pub fn get_others_state_mut(&mut self) -> (state: &mut ParticipantState<C>)
        ensures
            *state == old(self).state.participant(old(self).state.speaker.flipped()),
            *final(self) == old(self).with_participant(
                old(self).state.speaker.flipped(),
                *final(state),
            ),
    {
        let speaker = self.state.speaker.other();
        self.get_speaker_state_mut(speaker)
    }
}

fn count_topic(counts: &mut Table<TopicMetadata>, topic: Topic, introduced: bool)
    ensures
        final(counts)@ == (if introduced {
            counted_topics(old(counts)@, set![topic], Set::empty())
        } else {
            counted_topics(old(counts)@, Set::empty(), set![topic])
        }),
{
    let mut meta = match counts.get(topic) {
        Some(held) => *held,
        None => TopicMetadata { times_introduced: 0, times_addressed: 0 },
    };
    if introduced {
        meta.introduce();
    } else {
        meta.address();
    }
    counts.insert(topic, meta);
    proof {
        if introduced {
            assert(counts@ =~= counted_topics(old(counts)@, set![topic], Set::empty()));
        } else {
            assert(counts@ =~= counted_topics(old(counts)@, Set::empty(), set![topic]));
        }
    }
}

fn owed_for(owed: &Table<PushedObligationMetadata>, dialog_move: DialogMove) -> (held:
    PushedObligationMetadata)
    requires
        owed@.contains_key(dialog_move),
    ensures
        held == owed@[dialog_move],
{
    match owed.get(dialog_move) {
        Some(found) => *found,
        None => PushedObligationMetadata { urgency: 0, time_to_live: 0, times_pushed: 0 },
    }
}

fn may_precede(a: &PushedObligationMetadata, b: &PushedObligationMetadata) -> (yes: bool)
    ensures
        yes == not_after(*a, *b),
{
    a.urgency < b.urgency || (a.urgency == b.urgency && a.time_to_live >= b.time_to_live)
}

/// The dialog moves that are owed, the less urgent before the more urgent.
pub fn sorted_obligations(owed: &Table<PushedObligationMetadata>) -> (order: Vec<DialogMove>)
    ensures
        urgency_order(owed@, order@),
{
    let keys = owed.keys();
    let mut order: Vec<DialogMove> = Vec::new();
    let mut i: usize = 0;
    proof {
        assert(order@.to_set() =~= keys@.take(0).to_set());
    }
    while i < keys.len()
        invariant
            i <= keys.len(),
            keys@.no_duplicates(),
            keys@.to_set() == owed@.dom(),
            order@.no_duplicates(),
            order@.to_set() == keys@.take(i as int).to_set(),
            forall|a: int, b: int|
                0 <= a < b < order@.len() ==> not_after(
                    owed@[#[trigger] order@[a]],
                    owed@[#[trigger] order@[b]],
                ),
        decreases keys.len() - i,
    {
        let key = keys[i];
        proof {
            lemma_take_push_to_set(keys@, i as int);
            assert(keys@.to_set().contains(key));
            lemma_fresh_in_prefix(keys@, i as int);
            assert forall|q: int| 0 <= q < order@.len() implies owed@.contains_key(
                #[trigger] order@[q],
            ) by {
                assert(order@.to_set().contains(order@[q]));
                assert(keys@.take(i as int).contains(order@[q]));
                let n = choose|n: int|
                    0 <= n < keys@.take(i as int).len() && keys@.take(i as int)[n] == order@[q];
                assert(keys@[n] == order@[q]);
                assert(keys@.to_set().contains(order@[q]));
            }
        }
        let meta = owed_for(owed, key);
        let mut p: usize = 0;
        let mut searching = true;
        while searching && p < order.len()
            invariant
                p <= order.len(),
                forall|q: int| 0 <= q < order@.len() ==> owed@.contains_key(#[trigger] order@[q]),
                forall|q: int| 0 <= q < p ==> not_after(owed@[#[trigger] order@[q]], meta),
                !searching ==> p < order.len() && !not_after(owed@[order@[p as int]], meta),
            decreases order.len() - p + (if searching { 1int } else { 0int }),
        {
            let held = owed_for(owed, order[p]);
            if may_precede(&held, &meta) {
                p += 1;
            } else {
                searching = false;
            }
        }
        let ghost before = order@;
        order.insert(p, key);
        proof {
            assert(!before.contains(key)) by {
                if before.contains(key) {
                    assert(before.to_set().contains(key));
                }
            }
            assert(order@.len() == before.len() + 1);
            assert(forall|q: int| 0 <= q < p ==> order@[q] == before[q]);
            assert(order@[p as int] == key);
            assert(forall|q: int| p < q < order@.len() ==> order@[q] == before[q - 1]);
            assert(order@.to_set() =~= before.to_set().insert(key)) by {
                assert forall|x: DialogMove| order@.to_set().contains(x) <==> before.to_set().insert(
                    key,
                ).contains(x) by {
                    if order@.contains(x) {
                        let n = choose|n: int| 0 <= n < order@.len() && order@[n] == x;
                        if n < p {
                            assert(before[n] == x);
                        } else if n > p {
                            assert(before[n - 1] == x);
                        }
                    }
                    if before.contains(x) {
                        let n = choose|n: int| 0 <= n < before.len() && before[n] == x;
                        if n < p {
                            assert(order@[n] == x);
                        } else {
                            assert(order@[n + 1] == x);
                        }
                    }
                    if x == key {
                        assert(order@[p as int] == x);
                    }
                }
            }
            assert(order@.no_duplicates()) by {
                assert forall|a: int, b: int|
                    0 <= a < order@.len() && 0 <= b < order@.len() && a != b implies order@[a]
                    != order@[b] by {
                    let a0 = if a < p {
                        a
                    } else {
                        a - 1
                    };
                    let b0 = if b < p {
                        b
                    } else {
                        b - 1
                    };
                    if a == p {
                        assert(before.contains(before[b0]));
                    } else if b == p {
                        assert(before.contains(before[a0]));
                    } else {
                        assert(before[a0] != before[b0]);
                    }
                }
            }
            assert forall|a: int, b: int| 0 <= a < b < order@.len() implies not_after(
                owed@[#[trigger] order@[a]],
                owed@[#[trigger] order@[b]],
            ) by {
                if b < p {
                    assert(not_after(owed@[before[a]], owed@[before[b]]));
                } else if b == p {
                    assert(not_after(owed@[before[a]], meta));
                } else if a == p {
                    if p < before.len() {
                        assert(!not_after(owed@[before[p as int]], meta));
                        if b - 1 > p {
                            assert(not_after(owed@[before[p as int]], owed@[before[b - 1]]));
                        }
                    }
                } else if a > p {
                    assert(not_after(owed@[before[a - 1]], owed@[before[b - 1]]));
                } else {
                    assert(not_after(owed@[before[a]], owed@[before[b - 1]]));
                }
            }
        }
        i += 1;
    }
    proof {
        assert(keys@.take(keys.len() as int) == keys@);
    }
    order
}

} // verus!
