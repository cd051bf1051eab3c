//! What a conversation keeps count of: how often a topic came up, and which
//! obligations a participant still owes.

use crate::idset::IdSet;
use crate::sequences::{lemma_fresh_in_prefix, lemma_take_push_to_set};
use crate::table::Table;
use vstd::prelude::*;

verus! {

/// A subject that can be introduced and later addressed.
pub type Topic = u64;

/// An intention behind words, such as greeting.
pub type DialogMove = u64;

/// One more than `n`, or `n` where the counter is full.
pub open spec fn bumped(n: u32) -> u32 {
    if n < u32::MAX {
        (n + 1) as u32
    } else {
        n
    }
}

/// The sum of two counters, or the largest count where the sum does not fit.
pub open spec fn counted(a: u32, b: u32) -> u32 {
    if a + b <= u32::MAX {
        (a + b) as u32
    } else {
        u32::MAX
    }
}

/// How many times one participant introduced and addressed a topic.
#[derive(Debug, Clone, Copy, PartialEq, Eq, Structural)]
pub struct TopicMetadata {
    /// How many times this participant introduced the topic.
    pub times_introduced: u32,
    /// How many times this participant addressed the topic.
    pub times_addressed: u32,
}

impl TopicMetadata {
    /// Counts one more introduction.
    pub fn introduce(&mut self)
        ensures
            final(self).times_introduced == bumped(old(self).times_introduced),
            final(self).times_addressed == old(self).times_addressed,
    {
        if self.times_introduced < u32::MAX {
            self.times_introduced += 1;
        }
    }

    /// Counts one more time that the topic was addressed.
    pub fn address(&mut self)
        ensures
            final(self).times_addressed == bumped(old(self).times_addressed),
            final(self).times_introduced == old(self).times_introduced,
    {
        if self.times_addressed < u32::MAX {
            self.times_addressed += 1;
        }
    }
}

impl Default for TopicMetadata {
    fn default() -> (meta: TopicMetadata)
        ensures
            meta == (TopicMetadata { times_introduced: 0, times_addressed: 0 }),
    {
        TopicMetadata { times_introduced: 0, times_addressed: 0 }
    }
}

/// An obligation that a participant still owes.
#[derive(Debug, Clone, Copy, PartialEq, Eq, Structural)]
pub struct PushedObligationMetadata {
    /// How urgent the obligation is.
    pub urgency: i32,
    /// How many more timesteps the obligation stays.
    pub time_to_live: u32,
    /// How many times the obligation was pushed since it was last fulfilled.
    pub times_pushed: u32,
}

/// The larger of two urgencies.
pub open spec fn max_urgency(a: i32, b: i32) -> i32 {
    if a >= b {
        a
    } else {
        b
    }
}

/// The longer of two times to live.
pub open spec fn max_time(a: u32, b: u32) -> u32 {
    if a >= b {
        a
    } else {
        b
    }
}

impl PushedObligationMetadata {
    /// What stands for an obligation that was never pushed: merged with any
    /// obligation, it gives that obligation back.
    pub open spec fn never_pushed() -> PushedObligationMetadata {
        PushedObligationMetadata { urgency: i32::MIN, time_to_live: 0, times_pushed: 0 }
    }

    /// The obligation that two pushes of one dialog move leave: the larger urgency,
    /// the longer time to live, and the pushes of both.
    pub open spec fn merged(self, other: PushedObligationMetadata) -> PushedObligationMetadata {
        PushedObligationMetadata {
            urgency: max_urgency(self.urgency, other.urgency),
            time_to_live: max_time(self.time_to_live, other.time_to_live),
            times_pushed: counted(self.times_pushed, other.times_pushed),
        }
    }

    /// The obligation one timestep later, while it has time to live.
    pub open spec fn ticked(self) -> PushedObligationMetadata {
        PushedObligationMetadata {
            urgency: self.urgency,
            time_to_live: (self.time_to_live - 1) as u32,
            times_pushed: self.times_pushed,
        }
    }

    /// Counts one more push.
    pub fn push(&mut self)
        ensures
            final(self).times_pushed == bumped(old(self).times_pushed),
            final(self).urgency == old(self).urgency,
            final(self).time_to_live == old(self).time_to_live,
    {
        if self.times_pushed < u32::MAX {
            self.times_pushed += 1;
        }
    }

    /// Lets one timestep pass. An obligation with no time left expires: the result
    /// is `true` and nothing changes. Any other loses one unit of time and stays.
    pub fn timestep(&mut self) -> (expired: bool)
        ensures
            expired == (old(self).time_to_live == 0),
            expired ==> *final(self) == *old(self),
            !expired ==> *final(self) == old(self).ticked(),
    {
        if self.time_to_live == 0 {
            true
        } else {
            self.time_to_live -= 1;
            false
        }
    }

    /// Takes in a later push of the same dialog move.
    pub fn merge(&mut self, other: &PushedObligationMetadata)
        ensures
            *final(self) == old(self).merged(*other),
    {
        self.times_pushed = self.times_pushed.saturating_add(other.times_pushed);
        if other.urgency > self.urgency {
            self.urgency = other.urgency;
        }
        if other.time_to_live > self.time_to_live {
            self.time_to_live = other.time_to_live;
        }
    }
}

/// One of the two participants of a conversation.
#[derive(Debug, Clone, Copy, PartialEq, Eq, Structural)]
pub enum Speaker {
    /// The first participant.
    Person0,
    /// The second participant.
    Person1,
}

impl Speaker {
    /// The other participant.
    pub open spec fn flipped(self) -> Speaker {
        match self {
            Speaker::Person0 => Speaker::Person1,
            Speaker::Person1 => Speaker::Person0,
        }
    }

    /// The other participant.
    pub fn other(self) -> (s: Speaker)
        ensures
            s == self.flipped(),
    {
        match self {
            Speaker::Person0 => Speaker::Person1,
            Speaker::Person1 => Speaker::Person0,
        }
    }
}

impl core::ops::Not for Speaker {
    type Output = Speaker;

    fn not(self) -> (s: Speaker) {
        self.other()
    }
}

impl vstd::std_specs::ops::NotSpecImpl for Speaker {
    open spec fn obeys_not_spec() -> bool {
        true
    }

    open spec fn not_req(self) -> bool {
        true
    }

    open spec fn not_spec(self) -> Speaker {
        self.flipped()
    }
}

/// Which topics were introduced and which were addressed.
pub struct TopicState {
    /// The topics that were introduced.
    pub introduced: IdSet,
    /// The topics that were addressed.
    pub addressed: IdSet,
}

/// What a [`TopicState`] stands for.
pub struct TopicStateView {
    /// The topics that were introduced.
    pub introduced: Set<Topic>,
    /// The topics that were addressed.
    pub addressed: Set<Topic>,
}

impl TopicStateView {
    /// Whether the topic has yet to be addressed.
    pub open spec fn can_be_addressed(self, topic: Topic) -> bool {
        !self.addressed.contains(topic)
    }

    /// Whether the topic was introduced and has yet to be addressed.
    pub open spec fn needs_addressing(self, topic: Topic) -> bool {
        self.introduced.contains(topic) && self.can_be_addressed(topic)
    }

    /// Whether the topic was neither introduced nor addressed.
    pub open spec fn can_be_introduced(self, topic: Topic) -> bool {
        !self.introduced.contains(topic) && self.can_be_addressed(topic)
    }

    /// The state in which nothing was said yet.
    pub open spec fn empty() -> TopicStateView {
        TopicStateView { introduced: Set::empty(), addressed: Set::empty() }
    }
}

impl View for TopicState {
    type V = TopicStateView;

    open spec fn view(&self) -> TopicStateView {
        TopicStateView { introduced: self.introduced@, addressed: self.addressed@ }
    }
}

impl TopicState {
    /// The state in which nothing was said yet.
    pub fn new() -> (state: TopicState)
        ensures
            state@ == TopicStateView::empty(),
    {
        TopicState { introduced: IdSet::new(), addressed: IdSet::new() }
    }

    /// Whether the topic has yet to be addressed.
    pub fn can_be_addressed(&self, topic: Topic) -> (yes: bool)
        ensures
            yes == self@.can_be_addressed(topic),
    {
        !self.addressed.contains(topic)
    }

    /// Whether the topic was introduced and has yet to be addressed.
    pub fn needs_addressing(&self, topic: Topic) -> (yes: bool)
        ensures
            yes == self@.needs_addressing(topic),
    {
        self.introduced.contains(topic) && self.can_be_addressed(topic)
    }

    /// Whether the topic was neither introduced nor addressed.
    pub fn can_be_introduced(&self, topic: Topic) -> (yes: bool)
        ensures
            yes == self@.can_be_introduced(topic),
    {
        !self.introduced.contains(topic) && self.can_be_addressed(topic)
    }
}

impl Default for TopicState {
    fn default() -> (state: TopicState)
        ensures
            state@ == TopicStateView::empty(),
    {
        TopicState::new()
    }
}

impl Clone for TopicState {
    fn clone(&self) -> (copy: TopicState)
        ensures
            copy@ == self@,
    {
        TopicState { introduced: self.introduced.clone(), addressed: self.addressed.clone() }
    }
}

/// The obligation that a push leaves in a record of pushes.
pub open spec fn pushed_onto(
    pushed: Map<DialogMove, PushedObligationMetadata>,
    dialog_move: DialogMove,
    urgency: i32,
    time_to_live: u32,
) -> PushedObligationMetadata {
    if pushed.contains_key(dialog_move) {
        PushedObligationMetadata {
            urgency: max_urgency(pushed[dialog_move].urgency, urgency),
            time_to_live: max_time(pushed[dialog_move].time_to_live, time_to_live),
            times_pushed: bumped(pushed[dialog_move].times_pushed),
        }
    } else {
        PushedObligationMetadata { urgency, time_to_live, times_pushed: 1 }
    }
}

/// The obligations that one move pushed to a participant, and those of the
/// participant that it addressed.
pub struct HistoricalObligations {
    /// The obligations pushed to the participant.
    pub pushed: Table<PushedObligationMetadata>,
    /// The obligations of the participant that were addressed.
    pub addressed: IdSet,
}

/// What a [`HistoricalObligations`] stands for.
pub struct ObligationsView {
    /// The obligations pushed to the participant.
    pub pushed: Map<DialogMove, PushedObligationMetadata>,
    /// The obligations of the participant that were addressed.
    pub addressed: Set<DialogMove>,
}

impl ObligationsView {
    /// The record of a move that neither pushed nor addressed anything.
    pub open spec fn empty() -> ObligationsView {
        ObligationsView { pushed: Map::empty(), addressed: Set::empty() }
    }
}

impl View for HistoricalObligations {
    type V = ObligationsView;

    open spec fn view(&self) -> ObligationsView {
        ObligationsView { pushed: self.pushed@, addressed: self.addressed@ }
    }
}

impl HistoricalObligations {
    /// The record of a move that neither pushed nor addressed anything.
    pub fn new() -> (record: HistoricalObligations)
        ensures
            record@ == ObligationsView::empty(),
    {
        HistoricalObligations { pushed: Table::new(), addressed: IdSet::new() }
    }

    /// Pushes an obligation. A dialog move that was pushed before keeps the larger
    /// urgency and the longer time to live, and counts one more push.
    pub fn push(&mut self, dialog_move: DialogMove, urgency: i32, time_to_live: u32)
        ensures
            final(self).pushed@ == old(self).pushed@.insert(
                dialog_move,
                pushed_onto(old(self).pushed@, dialog_move, urgency, time_to_live),
            ),
            final(self).addressed@ == old(self).addressed@,
    {
        let mut obligation = match self.pushed.get(dialog_move) {
            Some(found) => *found,
            None => PushedObligationMetadata { urgency, time_to_live, times_pushed: 0 },
        };
        obligation.push();
        if urgency > obligation.urgency {
            obligation.urgency = urgency;
        }
        if time_to_live > obligation.time_to_live {
            obligation.time_to_live = time_to_live;
        }
        self.pushed.insert(dialog_move, obligation);
    }
}

impl Clone for HistoricalObligations {
    fn clone(&self) -> (copy: HistoricalObligations)
        ensures
            copy@ == self@,
    {
        HistoricalObligations { pushed: self.pushed.clone(), addressed: self.addressed.clone() }
    }
}

impl Default for HistoricalObligations {
    fn default() -> (record: HistoricalObligations)
        ensures
            record@ == ObligationsView::empty(),
    {
        HistoricalObligations::new()
    }
}

/// A move that was made: the words, who spoke, and what the move changed.
pub struct HistoricalMove {
    /// The exact words.
    pub utterance: String,
    /// The participant who made the move.
    pub speaker: Speaker,
    /// What the move pushed to and addressed for the first participant.
    pub person0_obligations: HistoricalObligations,
    /// What the move pushed to and addressed for the second participant.
    pub person1_obligations: HistoricalObligations,
    /// The topics that the move introduced and addressed.
    pub topic_state: TopicState,
}

impl Clone for HistoricalMove {
    fn clone(&self) -> (copy: HistoricalMove)
        ensures
            copy@ == self@,
    {
        HistoricalMove {
            utterance: self.utterance.clone(),
            speaker: self.speaker,
            person0_obligations: self.person0_obligations.clone(),
            person1_obligations: self.person1_obligations.clone(),
            topic_state: self.topic_state.clone(),
        }
    }
}

/// What a [`HistoricalMove`] stands for.
pub struct MoveView {
    /// The exact words.
    pub utterance: Seq<char>,
    /// The participant who made the move.
    pub speaker: Speaker,
    /// What the move pushed to and addressed for the first participant.
    pub person0_obligations: ObligationsView,
    /// What the move pushed to and addressed for the second participant.
    pub person1_obligations: ObligationsView,
    /// The topics that the move introduced and addressed.
    pub topic_state: TopicStateView,
}

impl MoveView {
    /// Whether the move addressed the dialog move, for either participant.
    pub open spec fn was_move_satisfied(self, dialog_move: DialogMove) -> bool {
        self.person0_obligations.addressed.contains(dialog_move)
            || self.person1_obligations.addressed.contains(dialog_move)
    }

    /// The record for one participant.
    pub open spec fn obligations_of(self, speaker: Speaker) -> ObligationsView {
        match speaker {
            Speaker::Person0 => self.person0_obligations,
            Speaker::Person1 => self.person1_obligations,
        }
    }

    /// A move with the given words and speaker that changed nothing.
    pub open spec fn blank(utterance: Seq<char>, speaker: Speaker) -> MoveView {
        MoveView {
            utterance,
            speaker,
            person0_obligations: ObligationsView::empty(),
            person1_obligations: ObligationsView::empty(),
            topic_state: TopicStateView::empty(),
        }
    }
}

impl View for HistoricalMove {
    type V = MoveView;

    open spec fn view(&self) -> MoveView {
        MoveView {
            utterance: self.utterance@,
            speaker: self.speaker,
            person0_obligations: self.person0_obligations@,
            person1_obligations: self.person1_obligations@,
            topic_state: self.topic_state@,
        }
    }
}

impl HistoricalMove {
    /// A move with the given words and speaker that changed nothing.
    pub fn new(utterance: String, speaker: Speaker) -> (made: HistoricalMove)
        ensures
            made@ == MoveView::blank(utterance@, speaker),
    {
        HistoricalMove {
            utterance,
            speaker,
            person0_obligations: HistoricalObligations::new(),
            person1_obligations: HistoricalObligations::new(),
            topic_state: TopicState::new(),
        }
    }

    /// The obligations that the move addressed, for either participant, each once.
    pub fn all_addressed_obligations(&self) -> (moves: Vec<DialogMove>)
        ensures
            moves@.no_duplicates(),
            moves@.to_set() == self@.person0_obligations.addressed.union(
                self@.person1_obligations.addressed,
            ),
    {
        let mut both = self.person0_obligations.addressed.clone();
        both.extend_from(&self.person1_obligations.addressed);
        both.to_vec()
    }

    /// Whether the move addressed the dialog move, for either participant.
    pub fn was_move_satisfied(&self, dialog_move: DialogMove) -> (yes: bool)
        ensures
            yes == self@.was_move_satisfied(dialog_move),
    {
        self.person0_obligations.addressed.contains(dialog_move)
            || self.person1_obligations.addressed.contains(dialog_move)
    }

    /// The record for one participant.
    pub fn get_speaker_obligations(&mut self, speaker: Speaker) -> (record:
        &mut HistoricalObligations)
        ensures
            *record == (match speaker {
                Speaker::Person0 => old(self).person0_obligations,
                Speaker::Person1 => old(self).person1_obligations,
            }),
            *final(self) == (match speaker {
                Speaker::Person0 => HistoricalMove {
                    person0_obligations: *final(record),
                    ..*old(self)
                },
                Speaker::Person1 => HistoricalMove {
                    person1_obligations: *final(record),
                    ..*old(self)
                },
            }),
    {
        match speaker {
            Speaker::Person0 => &mut self.person0_obligations,
            Speaker::Person1 => &mut self.person1_obligations,
        }
    }

    /// The record for the participant who made the move.
    pub fn get_my_obligations(&mut self) -> (record: &mut HistoricalObligations)
        ensures
            *record == (match old(self).speaker {
                Speaker::Person0 => old(self).person0_obligations,
                Speaker::Person1 => old(self).person1_obligations,
            }),
            *final(self) == (match old(self).speaker {
                Speaker::Person0 => HistoricalMove {
                    person0_obligations: *final(record),
                    ..*old(self)
                },
                Speaker::Person1 => HistoricalMove {
                    person1_obligations: *final(record),
                    ..*old(self)
                },
            }),
    {
        let speaker = self.speaker;
        self.get_speaker_obligations(speaker)
    }

    /// The record for the participant who did not make the move.
    pub fn get_others_obligations(&mut self) -> (record: &mut HistoricalObligations)
        ensures
            *record == (match old(self).speaker {
                Speaker::Person0 => old(self).person1_obligations,
                Speaker::Person1 => old(self).person0_obligations,
            }),
            *final(self) == (match old(self).speaker {
                Speaker::Person0 => HistoricalMove {
                    person1_obligations: *final(record),
                    ..*old(self)
                },
                Speaker::Person1 => HistoricalMove {
                    person0_obligations: *final(record),
                    ..*old(self)
                },
            }),
    {
        let speaker = self.speaker.other();
        self.get_speaker_obligations(speaker)
    }
}

spec fn decayed_among(
    owed: Map<DialogMove, PushedObligationMetadata>,
    done: Set<DialogMove>,
) -> Map<DialogMove, PushedObligationMetadata> {
    Map::new(
        |k: DialogMove| owed.contains_key(k) && (done.contains(k) ==> owed[k].time_to_live > 0),
        |k: DialogMove|
            if done.contains(k) {
                owed[k].ticked()
            } else {
                owed[k]
            },
    )
}

/// The obligations one timestep later: those with no time left are gone, the
/// others have one unit of time less.
pub open spec fn decayed(owed: Map<DialogMove, PushedObligationMetadata>) -> Map<
    DialogMove,
    PushedObligationMetadata,
> {
    Map::new(
        |k: DialogMove| owed.contains_key(k) && owed[k].time_to_live > 0,
        |k: DialogMove| owed[k].ticked(),
    )
}

/// The obligations after `n` timesteps.
pub open spec fn decayed_times(owed: Map<DialogMove, PushedObligationMetadata>, n: nat) -> Map<
    DialogMove,
    PushedObligationMetadata,
>
    decreases n,
{
    if n == 0 {
        owed
    } else {
        decayed(decayed_times(owed, (n - 1) as nat))
    }
}

/// The obligations of a participant once a move's record is merged in. The
/// obligations that the record addressed go first. Each obligation that it pushed
/// then joins the one that is still owed for the same dialog move, or stands as it
/// was pushed where none is.
pub open spec fn merged_obligations(
    owed: Map<DialogMove, PushedObligationMetadata>,
    record: ObligationsView,
) -> Map<DialogMove, PushedObligationMetadata> {
    let kept = owed.remove_keys(record.addressed);
    Map::new(
        |k: DialogMove| kept.contains_key(k) || record.pushed.contains_key(k),
        |k: DialogMove|
            if record.pushed.contains_key(k) {
                if kept.contains_key(k) {
                    kept[k].merged(record.pushed[k])
                } else {
                    record.pushed[k]
                }
            } else {
                kept[k]
            },
    )
}

spec fn merged_among(
    owed: Map<DialogMove, PushedObligationMetadata>,
    record: ObligationsView,
    merged: Set<DialogMove>,
) -> Map<DialogMove, PushedObligationMetadata> {
    merged_obligations(
        owed,
        ObligationsView {
            pushed: record.pushed.restrict(merged),
            addressed: record.addressed,
        },
    )
}

/// The state of one participant of a conversation.
pub struct ParticipantState<C> {
    /// How often this participant introduced and addressed each topic.
    pub topics: Table<TopicMetadata>,
    /// The obligations that this participant owes.
    pub pushed_obligations: Table<PushedObligationMetadata>,
    /// The character that takes part.
    pub character: C,
}

impl<C> ParticipantState<C> {
    /// The state of a participant who has said and owes nothing.
    pub fn new(character: C) -> (state: ParticipantState<C>)
        ensures
            state.topics@ == Map::<Topic, TopicMetadata>::empty(),
            state.pushed_obligations@ == Map::<DialogMove, PushedObligationMetadata>::empty(),
            state.character == character,
    {
        ParticipantState { topics: Table::new(), pushed_obligations: Table::new(), character }
    }

    /// Lets one timestep pass for every obligation, and drops those that expire.
    pub fn timestep(&mut self)
        ensures
            final(self).pushed_obligations@ == decayed(old(self).pushed_obligations@),
            final(self).topics == old(self).topics,
            final(self).character == old(self).character,
    {
        let keys = self.pushed_obligations.keys();
        let mut i: usize = 0;
        while i < keys.len()
            invariant
                i <= keys.len(),
                keys@.no_duplicates(),
                keys@.to_set() == old(self).pushed_obligations@.dom(),
                self.topics == old(self).topics,
                self.character == old(self).character,
                self.pushed_obligations@ == decayed_among(
                    old(self).pushed_obligations@,
                    keys@.take(i as int).to_set(),
                ),
            decreases keys.len() - i,
        {
            let key = keys[i];
            proof {
                lemma_take_push_to_set(keys@, i as int);
                assert(keys@.to_set().contains(key));
                lemma_fresh_in_prefix(keys@, i as int);
            }
            let found = self.pushed_obligations.get(key);
            let mut obligation = match found {
                Some(held) => *held,
                None => PushedObligationMetadata { urgency: 0, time_to_live: 0, times_pushed: 0 },
            };
            if obligation.timestep() {
                self.pushed_obligations.remove(key);
            } else {
                self.pushed_obligations.insert(key, obligation);
            }
            assert(self.pushed_obligations@ =~= decayed_among(
                old(self).pushed_obligations@,
                keys@.take(i + 1).to_set(),
            ));
            i += 1;
        }
        proof {
            assert(keys@.take(keys.len() as int) == keys@);
            assert(self.pushed_obligations@ =~= decayed(old(self).pushed_obligations@));
        }
    }

    /// Merges the record of a move into what this participant owes: the obligations
    /// that the move addressed go, and those that it pushed come in.
    pub fn merge_historical_obligations(&mut self, record: &HistoricalObligations)
        ensures
            final(self).pushed_obligations@ == merged_obligations(
                old(self).pushed_obligations@,
                record@,
            ),
            final(self).topics == old(self).topics,
            final(self).character == old(self).character,
    {
        let addressed = record.addressed.to_vec();
        let mut i: usize = 0;
        while i < addressed.len()
            invariant
                i <= addressed.len(),
                addressed@.to_set() == record@.addressed,
                self.topics == old(self).topics,
                self.character == old(self).character,
                self.pushed_obligations@ == old(self).pushed_obligations@.remove_keys(
                    addressed@.take(i as int).to_set(),
                ),
            decreases addressed.len() - i,
        {
            self.pushed_obligations.remove(addressed[i]);
            proof {
                lemma_take_push_to_set(addressed@, i as int);
                assert(self.pushed_obligations@ =~= old(self).pushed_obligations@.remove_keys(
                    addressed@.take(i + 1).to_set(),
                ));
            }
            i += 1;
        }
        proof {
            assert(addressed@.take(addressed.len() as int) == addressed@);
            assert(self.pushed_obligations@ =~= merged_among(
                old(self).pushed_obligations@,
                record@,
                Set::empty(),
            ));
        }
        let pushed = record.pushed.keys();
        let mut j: usize = 0;
        while j < pushed.len()
            invariant
                j <= pushed.len(),
                pushed@.no_duplicates(),
                pushed@.to_set() == record@.pushed.dom(),
                self.topics == old(self).topics,
                self.character == old(self).character,
                self.pushed_obligations@ == merged_among(
                    old(self).pushed_obligations@,
                    record@,
                    pushed@.take(j as int).to_set(),
                ),
            decreases pushed.len() - j,
        {
            let key = pushed[j];
            proof {
                lemma_take_push_to_set(pushed@, j as int);
                assert(pushed@.to_set().contains(key));
                lemma_fresh_in_prefix(pushed@, j as int);
            }
            let incoming = match record.pushed.get(key) {
                Some(held) => *held,
                None => PushedObligationMetadata { urgency: 0, time_to_live: 0, times_pushed: 0 },
            };
            let mut obligation = match self.pushed_obligations.get(key) {
                Some(held) => *held,
                None => PushedObligationMetadata {
                    urgency: i32::MIN,
                    time_to_live: 0,
                    times_pushed: 0,
                },
            };
            obligation.merge(&incoming);
            self.pushed_obligations.insert(key, obligation);
            assert(self.pushed_obligations@ =~= merged_among(
                old(self).pushed_obligations@,
                record@,
                pushed@.take(j + 1).to_set(),
            ));
            j += 1;
        }
        proof {
            assert(pushed@.take(pushed.len() as int) == pushed@);
            assert(record@.pushed.restrict(pushed@.to_set()) =~= record@.pushed);
        }
    }
}

impl<C: Clone> Clone for ParticipantState<C> {
    fn clone(&self) -> (copy: ParticipantState<C>)
        ensures
            copy.topics@ == self.topics@,
            copy.pushed_obligations@ == self.pushed_obligations@,
            cloned(self.character, copy.character),
    {
        ParticipantState {
            topics: self.topics.clone(),
            pushed_obligations: self.pushed_obligations.clone(),
            character: self.character.clone(),
        }
    }
}

} // verus!
