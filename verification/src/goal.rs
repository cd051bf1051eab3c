//! Goals: plans that propose dialog moves and follow the moves that are made.

use crate::conversation::{Conversation, ConversationState};
use crate::ledger::{DialogMove, HistoricalMove, MoveView, Speaker};
use vstd::prelude::*;

verus! {

/// Who may make the dialog move of a goal.
#[derive(Debug, Clone, Copy, PartialEq, Eq, Structural)]
pub enum GoalPursuer {
    /// Only this participant.
    Speaker(Speaker),
    /// Either participant.
    Any,
}

impl GoalPursuer {
    /// Whether `speaker` may make the move: a named participant agrees with itself,
    /// and `Any` with both.
    pub open spec fn agrees(self, speaker: Speaker) -> bool {
        match self {
            GoalPursuer::Speaker(named) => named == speaker,
            GoalPursuer::Any => true,
        }
    }

    /// Whether `speaker` may make the move.
    pub fn agrees_with(self, speaker: Speaker) -> (yes: bool)
        ensures
            yes == self.agrees(speaker),
    {
        match self {
            GoalPursuer::Speaker(named) => named == speaker,
            GoalPursuer::Any => true,
        }
    }
}

impl From<Speaker> for GoalPursuer {
    fn from(speaker: Speaker) -> (pursuer: GoalPursuer) {
        GoalPursuer::Speaker(speaker)
    }
}

impl vstd::std_specs::convert::FromSpecImpl<Speaker> for GoalPursuer {
    open spec fn obeys_from_spec() -> bool {
        true
    }

    open spec fn from_spec(speaker: Speaker) -> GoalPursuer {
        GoalPursuer::Speaker(speaker)
    }
}

/// A dialog move that a goal proposes, and who is to make it.
#[derive(Debug, Clone, Copy, PartialEq, Eq, Structural)]
pub struct GoalMove {
    /// The participant who is to make the dialog move.
    pub pursuer: GoalPursuer,
    /// The dialog move.
    pub dialog_move: DialogMove,
}

impl GoalMove {
    /// Whether a move that was made fulfils this one: the right participant made
    /// it, and it addressed the dialog move.
    pub open spec fn fulfilled_by(self, made: MoveView) -> bool {
        self.pursuer.agrees(made.speaker) && made.was_move_satisfied(self.dialog_move)
    }

    /// Whether a move that was made fulfils this one.
    pub fn is_fulfilled_by(&self, made: &HistoricalMove) -> (yes: bool)
        ensures
            yes == self.fulfilled_by(made@),
    {
        self.pursuer.agrees_with(made.speaker) && made.was_move_satisfied(self.dialog_move)
    }
}

/// What a goal does. A goal sees the conversation without its goals, and what it
/// proposes depends on nothing but what it was made with and what it was shown.
pub trait GoalState<C> {
    /// The move that the goal proposes next, if any. A goal that does not say what
    /// it proposes still proposes one thing in one state.
    open spec fn proposal(&self, state: &ConversationState<C>) -> Option<GoalMove> {
        arbitrary::<spec_fn(&Self, &ConversationState<C>) -> Option<GoalMove>>()(self, state)
    }

    /// Whether the goal is finished.
    open spec fn satisfied(&self) -> bool {
        arbitrary::<spec_fn(&Self) -> bool>()(self)
    }

    /// Proposes the next move.
    fn next_step(&self, state: &ConversationState<C>) -> (step: Option<GoalMove>)
        ensures
            step == self.proposal(state),
    ;

    /// Whether the goal is finished once it is told of the move `history`, which was
    /// made in the state `seen`.
    open spec fn satisfied_after(
        &self,
        seen: &ConversationState<C>,
        history: &HistoricalMove,
    ) -> bool {
        arbitrary::<spec_fn(&Self, &ConversationState<C>, &HistoricalMove) -> bool>()(
            self,
            seen,
            history,
        )
    }

    /// The move that the goal proposes in `state` once it is told of the move
    /// `history`, which was made in the state `seen`.
    open spec fn proposal_after(
        &self,
        seen: &ConversationState<C>,
        history: &HistoricalMove,
        state: &ConversationState<C>,
    ) -> Option<GoalMove> {
        arbitrary::<
            spec_fn(
                &Self,
                &ConversationState<C>,
                &HistoricalMove,
                &ConversationState<C>,
            ) -> Option<GoalMove>,
        >()(self, seen, history, state)
    }

    /// Tells the goal of a move that was made. What the goal proposes from then on,
    /// and whether it is finished, follows from what it was told.
    fn made_move(&mut self, state: &ConversationState<C>, history: &HistoricalMove)
        ensures
            final(self).satisfied() == old(self).satisfied_after(state, history),
            forall|then: &ConversationState<C>| #[trigger]
                final(self).proposal(then) == old(self).proposal_after(state, history, then),
    ;

    /// Whether the goal is finished.
    fn is_satisfied(&self) -> (yes: bool)
        ensures
            yes == self.satisfied(),
    ;
}

/// A goal of a conversation.
#[verifier::reject_recursive_types(C)]
pub struct Goal<C> {
    /// What the goal does.
    pub state: Box<dyn GoalState<C>>,
}

/// What a goal does, boxed, so that it can stand among the goals of a
/// conversation whatever its type.
pub open spec fn boxed_goal<C, G: GoalState<C> + 'static>(g: G) -> Box<dyn GoalState<C>> {
    Box::new(g)
}

impl<C> Goal<C> {
    /// Makes a goal of what it does: the goal holds `g`, boxed.
    pub fn new<G: GoalState<C> + 'static>(g: G) -> (goal: Goal<C>)
        ensures
            goal.state == boxed_goal(g),
    {
        let state: Box<dyn GoalState<C>> = Box::new(g);
        Goal { state }
    }
}

/// What a frame does: it sets up a conversation that has just begun, with the
/// obligations and goals that the conversation starts with.
pub trait FrameState<C> {
    /// Whether the frame may turn `before` into `after`. A frame that does not say
    /// what it does may do anything.
    open spec fn applies(&self, before: Conversation<C>, after: Conversation<C>) -> bool {
        true
    }

    /// Sets the conversation up.
    fn apply(&self, conversation: &mut Conversation<C>)
        ensures
            self.applies(*old(conversation), *final(conversation)),
    ;
}

/// A frame: it sets up each conversation once, when the conversation begins.
#[verifier::reject_recursive_types(C)]
pub struct Frame<C> {
    /// What the frame does.
    pub state: Box<dyn FrameState<C>>,
}

/// What a frame does, boxed, so that it can stand among the frames of a manager
/// whatever its type.
pub open spec fn boxed_frame<C, F: FrameState<C> + 'static>(state: F) -> Box<dyn FrameState<C>> {
    Box::new(state)
}

impl<C> Frame<C> {
    /// Makes a frame of what it does: the frame holds `state`, boxed.
    pub fn new<F: FrameState<C> + 'static>(state: F) -> (frame: Frame<C>)
        ensures
            frame.state == boxed_frame(state),
    {
        let boxed: Box<dyn FrameState<C>> = Box::new(state);
        Frame { state: boxed }
    }
}

/// Two goals at once: the first proposes before the second, and both must finish.
#[derive(Debug)]
pub struct ConcatGoals<G1, G2> {
    /// The goal that proposes first.
    pub g1: G1,
    /// The goal that proposes where the first proposes nothing.
    pub g2: G2,
}

impl<G1, G2> ConcatGoals<G1, G2> {
    /// Puts two goals together.
    pub fn new(g1: G1, g2: G2) -> (both: ConcatGoals<G1, G2>)
        ensures
            both.g1 == g1,
            both.g2 == g2,
    {
        ConcatGoals { g1, g2 }
    }
}

impl<G1: Clone, G2: Clone> Clone for ConcatGoals<G1, G2> {
    fn clone(&self) -> (copy: ConcatGoals<G1, G2>)
        ensures
            cloned(self.g1, copy.g1),
            cloned(self.g2, copy.g2),
    {
        ConcatGoals { g1: self.g1.clone(), g2: self.g2.clone() }
    }
}

impl<C, G1: GoalState<C>, G2: GoalState<C>> GoalState<C> for ConcatGoals<G1, G2> {
    open spec fn proposal(&self, state: &ConversationState<C>) -> Option<GoalMove> {
        match self.g1.proposal(state) {
            Some(step) => Some(step),
            None => self.g2.proposal(state),
        }
    }

    open spec fn satisfied(&self) -> bool {
        self.g1.satisfied() && self.g2.satisfied()
    }

    open spec fn satisfied_after(
        &self,
        seen: &ConversationState<C>,
        history: &HistoricalMove,
    ) -> bool {
        self.g1.satisfied_after(seen, history) && self.g2.satisfied_after(seen, history)
    }

    open spec fn proposal_after(
        &self,
        seen: &ConversationState<C>,
        history: &HistoricalMove,
        state: &ConversationState<C>,
    ) -> Option<GoalMove> {
        match self.g1.proposal_after(seen, history, state) {
            Some(step) => Some(step),
            None => self.g2.proposal_after(seen, history, state),
        }
    }

    fn next_step(&self, state: &ConversationState<C>) -> (step: Option<GoalMove>) {
        match self.g1.next_step(state) {
            Some(step) => Some(step),
            None => self.g2.next_step(state),
        }
    }

    /// Both goals are told of the move.
    fn made_move(&mut self, state: &ConversationState<C>, history: &HistoricalMove)
        ensures
            final(self).g1.satisfied() == old(self).g1.satisfied_after(state, history),
            final(self).g2.satisfied() == old(self).g2.satisfied_after(state, history),
            forall|then: &ConversationState<C>| #[trigger]
                final(self).g1.proposal(then) == old(self).g1.proposal_after(state, history, then),
            forall|then: &ConversationState<C>| #[trigger]
                final(self).g2.proposal(then) == old(self).g2.proposal_after(state, history, then),
    {
        self.g1.made_move(state, history);
        self.g2.made_move(state, history);
    }

    fn is_satisfied(&self) -> (yes: bool) {
        self.g1.is_satisfied() && self.g2.is_satisfied()
    }
}

/// The moves of a sequence that a move that was made leaves to be done: all but
/// those that it fulfils.
pub open spec fn remaining(sequence: Seq<GoalMove>, made: MoveView) -> Seq<GoalMove> {
    sequence.filter(|step: GoalMove| !step.fulfilled_by(made))
}

/// The first move of a sequence, if it has one.
pub open spec fn first_of(sequence: Seq<GoalMove>) -> Option<GoalMove> {
    if sequence.len() > 0 {
        Some(sequence[0])
    } else {
        None
    }
}

fn copy_moves(sequence: &Vec<GoalMove>) -> (copy: Vec<GoalMove>)
    ensures
        copy@ == sequence@,
{
    let mut copy: Vec<GoalMove> = Vec::new();
    let mut i: usize = 0;
    while i < sequence.len()
        invariant
            i <= sequence.len(),
            copy@ == sequence@.take(i as int),
        decreases sequence.len() - i,
    {
        copy.push(sequence[i]);
        proof {
            assert(sequence@.take(i + 1) =~= sequence@.take(i as int).push(sequence@[i as int]));
        }
        i += 1;
    }
    proof {
        assert(sequence@.take(sequence.len() as int) =~= sequence@);
    }
    copy
}

fn drop_fulfilled(sequence: &mut Vec<GoalMove>, made: &HistoricalMove)
    ensures
        final(sequence)@ == remaining(old(sequence)@, made@),
{
    let mut kept: Vec<GoalMove> = Vec::new();
    let mut i: usize = 0;
    proof {
        reveal(Seq::filter);
        assert(sequence@.take(0).len() == 0);
    }
    while i < sequence.len()
        invariant
            i <= sequence.len(),
            sequence@ == old(sequence)@,
            kept@ == remaining(sequence@.take(i as int), made@),
        decreases sequence.len() - i,
    {
        let step = sequence[i];
        proof {
            reveal(Seq::filter);
            let next = sequence@.take(i + 1);
            assert(next.drop_last() == sequence@.take(i as int));
            assert(next.last() == step);
        }
        if !step.is_fulfilled_by(made) {
            kept.push(step);
        }
        i += 1;
    }
    proof {
        assert(sequence@.take(sequence.len() as int) == sequence@);
    }
    *sequence = kept;
}

/// A sequence of moves to be made, the first one first.
#[derive(Debug)]
pub struct GoalSequence {
    /// The moves that are still to be made.
    pub sequence: Vec<GoalMove>,
}

impl Clone for GoalSequence {
    fn clone(&self) -> (copy: GoalSequence)
        ensures
            copy.sequence@ == self.sequence@,
    {
        GoalSequence { sequence: copy_moves(&self.sequence) }
    }
}

impl<C> GoalState<C> for GoalSequence {
    open spec fn proposal(&self, state: &ConversationState<C>) -> Option<GoalMove> {
        first_of(self.sequence@)
    }

    open spec fn satisfied(&self) -> bool {
        self.sequence@.len() == 0
    }

    open spec fn satisfied_after(
        &self,
        seen: &ConversationState<C>,
        history: &HistoricalMove,
    ) -> bool {
        remaining(self.sequence@, history@).len() == 0
    }

    open spec fn proposal_after(
        &self,
        seen: &ConversationState<C>,
        history: &HistoricalMove,
        state: &ConversationState<C>,
    ) -> Option<GoalMove> {
        first_of(remaining(self.sequence@, history@))
    }

    fn next_step(&self, state: &ConversationState<C>) -> (step: Option<GoalMove>) {
        if self.sequence.len() > 0 {
            Some(self.sequence[0])
        } else {
            None
        }
    }

    /// Every move of the sequence that the move fulfils leaves the sequence, not
    /// only the first.
    fn made_move(&mut self, state: &ConversationState<C>, history: &HistoricalMove)
        ensures
            final(self).sequence@ == remaining(old(self).sequence@, history@),
    {
        drop_fulfilled(&mut self.sequence, history);
    }

    fn is_satisfied(&self) -> (yes: bool) {
        self.sequence.len() == 0
    }
}

/// What an eager sequence keeps after a move that was made: nothing where the move
/// fulfils its last entry, else what a plain sequence keeps.
pub open spec fn remaining_eager(sequence: Seq<GoalMove>, made: MoveView) -> Seq<GoalMove> {
    if sequence.len() > 0 && sequence.last().fulfilled_by(made) {
        Seq::empty()
    } else {
        remaining(sequence, made)
    }
}

/// A sequence of moves that is over as soon as its last move is made, whatever is
/// left before it.
#[derive(Debug)]
pub struct GoalEagerSequence {
    /// The moves that are still to be made.
    pub sequence: Vec<GoalMove>,
}

impl Clone for GoalEagerSequence {
    fn clone(&self) -> (copy: GoalEagerSequence)
        ensures
            copy.sequence@ == self.sequence@,
    {
        GoalEagerSequence { sequence: copy_moves(&self.sequence) }
    }
}

impl<C> GoalState<C> for GoalEagerSequence {
    open spec fn proposal(&self, state: &ConversationState<C>) -> Option<GoalMove> {
        first_of(self.sequence@)
    }

    open spec fn satisfied(&self) -> bool {
        self.sequence@.len() == 0
    }

    open spec fn satisfied_after(
        &self,
        seen: &ConversationState<C>,
        history: &HistoricalMove,
    ) -> bool {
        remaining_eager(self.sequence@, history@).len() == 0
    }

    open spec fn proposal_after(
        &self,
        seen: &ConversationState<C>,
        history: &HistoricalMove,
        state: &ConversationState<C>,
    ) -> Option<GoalMove> {
        first_of(remaining_eager(self.sequence@, history@))
    }

    fn next_step(&self, state: &ConversationState<C>) -> (step: Option<GoalMove>) {
        if self.sequence.len() > 0 {
            Some(self.sequence[0])
        } else {
            None
        }
    }

    fn made_move(&mut self, state: &ConversationState<C>, history: &HistoricalMove)
        ensures
            final(self).sequence@ == remaining_eager(old(self).sequence@, history@),
    {
        let n = self.sequence.len();
        if n > 0 && self.sequence[n - 1].is_fulfilled_by(history) {
            self.sequence.clear();
        } else {
            drop_fulfilled(&mut self.sequence, history);
        }
    }

    fn is_satisfied(&self) -> (yes: bool) {
        self.sequence.len() == 0
    }
}

/// One move to be made once.
#[derive(Debug, Clone, Copy)]
pub struct PerformGoalMove {
    /// The move to be made.
    pub goal_move: GoalMove,
    /// Whether it was made.
    pub satisfied: bool,
}

impl PerformGoalMove {
    /// The goal to make `goal_move`, not yet made.
    pub fn new(goal_move: GoalMove) -> (goal: PerformGoalMove)
        ensures
            goal == (PerformGoalMove { goal_move, satisfied: false }),
    {
        PerformGoalMove { goal_move, satisfied: false }
    }
}

impl<C> GoalState<C> for PerformGoalMove {
    open spec fn proposal(&self, state: &ConversationState<C>) -> Option<GoalMove> {
        if self.satisfied {
            None
        } else {
            Some(self.goal_move)
        }
    }

    open spec fn satisfied(&self) -> bool {
        self.satisfied
    }

    open spec fn satisfied_after(
        &self,
        seen: &ConversationState<C>,
        history: &HistoricalMove,
    ) -> bool {
        self.satisfied || self.goal_move.fulfilled_by(history@)
    }

    open spec fn proposal_after(
        &self,
        seen: &ConversationState<C>,
        history: &HistoricalMove,
        state: &ConversationState<C>,
    ) -> Option<GoalMove> {
        if self.satisfied || self.goal_move.fulfilled_by(history@) {
            None
        } else {
            Some(self.goal_move)
        }
    }

    fn next_step(&self, state: &ConversationState<C>) -> (step: Option<GoalMove>) {
        if self.satisfied {
            None
        } else {
            Some(self.goal_move)
        }
    }

    fn made_move(&mut self, state: &ConversationState<C>, history: &HistoricalMove)
        ensures
            final(self).goal_move == old(self).goal_move,
            final(self).satisfied == (old(self).satisfied || old(self).goal_move.fulfilled_by(
                history@,
            )),
    {
        if self.goal_move.is_fulfilled_by(history) {
            self.satisfied = true;
        }
    }

    fn is_satisfied(&self) -> (yes: bool) {
        self.satisfied
    }
}

/// One move to be made a number of times.
#[derive(Debug, Clone, Copy)]
pub struct RepeatGoalMove {
    /// The move to be made.
    pub goal_move: GoalMove,
    /// How many times it was made.
    pub reps: usize,
    /// How many times it is to be made.
    pub max_reps: usize,
}

impl RepeatGoalMove {
    /// How many times the move was made once `made` is counted: one more where
    /// `made` fulfils the move, as long as the count can hold it.
    pub open spec fn counted(&self, made: MoveView) -> usize {
        if self.goal_move.fulfilled_by(made) && self.reps < usize::MAX {
            (self.reps + 1) as usize
        } else {
            self.reps
        }
    }

    /// The goal to make `goal_move` `max_reps` times, not yet made once.
    pub fn new(goal_move: GoalMove, max_reps: usize) -> (goal: RepeatGoalMove)
        ensures
            goal == (RepeatGoalMove { goal_move, reps: 0, max_reps }),
    {
        RepeatGoalMove { goal_move, reps: 0, max_reps }
    }
}

impl<C> GoalState<C> for RepeatGoalMove {
    open spec fn proposal(&self, state: &ConversationState<C>) -> Option<GoalMove> {
        if self.reps >= self.max_reps {
            None
        } else {
            Some(self.goal_move)
        }
    }

    open spec fn satisfied(&self) -> bool {
        self.reps >= self.max_reps
    }

    open spec fn satisfied_after(
        &self,
        seen: &ConversationState<C>,
        history: &HistoricalMove,
    ) -> bool {
        self.counted(history@) >= self.max_reps
    }

    open spec fn proposal_after(
        &self,
        seen: &ConversationState<C>,
        history: &HistoricalMove,
        state: &ConversationState<C>,
    ) -> Option<GoalMove> {
        if self.counted(history@) >= self.max_reps {
            None
        } else {
            Some(self.goal_move)
        }
    }

    fn next_step(&self, state: &ConversationState<C>) -> (step: Option<GoalMove>) {
        if self.reps >= self.max_reps {
            None
        } else {
            Some(self.goal_move)
        }
    }

    /// A move that fulfils the goal's move counts once. The count stops at the
    /// largest number that it can hold.
    fn made_move(&mut self, state: &ConversationState<C>, history: &HistoricalMove)
        ensures
            final(self).goal_move == old(self).goal_move,
            final(self).max_reps == old(self).max_reps,
            final(self).reps == old(self).counted(history@),
    {
        if self.goal_move.is_fulfilled_by(history) && self.reps < usize::MAX {
            self.reps += 1;
        }
    }

    fn is_satisfied(&self) -> (yes: bool) {
        self.reps >= self.max_reps
    }
}

} // verus!
