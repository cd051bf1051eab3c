//! Expander nodes: the templates that turn a dialog move or a topic into words.

use crate::conversation::Conversation;
use crate::idset::IdSet;
use crate::ledger::HistoricalMove;
use crate::random::Rng;
use vstd::prelude::*;

verus! {

/// The name of an expander node.
pub type ExpanderNode = u64;

/// A test on a conversation. It changes nothing, and its answer depends on the
/// conversation alone.
pub trait Condition<C> {
    /// Whether the test holds of the conversation. A test that does not say when it
    /// holds still gives one answer for one conversation.
    open spec fn holds(&self, conversation: &Conversation<C>) -> bool {
        arbitrary::<spec_fn(&Self, &Conversation<C>) -> bool>()(self, conversation)
    }

    /// Makes the test.
    fn check(&self, conversation: &Conversation<C>) -> (yes: bool)
        ensures
            yes == self.holds(conversation),
    ;
}

/// A test, boxed, so that it can stand in an expander node whatever its type.
pub open spec fn boxed_condition<C, F: Condition<C> + 'static>(condition: F) -> Box<
    dyn Condition<C>,
> {
    Box::new(condition)
}

/// The condition on which an expander node may be taken. Without a test it always
/// holds.
#[verifier::reject_recursive_types(C)]
pub struct Precondition<C> {
    /// The test, if there is one.
    pub condition: Option<Box<dyn Condition<C>>>,
}

impl<C> Precondition<C> {
    /// Whether the precondition holds of the conversation.
    pub open spec fn holds(&self, conversation: &Conversation<C>) -> bool {
        match self.condition {
            Some(test) => test.holds(conversation),
            None => true,
        }
    }

    /// The precondition that makes the given test: it holds the test, boxed.
    pub fn new<F: Condition<C> + 'static>(condition: F) -> (precondition: Precondition<C>)
        ensures
            precondition.condition == Some(boxed_condition(condition)),
    {
        let test: Box<dyn Condition<C>> = Box::new(condition);
        Precondition { condition: Some(test) }
    }

    /// The precondition that always holds.
    pub fn always() -> (precondition: Precondition<C>)
        ensures
            precondition.condition is None,
    {
        Precondition { condition: None }
    }

    /// Whether the precondition holds of the conversation.
    pub fn check(&self, conversation: &Conversation<C>) -> (yes: bool)
        ensures
            yes == self.holds(conversation),
    {
        match &self.condition {
            Some(test) => test.check(conversation),
            None => true,
        }
    }
}

impl<C> Default for Precondition<C> {
    fn default() -> (precondition: Precondition<C>)
        ensures
            precondition.condition is None,
    {
        Precondition { condition: None }
    }
}

/// What an expander node does to the move that is being made, beyond adding what
/// the node declares: it may push obligations, mark topics, and change the
/// conversation.
pub trait EditMove<C> {
    /// Whether the edit may turn the conversation and the move of `before` into
    /// those of `after`. An edit that does not say what it does may do anything.
    open spec fn edits(
        &self,
        before: (Conversation<C>, HistoricalMove),
        after: (Conversation<C>, HistoricalMove),
    ) -> bool {
        true
    }

    /// Edits the move that is being made.
    fn edit(
        &self,
        conversation: &mut Conversation<C>,
        rng: &mut Rng,
        historical_move: &mut HistoricalMove,
    )
        ensures
            self.edits(
                (*old(conversation), *old(historical_move)),
                (*final(conversation), *final(historical_move)),
            ),
    ;
}

/// An edit, boxed, so that it can stand in an expander node whatever its type.
pub open spec fn boxed_edit<C, F: EditMove<C> + 'static>(f: F) -> Box<dyn EditMove<C>> {
    Box::new(f)
}

/// The edit of an expander node, if it has one.
#[verifier::reject_recursive_types(C)]
pub struct EditHistoricalMove<C> {
    /// The edit, if there is one.
    pub edit: Option<Box<dyn EditMove<C>>>,
}

impl<C> EditHistoricalMove<C> {
    /// The given edit: it is held boxed.
    pub fn new<F: EditMove<C> + 'static>(f: F) -> (edit: EditHistoricalMove<C>)
        ensures
            edit.edit == Some(boxed_edit(f)),
    {
        let boxed: Box<dyn EditMove<C>> = Box::new(f);
        EditHistoricalMove { edit: Some(boxed) }
    }

    /// No edit.
    pub fn none() -> (edit: EditHistoricalMove<C>)
        ensures
            edit.edit is None,
    {
        EditHistoricalMove { edit: None }
    }
}

impl<C> Default for EditHistoricalMove<C> {
    fn default() -> (edit: EditHistoricalMove<C>)
        ensures
            edit.edit is None,
    {
        EditHistoricalMove { edit: None }
    }
}

/// How an expander node makes its words out of the words of its parts.
pub trait FormatMove<C> {
    /// Whether the node may make `utterance` out of `parts` in the conversation. A
    /// formatter that does not say what it makes may make anything.
    open spec fn formats(
        &self,
        conversation: &Conversation<C>,
        parts: Seq<String>,
        utterance: String,
    ) -> bool {
        true
    }

    /// Makes the words of the node.
    fn format(&self, conversation: &Conversation<C>, rng: &mut Rng, parts: Vec<String>) -> (utterance:
        String)
        ensures
            self.formats(conversation, parts@, utterance),
    ;
}

/// The formatter of an expander node.
pub type MoveNodeFormatter<C> = Box<dyn FormatMove<C>>;

/// An expander node.
#[verifier::reject_recursive_types(C)]
pub struct MoveNode<C> {
    /// The dialog moves that the node addresses.
    pub dialog_moves: IdSet,
    /// The topics that the node addresses.
    pub addressed_topics: IdSet,
    /// The condition on which the node may be taken.
    pub precondition: Precondition<C>,
    /// What the node does to the move that is being made.
    pub edit_historical_move: EditHistoricalMove<C>,
    /// How the node makes its words.
    pub formatter: MoveNodeFormatter<C>,
    /// The parts of the node. Every part is made, in this order; for each part one
    /// of the nodes that it lists is taken.
    pub parts: Vec<Vec<ExpanderNode>>,
}

impl<C> MoveNode<C> {
    /// Whether the node lists `child` in its part `slot`.
    pub open spec fn lists_at(self, slot: int, child: ExpanderNode) -> bool {
        0 <= slot < self.parts@.len() && self.parts@[slot]@.contains(child)
    }

    /// Whether the node lists `child` in one of its parts.
    pub open spec fn lists(self, child: ExpanderNode) -> bool {
        exists|slot: int| self.lists_at(slot, child)
    }
}

} // verus!
