//! A conversation engine for two participants.
//!
//! A [`Conversation`] keeps what was said, which topics wait to be addressed and
//! what each participant owes. Its goals propose dialog moves. An [`Expander`]
//! holds the expander nodes, which turn a dialog move or a topic into a tree of
//! nodes and the tree into a move with its words. A [`DialogManager`] lets a
//! conversation take one step at a time: a timestep passes, and one of the
//! participants speaks, or there is a lull.
//!
//! Topics, dialog moves and expander nodes are named by numbers. What an expander
//! node tests, says and edits, what a frame sets up and what a goal does is given
//! by the user, as a value of a type with the trait for it.

pub mod chain;
pub mod character;
pub mod conversation;
pub mod expander;
pub mod goal;
pub mod grammar;
pub mod idset;
pub mod laws;
pub mod ledger;
pub mod manager;
pub mod node;
pub mod random;
pub mod realize;
pub mod sequences;
pub mod table;

pub use crate::conversation::{Conversation, ConversationState};
pub use crate::chain::ExpansionTree;
pub use crate::expander::{Expander, ExpanderErr, ExpanderResult};
pub use crate::goal::{
    ConcatGoals, Frame, FrameState, Goal, GoalEagerSequence, GoalMove, GoalPursuer, GoalSequence,
    GoalState, PerformGoalMove, RepeatGoalMove,
};
pub use crate::idset::IdSet;
pub use crate::ledger::{
    DialogMove, HistoricalMove, HistoricalObligations, ParticipantState, PushedObligationMetadata,
    Speaker, Topic, TopicMetadata, TopicState,
};
pub use crate::manager::DialogManager;
pub use crate::node::{
    Condition, EditHistoricalMove, EditMove, ExpanderNode, FormatMove, MoveNode,
    MoveNodeFormatter, Precondition,
};
pub use crate::random::Rng;
pub use crate::table::Table;
