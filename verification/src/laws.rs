//! What holds of the engine whatever the conversation: the laws that its parts
//! keep together.

use crate::chain::{chains, embeds, may_embed, takes, takes_one, well_chained, wraps, ExpansionTree};
use crate::conversation::Conversation;
use crate::expander::{addresses_move, is_parent, top_level};
use crate::goal::{remaining, remaining_eager, GoalMove};
use crate::ledger::{
    decayed, decayed_times, max_time, max_urgency, merged_obligations, pushed_onto, DialogMove,
    HistoricalMove, MoveView, ObligationsView, PushedObligationMetadata, Topic, TopicStateView,
};
use crate::node::{ExpanderNode, MoveNode};
use crate::realize::{
    creates, declared_onto, grown_from, made_for_move, made_from, move_is_hopeless, realizes,
    stuck, utters,
};
use vstd::prelude::*;

verus! {

/// An obligation that one move pushes twice has the larger urgency and the longer
/// time to live of the two pushes, and counts two pushes.
pub proof fn law_pushed_twice(
    pushed: Map<DialogMove, PushedObligationMetadata>,
    dialog_move: DialogMove,
    first: (i32, u32),
    second: (i32, u32),
)
    requires
        !pushed.contains_key(dialog_move),
    ensures
        ({
            let once = pushed.insert(
                dialog_move,
                pushed_onto(pushed, dialog_move, first.0, first.1),
            );
            let twice = pushed_onto(once, dialog_move, second.0, second.1);
            &&& twice.urgency == max_urgency(first.0, second.0)
            &&& twice.time_to_live == max_time(first.1, second.1)
            &&& twice.times_pushed == 2
        }),
{
}

/// An obligation that is owed and pushed again before it is addressed has the
/// larger urgency and the longer time to live of the two, and as many pushes as
/// both together, as long as that number fits the counter.
pub proof fn law_pushed_again(
    owed: Map<DialogMove, PushedObligationMetadata>,
    record: ObligationsView,
    dialog_move: DialogMove,
)
    requires
        owed.contains_key(dialog_move),
        record.pushed.contains_key(dialog_move),
        !record.addressed.contains(dialog_move),
        owed[dialog_move].times_pushed + record.pushed[dialog_move].times_pushed <= u32::MAX,
    ensures
        merged_obligations(owed, record).contains_key(dialog_move),
        merged_obligations(owed, record)[dialog_move].urgency == max_urgency(
            owed[dialog_move].urgency,
            record.pushed[dialog_move].urgency,
        ),
        merged_obligations(owed, record)[dialog_move].time_to_live == max_time(
            owed[dialog_move].time_to_live,
            record.pushed[dialog_move].time_to_live,
        ),
        merged_obligations(owed, record)[dialog_move].times_pushed
            == owed[dialog_move].times_pushed + record.pushed[dialog_move].times_pushed,
{
}

/// An obligation that is pushed to a participant who does not owe it stands as it
/// was pushed.
pub proof fn law_pushed_first(
    owed: Map<DialogMove, PushedObligationMetadata>,
    record: ObligationsView,
    dialog_move: DialogMove,
)
    requires
        !owed.contains_key(dialog_move),
        record.pushed.contains_key(dialog_move),
    ensures
        merged_obligations(owed, record).contains_key(dialog_move),
        merged_obligations(owed, record)[dialog_move] == record.pushed[dialog_move],
{
}

/// An obligation with `n` units of time to live is still owed after `k` timesteps,
/// for `k` up to `n`, and has `n - k` units left then.
proof fn lemma_still_owed(
    owed: Map<DialogMove, PushedObligationMetadata>,
    dialog_move: DialogMove,
    n: nat,
    k: nat,
)
    requires
        owed.contains_key(dialog_move),
        owed[dialog_move].time_to_live == n,
        k <= n,
    ensures
        decayed_times(owed, k).contains_key(dialog_move),
        decayed_times(owed, k)[dialog_move].time_to_live == n - k,
    decreases k,
{
    if k > 0 {
        lemma_still_owed(owed, dialog_move, n, (k - 1) as nat);
    }
}

/// An obligation with `n` units of time to live that is neither pushed again nor
/// addressed is owed after `n` timesteps, and no more after `n + 1`.
pub proof fn law_time_to_live(
    owed: Map<DialogMove, PushedObligationMetadata>,
    dialog_move: DialogMove,
    n: nat,
)
    requires
        owed.contains_key(dialog_move),
        owed[dialog_move].time_to_live == n,
    ensures
        decayed_times(owed, n).contains_key(dialog_move),
        !decayed_times(owed, n + 1).contains_key(dialog_move),
{
    lemma_still_owed(owed, dialog_move, n, n);
    assert(decayed_times(owed, n + 1) == decayed(decayed_times(owed, n)));
}

/// A topic that was addressed can neither be addressed nor be introduced again,
/// and does not wait to be addressed.
pub proof fn law_addressed_topic(state: TopicStateView, topic: Topic)
    requires
        state.addressed.contains(topic),
    ensures
        !state.can_be_addressed(topic),
        !state.needs_addressing(topic),
        !state.can_be_introduced(topic),
{
}

/// A topic never waits to be addressed while it can still be introduced.
pub proof fn law_introduced_or_waiting(state: TopicStateView, topic: Topic)
    ensures
        !(state.needs_addressing(topic) && state.can_be_introduced(topic)),
{
}

/// A move that is made from a node without parts and without an edit, which no
/// node lists, holds what the node declares and nothing else: the topics that the
/// node addresses are addressed, its dialog moves are addressed for the
/// participant who speaks, and the conversation stays as it is.
pub proof fn law_leaf_move<C>(
    nodes: Map<ExpanderNode, MoveNode<C>>,
    start: ExpanderNode,
    depth: nat,
    before: Conversation<C>,
    after: Conversation<C>,
    made: HistoricalMove,
)
    requires
        made_from(nodes, start, depth, before, after, made),
        top_level(nodes, start),
        nodes[start].parts@.len() == 0,
        nodes[start].edit_historical_move.edit is None,
    ensures
        after == before,
        made@ == declared_onto(
            MoveView::blank(made@.utterance, before.state.speaker),
            nodes[start],
            before.state.speaker,
        ),
{
    let whole = choose|whole: ExpansionTree|
        grown_from(nodes, &before, whole, start, depth) && #[trigger] creates(
            nodes,
            whole,
            before,
            after,
            made,
        );
    assert(whole.expander_node == start);
    assert(whole.parts@.len() == 0);
    let (text, blank) = choose|text: String, blank: HistoricalMove|
        #![trigger utters(nodes, &before, whole, text), realizes(nodes, whole, (before, blank), (after, made))]
        {
            &&& utters(nodes, &before, whole, text)
            &&& blank@ == MoveView::blank(text@, before.state.speaker)
            &&& realizes(nodes, whole, (before, blank), (after, made))
        };
    let (trace, declared) = choose|
        trace: Seq<(Conversation<C>, HistoricalMove)>,
        declared: HistoricalMove,
    |
        {
            &&& trace.len() == whole.parts@.len() + 1
            &&& trace[0] == (before, blank)
            &&& forall|p: int|
                0 <= p < whole.parts@.len() ==> realizes(
                    nodes,
                    #[trigger] whole.parts@[p],
                    trace[p],
                    trace[p + 1],
                )
            &&& declared@ == declared_onto(
                trace.last().1@,
                nodes[whole.expander_node],
                trace.last().0.state.speaker,
            )
            &&& #[trigger] crate::realize::edited(
                nodes[whole.expander_node].edit_historical_move,
                (trace.last().0, declared),
                (after, made),
            )
        };
    assert(trace.last() == (before, blank));
    assert(made == declared);
    assert(made@ =~= declared_onto(
        MoveView::blank(made@.utterance, before.state.speaker),
        nodes[start],
        before.state.speaker,
    ));
}

/// In a tree that is made as the nodes say, the node taken for a part is one that
/// the part lists and whose precondition holds.
pub proof fn law_parts_satisfy<C>(
    nodes: Map<ExpanderNode, MoveNode<C>>,
    conversation: &Conversation<C>,
    tree: ExpansionTree,
    part: int,
)
    requires
        well_chained(nodes, conversation, tree),
        0 <= part < nodes[tree.expander_node].parts@.len(),
    ensures
        tree.parts@.len() == nodes[tree.expander_node].parts@.len(),
        nodes[tree.expander_node].parts@[part]@.contains(tree.parts@[part].expander_node),
        nodes.contains_key(tree.parts@[part].expander_node),
        nodes[tree.parts@[part].expander_node].precondition.holds(conversation),
{
    assert(tree.parts@[part].expander_node == tree.parts@[part].expander_node);
}

/// Where a part lists two nodes and the precondition of only one of them holds,
/// that one is taken, whatever order the nodes are tried in.
pub proof fn law_takes_the_satisfied<C>(
    nodes: Map<ExpanderNode, MoveNode<C>>,
    conversation: &Conversation<C>,
    tree: ExpansionTree,
    part: int,
    satisfied: ExpanderNode,
    other: ExpanderNode,
)
    requires
        well_chained(nodes, conversation, tree),
        0 <= part < nodes[tree.expander_node].parts@.len(),
        nodes[tree.expander_node].parts@[part]@ == seq![satisfied, other],
        !(nodes.contains_key(other) && nodes[other].precondition.holds(conversation)),
    ensures
        tree.parts@[part].expander_node == satisfied,
{
    law_parts_satisfy(nodes, conversation, tree, part);
    let listed = nodes[tree.expander_node].parts@[part]@;
    let taken = tree.parts@[part].expander_node;
    let at = choose|at: int| 0 <= at < listed.len() && listed[at] == taken;
    assert(at == 0 || at == 1);
}

/// A sequence of two moves that are made in their order: once the first is made
/// the second is left, and once the second is made nothing is.
pub proof fn law_sequence_in_order(
    first: GoalMove,
    second: GoalMove,
    made_first: MoveView,
    made_second: MoveView,
)
    requires
        first.fulfilled_by(made_first),
        !second.fulfilled_by(made_first),
        second.fulfilled_by(made_second),
    ensures
        remaining(seq![first, second], made_first) == seq![second],
        remaining(seq![second], made_second) == Seq::<GoalMove>::empty(),
{
    reveal_with_fuel(Seq::filter, 3);
    let keep_first = |step: GoalMove| !step.fulfilled_by(made_first);
    let keep_second = |step: GoalMove| !step.fulfilled_by(made_second);
    let both = seq![first, second];
    assert(both.drop_last() =~= seq![first]);
    assert(seq![first].drop_last() =~= Seq::<GoalMove>::empty());
    assert(seq![first].filter(keep_first) =~= Seq::<GoalMove>::empty());
    assert(both.filter(keep_first) =~= seq![second]);
    assert(seq![second].drop_last() =~= Seq::<GoalMove>::empty());
    assert(seq![second].filter(keep_second) =~= Seq::<GoalMove>::empty());
}

/// An eager sequence whose last move is made has nothing left, whatever stands
/// before that move.
pub proof fn law_eager_sequence(sequence: Seq<GoalMove>, made: MoveView)
    requires
        sequence.len() > 0,
        sequence.last().fulfilled_by(made),
    ensures
        remaining_eager(sequence, made) == Seq::<GoalMove>::empty(),
{
}

/// No move that a sequence still holds is fulfilled by the move that was just
/// made.
pub proof fn law_sequence_drops_fulfilled(sequence: Seq<GoalMove>, made: MoveView, i: int)
    requires
        0 <= i < remaining(sequence, made).len(),
    ensures
        !remaining(sequence, made)[i].fulfilled_by(made),
        sequence.contains(remaining(sequence, made)[i]),
{
    let keep = |step: GoalMove| !step.fulfilled_by(made);
    sequence.lemma_filter_pred(keep, i);
    sequence.lemma_filter_contains_rev(keep, remaining(sequence, made)[i]);
}

/// A node that other nodes list yields no move while the precondition of none of
/// those nodes holds: where only such nodes address a dialog move, no move is made
/// for it, although the nodes may themselves be taken.
pub proof fn law_unembeddable_part<C>(
    nodes: Map<ExpanderNode, MoveNode<C>>,
    dialog_move: DialogMove,
    depth: nat,
    before: Conversation<C>,
    after: Conversation<C>,
    made: HistoricalMove,
)
    requires
        forall|start: ExpanderNode| #[trigger]
            addresses_move(nodes, start, dialog_move) ==> {
                &&& !top_level(nodes, start)
                &&& forall|id: ExpanderNode| #[trigger]
                    is_parent(nodes, id, start) ==> !nodes[id].precondition.holds(&before)
            },
    ensures
        !made_for_move(nodes, dialog_move, depth, before, after, made),
        move_is_hopeless(nodes, &before, dialog_move, depth),
        forall|start: ExpanderNode|
            addresses_move(nodes, start, dialog_move) && takes(nodes, &before, start, depth)
                ==> stuck(nodes, &before, start, depth),
{
    assert forall|start: ExpanderNode|
        addresses_move(nodes, start, dialog_move) implies crate::realize::withers(
        nodes,
        &before,
        start,
        depth,
    ) by {
        assert forall|id: ExpanderNode| !embeds(nodes, &before, id, start, depth) by {
            if is_parent(nodes, id, start) {
                assert(!nodes[id].precondition.holds(&before));
            }
        }
    }
    assert forall|start: ExpanderNode|
        addresses_move(nodes, start, dialog_move) implies !made_from(
        nodes,
        start,
        depth,
        before,
        after,
        made,
    ) by {
        assert forall|whole: ExpansionTree| !grown_from(nodes, &before, whole, start, depth) by {
            assert forall|tree: ExpansionTree| !wraps(nodes, &before, whole, tree, depth)
                || tree.expander_node != start by {
                if tree.expander_node == start && wraps(nodes, &before, whole, tree, depth) {
                    assert(embeds(nodes, &before, whole.expander_node, start, depth));
                    assert(may_embed(nodes, &before, whole.expander_node, start));
                    assert(is_parent(nodes, whole.expander_node, start));
                }
            }
        }
    }
    assert forall|start: ExpanderNode|
        addresses_move(nodes, start, dialog_move) && takes(
            nodes,
            &before,
            start,
            depth,
        ) implies stuck(nodes, &before, start, depth) by {
        assert forall|id: ExpanderNode| !may_embed(nodes, &before, id, start) by {
            if is_parent(nodes, id, start) {
                assert(!nodes[id].precondition.holds(&before));
            }
        }
    }
}

/// A node that can be made within some depth can be made within any greater depth.
pub proof fn law_deeper_chains<C>(
    nodes: Map<ExpanderNode, MoveNode<C>>,
    conversation: &Conversation<C>,
    id: ExpanderNode,
    filled: Option<int>,
    depth: nat,
    deeper: nat,
)
    requires
        chains(nodes, conversation, id, filled, depth),
        depth <= deeper,
    ensures
        chains(nodes, conversation, id, filled, deeper),
    decreases depth,
{
    assert forall|p: int|
        0 <= p < nodes[id].parts@.len() && filled != Some(p) implies takes_one(
        nodes,
        conversation,
        (#[trigger] nodes[id].parts@[p])@,
        deeper,
    ) by {
        let listed = nodes[id].parts@[p]@;
        assert(takes_one(nodes, conversation, listed, depth));
        let a = choose|a: int|
            0 <= a < listed.len() && takes(
                nodes,
                conversation,
                #[trigger] listed[a],
                (depth - 1) as nat,
            );
        law_deeper_chains(
            nodes,
            conversation,
            listed[a],
            None,
            (depth - 1) as nat,
            (deeper - 1) as nat,
        );
        assert(takes(nodes, conversation, listed[a], (deeper - 1) as nat));
    }
}

/// Whether `rank` puts every registered node above the registered nodes that its
/// parts list. There is no such rank where a node is a part of itself, however far
/// down.
pub open spec fn ranked<C>(
    nodes: Map<ExpanderNode, MoveNode<C>>,
    rank: spec_fn(ExpanderNode) -> nat,
) -> bool {
    forall|id: ExpanderNode, p: int, a: int|
        nodes.contains_key(id) && 0 <= p < nodes[id].parts@.len() && 0 <= a
            < nodes[id].parts@[p]@.len() && nodes.contains_key(nodes[id].parts@[p]@[a]) ==> rank(
            #[trigger] nodes[id].parts@[p]@[a],
        ) < rank(id)
}

/// Where a rank puts every node above its parts, the bound on the depth costs
/// nothing beyond the rank: a node that can be made within any depth can be made
/// within a depth of its rank, and so within any limit that its rank does not
/// exceed.
pub proof fn law_depth_suffices<C>(
    nodes: Map<ExpanderNode, MoveNode<C>>,
    conversation: &Conversation<C>,
    id: ExpanderNode,
    filled: Option<int>,
    depth: nat,
    rank: spec_fn(ExpanderNode) -> nat,
    limit: nat,
)
    requires
        ranked(nodes, rank),
        chains(nodes, conversation, id, filled, depth),
        rank(id) <= limit,
    ensures
        chains(nodes, conversation, id, filled, limit),
    decreases rank(id),
{
    assert forall|p: int|
        0 <= p < nodes[id].parts@.len() && filled != Some(p) implies takes_one(
        nodes,
        conversation,
        (#[trigger] nodes[id].parts@[p])@,
        rank(id),
    ) by {
        let listed = nodes[id].parts@[p]@;
        assert(takes_one(nodes, conversation, listed, depth));
        let a = choose|a: int|
            0 <= a < listed.len() && takes(
                nodes,
                conversation,
                #[trigger] listed[a],
                (depth - 1) as nat,
            );
        let child = nodes[id].parts@[p]@[a];
        assert(rank(child) < rank(id));
        law_depth_suffices(
            nodes,
            conversation,
            child,
            None,
            (depth - 1) as nat,
            rank,
            (rank(id) - 1) as nat,
        );
        assert(takes(nodes, conversation, listed[a], (rank(id) - 1) as nat));
    }
    assert(chains(nodes, conversation, id, filled, rank(id)));
    law_deeper_chains(nodes, conversation, id, filled, rank(id), limit);
}

} // verus!
