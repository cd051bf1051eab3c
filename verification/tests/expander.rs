use cercopes_dialog::conversation::Conversation;
use cercopes_dialog::chain::ExpansionTree;
use cercopes_dialog::expander::{Expander, ExpanderErr};
use cercopes_dialog::idset::IdSet;
use cercopes_dialog::ledger::{HistoricalMove, Speaker};
use cercopes_dialog::node::{
    Condition, EditHistoricalMove, EditMove, FormatMove, MoveNode, Precondition,
};
use cercopes_dialog::random::Rng;
use cercopes_dialog::table::Table;
use rand::distributions::Bernoulli;
use rand::SeedableRng;

const GREET: u64 = 1;
const WAVE: u64 = 2;
const NODE_GREET: u64 = 10;
const NODE_HELLO: u64 = 11;
const NODE_HI: u64 = 12;
const NODE_NAME: u64 = 13;

struct Never;

impl Condition<()> for Never {
    fn check(&self, _conversation: &Conversation<()>) -> bool {
        false
    }
}

struct Done;

impl Condition<()> for Done {
    fn check(&self, conversation: &Conversation<()>) -> bool {
        conversation.state.done
    }
}

struct Say(&'static str);

impl FormatMove<()> for Say {
    fn format(&self, _conversation: &Conversation<()>, _rng: &mut Rng, _parts: Vec<String>) -> String {
        self.0.to_string()
    }
}

struct Join;

impl FormatMove<()> for Join {
    fn format(&self, _conversation: &Conversation<()>, _rng: &mut Rng, parts: Vec<String>) -> String {
        format!("[{}]", parts.join(" "))
    }
}

struct PushToOther(u64, i32, u32);

impl EditMove<()> for PushToOther {
    fn edit(
        &self,
        _conversation: &mut Conversation<()>,
        _rng: &mut Rng,
        historical_move: &mut HistoricalMove,
    ) {
        historical_move.get_others_obligations().push(self.0, self.1, self.2);
    }
}

struct Introduce(u64);

impl EditMove<()> for Introduce {
    fn edit(
        &self,
        conversation: &mut Conversation<()>,
        _rng: &mut Rng,
        historical_move: &mut HistoricalMove,
    ) {
        let seen = historical_move.topic_state.addressed.len() as u64;
        historical_move.topic_state.introduced.insert(self.0 + seen);
        conversation.state.done = true;
    }
}

fn node(
    moves: &[u64],
    topics: &[u64],
    precondition: Precondition<()>,
    formatter: Box<dyn FormatMove<()>>,
    parts: Vec<Vec<u64>>,
) -> MoveNode<()> {
    MoveNode {
        dialog_moves: IdSet::from_vec(&moves.to_vec()),
        addressed_topics: IdSet::from_vec(&topics.to_vec()),
        precondition,
        edit_historical_move: EditHistoricalMove::none(),
        formatter,
        parts,
    }
}

fn leaf(moves: &[u64], words: &'static str) -> MoveNode<()> {
    node(moves, &[], Precondition::always(), Box::new(Say(words)), vec![])
}

fn fresh() -> Conversation<()> {
    Conversation::new(Speaker::Person0, &Vec::new(), Bernoulli::new(0.0).unwrap(), (), ())
}

fn registry(named: Vec<(u64, MoveNode<()>)>) -> Expander<()> {
    let mut table = Table::new();
    for (id, node) in named {
        table.insert(id, node);
    }
    Expander::new(table)
}

fn nodes_of(tree: &ExpansionTree) -> Vec<u64> {
    let mut all = vec![tree.expander_node];
    for part in tree.parts.iter() {
        all.extend(nodes_of(part));
    }
    all
}

#[test]
fn leaf_move_holds_what_the_node_declares() {
    let expander = registry(vec![(
        NODE_HELLO,
        node(&[GREET, WAVE], &[7], Precondition::always(), Box::new(Say("hello")), vec![]),
    )]);
    let mut conversation = fresh();
    let mut rng = Rng::seed_from_u64(1);
    let made = expander.address_dialog_move(&mut conversation, &mut rng, GREET).unwrap();
    assert_eq!(made.utterance, "hello");
    assert_eq!(made.speaker, Speaker::Person0);
    let mut addressed = made.person0_obligations.addressed.to_vec();
    addressed.sort();
    assert_eq!(addressed, vec![GREET, WAVE]);
    assert!(made.person1_obligations.addressed.is_empty());
    assert_eq!(made.person0_obligations.pushed.len(), 0);
    assert_eq!(made.person1_obligations.pushed.len(), 0);
    assert_eq!(made.topic_state.addressed.to_vec(), vec![7]);
    assert!(made.topic_state.introduced.is_empty());
    assert_eq!(conversation.state.history.len(), 0);
    assert!(!conversation.state.done);
}

#[test]
fn the_speaker_of_the_conversation_makes_the_move() {
    let expander = registry(vec![(NODE_HELLO, leaf(&[GREET], "hello"))]);
    let mut conversation = fresh();
    conversation.state.speaker = Speaker::Person1;
    let mut rng = Rng::seed_from_u64(1);
    let made = expander.address_dialog_move(&mut conversation, &mut rng, GREET).unwrap();
    assert_eq!(made.speaker, Speaker::Person1);
    assert_eq!(made.person1_obligations.addressed.to_vec(), vec![GREET]);
    assert!(made.person0_obligations.addressed.is_empty());
}

#[test]
fn a_topic_is_addressed_by_a_node_that_lists_it() {
    let expander = registry(vec![
        (NODE_HELLO, node(&[], &[7, 8], Precondition::always(), Box::new(Say("rain")), vec![])),
        (NODE_HI, leaf(&[GREET], "hi")),
    ]);
    let mut conversation = fresh();
    let mut rng = Rng::seed_from_u64(1);
    let made = expander.address_topic(&mut conversation, &mut rng, 8).unwrap();
    assert_eq!(made.utterance, "rain");
    let mut addressed = made.topic_state.addressed.to_vec();
    addressed.sort();
    assert_eq!(addressed, vec![7, 8]);
    assert!(made.person0_obligations.addressed.is_empty());
}

#[test]
fn missing_move_is_an_error() {
    let expander = registry(vec![(NODE_HELLO, leaf(&[GREET], "hello"))]);
    let mut conversation = fresh();
    let mut rng = Rng::seed_from_u64(1);
    let made = expander.address_dialog_move(&mut conversation, &mut rng, 99);
    assert!(matches!(made, Err(ExpanderErr::NoExpanderForMove(99))));
    let made = expander.address_topic(&mut conversation, &mut rng, 5);
    assert!(matches!(made, Err(ExpanderErr::NoExpanderForTopic(5))));
    let empty = registry(vec![]);
    let made = empty.address_dialog_move(&mut conversation, &mut rng, GREET);
    assert!(matches!(made, Err(ExpanderErr::NoExpanderForMove(GREET))));
    assert_eq!(
        expander.expand_dialog_move(&conversation, &mut rng, 99).err(),
        Some(ExpanderErr::NoExpanderForMove(99))
    );
    assert_eq!(
        expander.expand_topic(&conversation, &mut rng, 5).err(),
        Some(ExpanderErr::NoExpanderForTopic(5))
    );
}

#[test]
fn unsatisfied_nodes_yield_no_move() {
    let expander = registry(vec![
        (NODE_HELLO, node(&[GREET], &[], Precondition::new(Never), Box::new(Say("hello")), vec![])),
        (NODE_HI, node(&[GREET], &[3], Precondition::new(Done), Box::new(Say("hi")), vec![])),
    ]);
    let mut conversation = fresh();
    let mut rng = Rng::seed_from_u64(1);
    let made = expander.address_dialog_move(&mut conversation, &mut rng, GREET);
    assert!(matches!(made, Err(ExpanderErr::NoNodesSatisfyPreconditions)));
    let made = expander.address_topic(&mut conversation, &mut rng, 3);
    assert!(matches!(made, Err(ExpanderErr::NoNodesSatisfyPreconditions)));
    conversation.state.done = true;
    let made = expander.address_dialog_move(&mut conversation, &mut rng, GREET).unwrap();
    assert_eq!(made.utterance, "hi");
}

#[test]
fn only_the_satisfied_alternative_is_taken() {
    let expander = registry(vec![
        (
            NODE_GREET,
            node(&[GREET], &[], Precondition::always(), Box::new(Join), vec![vec![NODE_HELLO, NODE_HI]]),
        ),
        (NODE_HELLO, node(&[], &[], Precondition::new(Never), Box::new(Say("hello")), vec![])),
        (NODE_HI, leaf(&[], "hi")),
    ]);
    for seed in 0..50u64 {
        let mut conversation = fresh();
        let mut rng = Rng::seed_from_u64(seed);
        let made = expander.address_dialog_move(&mut conversation, &mut rng, GREET).unwrap();
        assert_eq!(made.utterance, "[hi]");
    }
}

#[test]
fn either_alternative_may_be_taken() {
    let expander = registry(vec![
        (
            NODE_GREET,
            node(&[GREET], &[], Precondition::always(), Box::new(Join), vec![vec![NODE_HELLO, NODE_HI]]),
        ),
        (NODE_HELLO, leaf(&[], "hello")),
        (NODE_HI, leaf(&[], "hi")),
    ]);
    let mut said = Vec::new();
    for seed in 0..50u64 {
        let mut conversation = fresh();
        let mut rng = Rng::seed_from_u64(seed);
        let made = expander.address_dialog_move(&mut conversation, &mut rng, GREET).unwrap();
        assert!(made.utterance == "[hello]" || made.utterance == "[hi]");
        said.push(made.utterance);
    }
    assert!(said.iter().any(|words| words == "[hello]"));
    assert!(said.iter().any(|words| words == "[hi]"));
}

#[test]
fn parts_are_made_in_their_order() {
    let expander = registry(vec![
        (
            NODE_GREET,
            node(
                &[GREET],
                &[1],
                Precondition::always(),
                Box::new(Join),
                vec![vec![NODE_HELLO], vec![NODE_NAME], vec![NODE_HI]],
            ),
        ),
        (NODE_HELLO, node(&[WAVE], &[2], Precondition::always(), Box::new(Say("hello")), vec![])),
        (NODE_NAME, node(&[], &[], Precondition::always(), Box::new(Join), vec![vec![NODE_HI]])),
        (NODE_HI, node(&[], &[3], Precondition::always(), Box::new(Say("hi")), vec![])),
    ]);
    let mut conversation = fresh();
    let mut rng = Rng::seed_from_u64(5);
    let tree = expander.expand_dialog_move(&conversation, &mut rng, GREET).unwrap();
    assert_eq!(nodes_of(&tree), vec![NODE_GREET, NODE_HELLO, NODE_NAME, NODE_HI, NODE_HI]);
    assert_eq!(expander.create_utterance(&conversation, &mut rng, &tree), "[hello [hi] hi]");
    let made = expander.create_historical(&mut conversation, &mut rng, tree);
    assert_eq!(made.utterance, "[hello [hi] hi]");
    let mut moves = made.person0_obligations.addressed.to_vec();
    moves.sort();
    assert_eq!(moves, vec![GREET, WAVE]);
    let mut topics = made.topic_state.addressed.to_vec();
    topics.sort();
    assert_eq!(topics, vec![1, 2, 3]);
}

#[test]
fn a_part_that_cannot_be_made_fails_the_node() {
    let expander = registry(vec![
        (
            NODE_GREET,
            node(
                &[GREET],
                &[],
                Precondition::always(),
                Box::new(Join),
                vec![vec![NODE_HI], vec![NODE_HELLO]],
            ),
        ),
        (NODE_HELLO, node(&[], &[], Precondition::new(Never), Box::new(Say("hello")), vec![])),
        (NODE_HI, leaf(&[], "hi")),
        (NODE_NAME, leaf(&[GREET], "you")),
    ]);
    for seed in 0..20u64 {
        let mut conversation = fresh();
        let mut rng = Rng::seed_from_u64(seed);
        let made = expander.address_dialog_move(&mut conversation, &mut rng, GREET).unwrap();
        assert_eq!(made.utterance, "you");
        assert!(expander.forward_chain(&conversation, &mut rng, NODE_GREET, None, 4).is_none());
    }
}

#[test]
fn an_alternative_that_cannot_be_made_is_passed_over() {
    let expander = registry(vec![
        (
            NODE_GREET,
            node(&[GREET], &[], Precondition::always(), Box::new(Join), vec![vec![NODE_NAME, NODE_HI]]),
        ),
        (
            NODE_NAME,
            node(&[], &[], Precondition::always(), Box::new(Join), vec![vec![NODE_HELLO]]),
        ),
        (NODE_HELLO, node(&[], &[], Precondition::new(Never), Box::new(Say("hello")), vec![])),
        (NODE_HI, leaf(&[], "hi")),
    ]);
    for seed in 0..20u64 {
        let mut conversation = fresh();
        let mut rng = Rng::seed_from_u64(seed);
        let made = expander.address_dialog_move(&mut conversation, &mut rng, GREET).unwrap();
        assert_eq!(made.utterance, "[hi]");
    }
}

#[test]
fn unregistered_alternatives_are_passed_over() {
    let expander = registry(vec![
        (
            NODE_GREET,
            node(&[GREET], &[], Precondition::always(), Box::new(Join), vec![vec![77, NODE_HI]]),
        ),
        (NODE_HI, leaf(&[], "hi")),
        (NODE_NAME, node(&[WAVE], &[], Precondition::always(), Box::new(Join), vec![vec![78]])),
    ]);
    let mut conversation = fresh();
    for seed in 0..20u64 {
        let mut rng = Rng::seed_from_u64(seed);
        let made = expander.address_dialog_move(&mut conversation, &mut rng, GREET).unwrap();
        assert_eq!(made.utterance, "[hi]");
    }
    let mut rng = Rng::seed_from_u64(0);
    let made = expander.address_dialog_move(&mut conversation, &mut rng, WAVE);
    assert!(matches!(made, Err(ExpanderErr::NoNodesSatisfyPreconditions)));
}

#[test]
fn a_node_that_is_part_of_itself_is_not_made() {
    let expander = registry(vec![
        (NODE_GREET, node(&[GREET], &[], Precondition::always(), Box::new(Join), vec![vec![NODE_GREET]])),
        (
            NODE_NAME,
            node(&[WAVE], &[], Precondition::always(), Box::new(Join), vec![vec![NODE_NAME, NODE_HI]]),
        ),
        (NODE_HI, leaf(&[], "hi")),
    ]);
    let conversation = fresh();
    let mut rng = Rng::seed_from_u64(2);
    assert_eq!(
        expander.expand_dialog_move(&conversation, &mut rng, GREET).err(),
        Some(ExpanderErr::NoNodesSatisfyPreconditions)
    );
    for seed in 0..20u64 {
        let mut rng = Rng::seed_from_u64(seed);
        let tree = expander.expand_dialog_move(&conversation, &mut rng, WAVE).unwrap();
        let nodes = nodes_of(&tree);
        assert!(nodes.len() <= 4);
        assert_eq!(nodes[nodes.len() - 1], NODE_HI);
    }
}

#[test]
fn depth_bounds_the_tree() {
    let expander = registry(vec![
        (NODE_GREET, node(&[GREET], &[], Precondition::always(), Box::new(Join), vec![vec![NODE_NAME]])),
        (NODE_NAME, node(&[], &[], Precondition::always(), Box::new(Join), vec![vec![NODE_HI]])),
        (NODE_HI, leaf(&[], "hi")),
    ]);
    let conversation = fresh();
    let mut rng = Rng::seed_from_u64(2);
    assert!(expander.forward_chain(&conversation, &mut rng, NODE_GREET, None, 0).is_none());
    assert!(expander.forward_chain(&conversation, &mut rng, NODE_GREET, None, 1).is_none());
    assert!(expander.forward_chain(&conversation, &mut rng, NODE_GREET, None, 2).is_some());
    assert!(expander.forward_chain(&conversation, &mut rng, NODE_HI, None, 0).is_some());
    assert!(expander.forward_chain(&conversation, &mut rng, 99, None, 5).is_none());
    assert_eq!(expander.len(), 3);
}

#[test]
fn a_part_whose_parent_is_unsatisfied_cannot_be_addressed() {
    let expander = registry(vec![
        (
            NODE_GREET,
            node(&[GREET], &[], Precondition::new(Never), Box::new(Join), vec![vec![NODE_HELLO]]),
        ),
        (NODE_HELLO, leaf(&[WAVE], "hello")),
    ]);
    let mut conversation = fresh();
    let mut rng = Rng::seed_from_u64(1);
    assert!(!expander.is_top_level(NODE_HELLO));
    assert!(expander.is_top_level(NODE_GREET));
    assert!(expander.expand_dialog_move(&conversation, &mut rng, WAVE).is_ok());
    let made = expander.address_dialog_move(&mut conversation, &mut rng, WAVE);
    assert!(matches!(made, Err(ExpanderErr::NoNodesSatisfyPreconditions)));
}

#[test]
fn a_part_is_set_into_its_parent() {
    let expander = registry(vec![
        (
            NODE_GREET,
            node(
                &[GREET],
                &[1],
                Precondition::always(),
                Box::new(Join),
                vec![vec![NODE_HI], vec![NODE_NAME, NODE_HELLO], vec![NODE_HELLO]],
            ),
        ),
        (NODE_HELLO, node(&[WAVE], &[2], Precondition::always(), Box::new(Say("hello")), vec![])),
        (NODE_NAME, node(&[], &[], Precondition::new(Never), Box::new(Say("you")), vec![])),
        (NODE_HI, leaf(&[], "hi")),
    ]);
    for seed in 0..20u64 {
        let mut conversation = fresh();
        let mut rng = Rng::seed_from_u64(seed);
        let made = expander.address_dialog_move(&mut conversation, &mut rng, WAVE).unwrap();
        assert_eq!(made.utterance, "[hi hello hello]");
        let mut moves = made.person0_obligations.addressed.to_vec();
        moves.sort();
        assert_eq!(moves, vec![GREET, WAVE]);
        let mut topics = made.topic_state.addressed.to_vec();
        topics.sort();
        assert_eq!(topics, vec![1, 2]);
    }
}

#[test]
fn a_parent_that_cannot_be_made_yields_no_move() {
    let expander = registry(vec![
        (
            NODE_GREET,
            node(
                &[GREET],
                &[],
                Precondition::always(),
                Box::new(Join),
                vec![vec![NODE_HELLO], vec![NODE_NAME]],
            ),
        ),
        (NODE_HELLO, leaf(&[WAVE], "hello")),
        (NODE_NAME, node(&[], &[], Precondition::new(Never), Box::new(Say("you")), vec![])),
        (NODE_HI, leaf(&[], "hi")),
    ]);
    let mut conversation = fresh();
    let mut rng = Rng::seed_from_u64(1);
    let made = expander.address_dialog_move(&mut conversation, &mut rng, WAVE);
    assert!(matches!(made, Err(ExpanderErr::NoNodesSatisfyPreconditions)));
    let child = ExpansionTree { expander_node: NODE_HELLO, parts: vec![] };
    assert!(expander.backward_chain(&conversation, &mut rng, child).is_err());
    let top = ExpansionTree { expander_node: NODE_HI, parts: vec![] };
    let same = expander.backward_chain(&conversation, &mut rng, top).unwrap();
    assert_eq!(same.expander_node, NODE_HI);
    assert!(same.parts.is_empty());
}

#[test]
fn the_given_tree_fills_its_part() {
    let expander = registry(vec![
        (
            NODE_GREET,
            node(
                &[GREET],
                &[],
                Precondition::always(),
                Box::new(Join),
                vec![vec![NODE_HI], vec![NODE_HELLO, NODE_HI]],
            ),
        ),
        (NODE_HELLO, leaf(&[], "hello")),
        (NODE_HI, leaf(&[], "hi")),
    ]);
    let conversation = fresh();
    for seed in 0..20u64 {
        let mut rng = Rng::seed_from_u64(seed);
        let child = ExpansionTree { expander_node: NODE_HELLO, parts: vec![] };
        let tree = expander
            .forward_chain(&conversation, &mut rng, NODE_GREET, Some((1, child)), 3)
            .unwrap();
        assert_eq!(nodes_of(&tree), vec![NODE_GREET, NODE_HI, NODE_HELLO]);
    }
}

#[test]
fn edit_pushes_an_obligation() {
    let mut hello = leaf(&[GREET], "hello");
    hello.edit_historical_move = EditHistoricalMove::new(PushToOther(3, 5, 2));
    let expander = registry(vec![(NODE_HELLO, hello)]);
    let mut conversation = fresh();
    let mut rng = Rng::seed_from_u64(1);
    let made = expander.address_dialog_move(&mut conversation, &mut rng, GREET).unwrap();
    let pushed = made.person1_obligations.pushed.get(3).unwrap();
    assert_eq!(pushed.urgency, 5);
    assert_eq!(pushed.time_to_live, 2);
    assert_eq!(pushed.times_pushed, 1);
    assert_eq!(made.person0_obligations.pushed.len(), 0);
}

#[test]
fn edits_come_after_the_parts_and_the_declared_sets() {
    let mut greet = node(
        &[GREET],
        &[1],
        Precondition::always(),
        Box::new(Join),
        vec![vec![NODE_HELLO], vec![NODE_HI]],
    );
    greet.edit_historical_move = EditHistoricalMove::new(Introduce(100));
    let mut hello = node(&[], &[2], Precondition::always(), Box::new(Say("hello")), vec![]);
    hello.edit_historical_move = EditHistoricalMove::new(Introduce(200));
    let hi = node(&[], &[3], Precondition::new(Never), Box::new(Say("hi")), vec![]);
    let mut expander = registry(vec![(NODE_GREET, greet), (NODE_HELLO, hello), (NODE_HI, hi)]);
    let mut conversation = fresh();
    let mut rng = Rng::seed_from_u64(1);
    let made = expander.address_dialog_move(&mut conversation, &mut rng, GREET);
    assert!(made.is_err());
    assert!(!conversation.state.done);
    let open = node(&[], &[3], Precondition::always(), Box::new(Say("hi")), vec![]);
    assert!(expander.insert(NODE_HI, open).is_some());
    let made = expander.address_dialog_move(&mut conversation, &mut rng, GREET).unwrap();
    let mut introduced = made.topic_state.introduced.to_vec();
    introduced.sort();
    assert_eq!(introduced, vec![103, 201]);
    assert!(conversation.state.done);
}

#[test]
fn the_registry_follows_its_nodes() {
    let mut expander = registry(vec![(NODE_HELLO, leaf(&[GREET], "hello"))]);
    let mut conversation = fresh();
    let mut rng = Rng::seed_from_u64(1);
    assert_eq!(expander.len(), 1);
    assert!(expander.get_node(NODE_HELLO).is_some());
    assert!(expander.get_node(NODE_HI).is_none());
    assert!(expander.insert(NODE_HI, leaf(&[WAVE], "hi")).is_none());
    assert_eq!(expander.len(), 2);
    let made = expander.address_dialog_move(&mut conversation, &mut rng, WAVE).unwrap();
    assert_eq!(made.utterance, "hi");
    let parent = node(&[], &[], Precondition::new(Never), Box::new(Join), vec![vec![NODE_HI]]);
    assert!(expander.insert(NODE_GREET, parent).is_none());
    assert!(!expander.is_top_level(NODE_HI));
    assert!(expander.address_dialog_move(&mut conversation, &mut rng, WAVE).is_err());
    assert!(expander.remove(NODE_GREET).is_some());
    assert!(expander.remove(NODE_GREET).is_none());
    assert!(expander.is_top_level(NODE_HI));
    assert!(expander.address_dialog_move(&mut conversation, &mut rng, WAVE).is_ok());
    let old = expander.insert(NODE_HI, leaf(&[GREET], "hey")).unwrap();
    assert!(old.dialog_moves.contains(WAVE));
    let made = expander.address_dialog_move(&mut conversation, &mut rng, WAVE);
    assert!(matches!(made, Err(ExpanderErr::NoExpanderForMove(WAVE))));
    expander.build();
    assert_eq!(expander.len(), 2);
    assert!(expander.address_dialog_move(&mut conversation, &mut rng, GREET).is_ok());
}

#[test]
fn later_nodes_take_the_place_of_earlier_ones() {
    let mut expander = Expander::from_named(vec![
        (NODE_HELLO, leaf(&[GREET], "hello")),
        (NODE_HI, leaf(&[GREET], "hi")),
        (NODE_HELLO, leaf(&[WAVE], "hey")),
    ]);
    assert_eq!(expander.len(), 2);
    let mut conversation = fresh();
    let mut rng = Rng::seed_from_u64(1);
    let made = expander.address_dialog_move(&mut conversation, &mut rng, GREET).unwrap();
    assert_eq!(made.utterance, "hi");
    let made = expander.address_dialog_move(&mut conversation, &mut rng, WAVE).unwrap();
    assert_eq!(made.utterance, "hey");
    expander.extend(vec![
        (NODE_HI, leaf(&[WAVE], "ho")),
        (NODE_NAME, leaf(&[GREET], "you")),
        (NODE_HI, node(&[], &[4], Precondition::always(), Box::new(Say("rain")), vec![])),
    ]);
    assert_eq!(expander.len(), 3);
    let made = expander.address_dialog_move(&mut conversation, &mut rng, GREET).unwrap();
    assert_eq!(made.utterance, "you");
    let made = expander.address_dialog_move(&mut conversation, &mut rng, WAVE).unwrap();
    assert_eq!(made.utterance, "hey");
    let made = expander.address_topic(&mut conversation, &mut rng, 4).unwrap();
    assert_eq!(made.utterance, "rain");
    expander.extend(vec![]);
    assert_eq!(expander.len(), 3);
}

#[test]
fn the_indices_name_the_nodes() {
    let expander = registry(vec![
        (
            NODE_GREET,
            node(
                &[GREET],
                &[1],
                Precondition::always(),
                Box::new(Join),
                vec![vec![NODE_HELLO, NODE_HI], vec![NODE_HI]],
            ),
        ),
        (NODE_NAME, node(&[GREET, WAVE], &[], Precondition::new(Never), Box::new(Join), vec![vec![NODE_HI]])),
        (NODE_HELLO, leaf(&[WAVE], "hello")),
        (NODE_HI, node(&[], &[1, 2], Precondition::always(), Box::new(Say("hi")), vec![])),
    ]);
    let sorted = |mut ids: Vec<u64>| {
        ids.sort();
        ids
    };
    assert_eq!(sorted(expander.nodes_for_move(GREET)), vec![NODE_GREET, NODE_NAME]);
    assert_eq!(sorted(expander.nodes_for_move(WAVE)), vec![NODE_HELLO, NODE_NAME]);
    assert_eq!(expander.nodes_for_move(77), Vec::<u64>::new());
    assert_eq!(sorted(expander.nodes_for_topic(1)), vec![NODE_GREET, NODE_HI]);
    assert_eq!(expander.nodes_for_topic(2), vec![NODE_HI]);
    assert_eq!(expander.nodes_for_topic(3), Vec::<u64>::new());
    assert_eq!(sorted(expander.parents_of(NODE_HI)), vec![NODE_GREET, NODE_NAME]);
    assert_eq!(expander.parents_of(NODE_HELLO), vec![NODE_GREET]);
    assert_eq!(expander.parents_of(NODE_GREET), Vec::<u64>::new());
}

#[test]
fn trees_that_do_not_fit_are_borne() {
    let expander = registry(vec![
        (NODE_GREET, node(&[GREET], &[1], Precondition::always(), Box::new(Join), vec![vec![NODE_HI]])),
        (NODE_HI, leaf(&[], "hi")),
    ]);
    let mut conversation = fresh();
    let mut rng = Rng::seed_from_u64(1);
    let stray = ExpansionTree { expander_node: 99, parts: vec![] };
    assert_eq!(expander.create_utterance(&conversation, &mut rng, &stray), "");
    let made = expander.create_historical(&mut conversation, &mut rng, stray);
    assert_eq!(made.utterance, "");
    assert!(made.topic_state.addressed.is_empty());
    assert!(made.person0_obligations.addressed.is_empty());
    let half = ExpansionTree {
        expander_node: NODE_GREET,
        parts: vec![ExpansionTree { expander_node: 99, parts: vec![] }],
    };
    assert_eq!(expander.create_utterance(&conversation, &mut rng, &half), "[]");
    let beside = ExpansionTree { expander_node: NODE_HI, parts: vec![] };
    let tree = expander
        .forward_chain(&conversation, &mut rng, NODE_GREET, Some((5, beside)), 3)
        .unwrap();
    assert_eq!(nodes_of(&tree), vec![NODE_GREET, NODE_HI]);
    let unknown = ExpansionTree { expander_node: 99, parts: vec![] };
    let same = expander.backward_chain(&conversation, &mut rng, unknown).unwrap();
    assert_eq!(same.expander_node, 99);
}

#[test]
fn built_indices_are_those_of_the_nodes() {
    let mut expander = registry(vec![
        (NODE_GREET, node(&[GREET], &[1], Precondition::always(), Box::new(Join), vec![vec![NODE_HI]])),
        (NODE_HI, leaf(&[WAVE], "hi")),
    ]);
    expander.build();
    assert_eq!(expander.len(), 2);
    assert_eq!(expander.nodes_for_move(GREET), vec![NODE_GREET]);
    assert_eq!(expander.nodes_for_move(WAVE), vec![NODE_HI]);
    assert_eq!(expander.nodes_for_topic(1), vec![NODE_GREET]);
    assert_eq!(expander.parents_of(NODE_HI), vec![NODE_GREET]);
    assert!(expander.is_top_level(NODE_GREET));
    expander.insert(NODE_HELLO, leaf(&[GREET], "hello"));
    expander.build();
    let mut greeters = expander.nodes_for_move(GREET);
    greeters.sort();
    assert_eq!(greeters, vec![NODE_GREET, NODE_HELLO]);
    assert_eq!(expander.parents_of(NODE_HELLO), Vec::<u64>::new());
}
