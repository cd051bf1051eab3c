use cercopes_dialog::conversation::Conversation;
use cercopes_dialog::expander::ExpanderErr;
use cercopes_dialog::goal::{
    Frame, FrameState, Goal, GoalMove, GoalPursuer, PerformGoalMove,
};
use cercopes_dialog::idset::IdSet;
use cercopes_dialog::ledger::{HistoricalMove, PushedObligationMetadata, Speaker};
use cercopes_dialog::manager::DialogManager;
use cercopes_dialog::node::{
    Condition, EditHistoricalMove, EditMove, FormatMove, MoveNode, Precondition,
};
use cercopes_dialog::random::Rng;
use rand::distributions::Bernoulli;
use rand::Rng as _;
use rand::SeedableRng;

const GREET: u64 = 1;
const SMALL_TALK: u64 = 2;
const ANSWER: u64 = 3;
const WEATHER: u64 = 50;
const NODE_GREET: u64 = 10;
const NODE_HELLO: u64 = 11;
const NODE_HI: u64 = 12;
const NODE_TALK: u64 = 13;
const NODE_ANSWER: u64 = 14;
const NODE_WEATHER: u64 = 15;

struct Never;

impl Condition<()> for Never {
    fn check(&self, _conversation: &Conversation<()>) -> bool {
        false
    }
}

struct OnlyFor(Speaker);

impl Condition<()> for OnlyFor {
    fn check(&self, conversation: &Conversation<()>) -> bool {
        conversation.state.speaker == self.0
    }
}

struct Say(&'static str);

impl FormatMove<()> for Say {
    fn format(&self, _conversation: &Conversation<()>, _rng: &mut Rng, _parts: Vec<String>) -> String {
        self.0.to_string()
    }
}

struct Join;

impl FormatMove<()> for Join {
    fn format(&self, _conversation: &Conversation<()>, _rng: &mut Rng, parts: Vec<String>) -> String {
        format!("{}!", parts.join(" "))
    }
}

struct PushToOther(u64, i32, u32);

impl EditMove<()> for PushToOther {
    fn edit(
        &self,
        _conversation: &mut Conversation<()>,
        _rng: &mut Rng,
        historical_move: &mut HistoricalMove,
    ) {
        historical_move.get_others_obligations().push(self.0, self.1, self.2);
    }
}

struct IntroduceTopic(u64);

impl EditMove<()> for IntroduceTopic {
    fn edit(
        &self,
        _conversation: &mut Conversation<()>,
        _rng: &mut Rng,
        historical_move: &mut HistoricalMove,
    ) {
        historical_move.topic_state.introduced.insert(self.0);
    }
}

struct MustGreet(Speaker);

impl FrameState<()> for MustGreet {
    fn apply(&self, conversation: &mut Conversation<()>) {
        let greet = GoalMove { pursuer: GoalPursuer::Speaker(self.0), dialog_move: GREET };
        conversation.goals.push(Goal::new(PerformGoalMove::new(greet)));
    }
}

fn node(
    moves: &[u64],
    topics: &[u64],
    precondition: Precondition<()>,
    formatter: Box<dyn FormatMove<()>>,
    parts: Vec<Vec<u64>>,
) -> MoveNode<()> {
    MoveNode {
        dialog_moves: IdSet::from_vec(&moves.to_vec()),
        addressed_topics: IdSet::from_vec(&topics.to_vec()),
        precondition,
        edit_historical_move: EditHistoricalMove::none(),
        formatter,
        parts,
    }
}

fn leaf(moves: &[u64], words: &'static str) -> MoveNode<()> {
    node(moves, &[], Precondition::always(), Box::new(Say(words)), vec![])
}

fn greeting() -> Vec<(u64, MoveNode<()>)> {
    vec![
        (
            NODE_GREET,
            node(&[GREET], &[], Precondition::always(), Box::new(Join), vec![vec![NODE_HELLO, NODE_HI]]),
        ),
        (NODE_HELLO, leaf(&[], "hello")),
        (NODE_HI, leaf(&[], "hi")),
    ]
}

fn chance(p: f64) -> Bernoulli {
    Bernoulli::new(p).unwrap()
}

#[test]
fn one_step_makes_the_greeting() {
    for seed in 0..20u64 {
        let manager = DialogManager::new(greeting(), vec![Frame::new(MustGreet(Speaker::Person0))]);
        let mut conversation = manager.new_conversation(Speaker::Person0, chance(0.0), (), ());
        let mut rng = Rng::seed_from_u64(seed);
        assert_eq!(manager.step_conversation(&mut conversation, SMALL_TALK, &mut rng), Ok(()));
        assert_eq!(conversation.state.history.len(), 1);
        let made = &conversation.state.history[0];
        assert!(made.was_move_satisfied(GREET));
        assert_eq!(made.all_addressed_obligations(), vec![GREET]);
        assert_eq!(made.speaker, Speaker::Person0);
        assert!(made.utterance == "hello!" || made.utterance == "hi!");
        assert!(conversation.goals[0].state.is_satisfied());
        assert_eq!(conversation.state.speaker, Speaker::Person1);
        assert!(!conversation.state.done);
    }
}

#[test]
fn a_lull_ends_the_conversation() {
    let manager = DialogManager::new(greeting(), vec![Frame::new(MustGreet(Speaker::Person0))]);
    let mut conversation = manager.new_conversation(Speaker::Person0, chance(0.0), (), ());
    let mut rng = Rng::seed_from_u64(3);
    assert_eq!(manager.step_conversation(&mut conversation, SMALL_TALK, &mut rng), Ok(()));
    assert_eq!(manager.step_conversation(&mut conversation, SMALL_TALK, &mut rng), Ok(()));
    assert!(conversation.state.done);
    assert_eq!(conversation.state.history.len(), 1);
    assert_eq!(conversation.state.speaker, Speaker::Person0);
}

#[test]
fn a_conversation_that_is_over_stays_as_it_is() {
    let manager = DialogManager::new(greeting(), vec![Frame::new(MustGreet(Speaker::Person0))]);
    let mut conversation = manager.new_conversation(Speaker::Person0, chance(1.0), (), ());
    conversation.state.done = true;
    conversation.state.person0.pushed_obligations.insert(
        GREET,
        PushedObligationMetadata { urgency: 1, time_to_live: 0, times_pushed: 1 },
    );
    let mut rng = Rng::seed_from_u64(3);
    assert_eq!(manager.step_conversation(&mut conversation, SMALL_TALK, &mut rng), Ok(()));
    assert!(conversation.state.done);
    assert_eq!(conversation.state.history.len(), 0);
    assert_eq!(conversation.state.speaker, Speaker::Person0);
    assert!(conversation.state.person0.pushed_obligations.contains_key(GREET));
}

#[test]
fn small_talk_fills_a_lull() {
    let mut nodes = greeting();
    nodes.push((NODE_TALK, leaf(&[SMALL_TALK], "so")));
    let manager = DialogManager::new(nodes, vec![]);
    let mut conversation = manager.new_conversation(Speaker::Person1, chance(1.0), (), ());
    let mut rng = Rng::seed_from_u64(3);
    for step in 0..4usize {
        assert_eq!(manager.step_conversation(&mut conversation, SMALL_TALK, &mut rng), Ok(()));
        assert_eq!(conversation.state.history.len(), step + 1);
        let made = &conversation.state.history[step];
        assert_eq!(made.utterance, "so");
        assert_eq!(made.speaker, Speaker::Person0);
        assert_eq!(conversation.state.speaker, Speaker::Person1);
        assert!(!conversation.state.done);
    }
}

#[test]
fn a_lull_without_small_talk_is_an_error() {
    let manager = DialogManager::new(greeting(), vec![]);
    let mut conversation = manager.new_conversation(Speaker::Person0, chance(1.0), (), ());
    let mut rng = Rng::seed_from_u64(3);
    assert_eq!(
        manager.step_conversation(&mut conversation, SMALL_TALK, &mut rng),
        Err(ExpanderErr::NoExpanderForMove(SMALL_TALK))
    );
    assert!(!conversation.state.done);
    assert_eq!(conversation.state.speaker, Speaker::Person1);
}

#[test]
fn a_lull_that_nobody_can_fill_ends_the_conversation() {
    let mut nodes = greeting();
    nodes.push((
        NODE_TALK,
        node(&[SMALL_TALK], &[], Precondition::new(Never), Box::new(Say("so")), vec![]),
    ));
    let manager = DialogManager::new(nodes, vec![]);
    let mut conversation = manager.new_conversation(Speaker::Person0, chance(1.0), (), ());
    let mut rng = Rng::seed_from_u64(3);
    assert_eq!(manager.step_conversation(&mut conversation, SMALL_TALK, &mut rng), Ok(()));
    assert!(conversation.state.done);
    assert_eq!(conversation.state.speaker, Speaker::Person0);
    assert_eq!(conversation.state.history.len(), 0);
}

#[test]
fn the_other_participant_speaks_when_the_first_cannot() {
    let manager = DialogManager::new(greeting(), vec![Frame::new(MustGreet(Speaker::Person1))]);
    let mut conversation = manager.new_conversation(Speaker::Person0, chance(0.0), (), ());
    let mut rng = Rng::seed_from_u64(3);
    assert_eq!(manager.step_conversation(&mut conversation, SMALL_TALK, &mut rng), Ok(()));
    assert_eq!(conversation.state.history.len(), 1);
    assert_eq!(conversation.state.history[0].speaker, Speaker::Person1);
    assert_eq!(conversation.state.speaker, Speaker::Person0);
    assert!(!conversation.state.done);
}

#[test]
fn the_second_speaker_fills_the_lull_when_the_first_cannot() {
    let mut nodes = greeting();
    nodes.push((
        NODE_TALK,
        node(
            &[SMALL_TALK],
            &[],
            Precondition::new(OnlyFor(Speaker::Person0)),
            Box::new(Say("so")),
            vec![],
        ),
    ));
    let manager = DialogManager::new(nodes, vec![]);
    let mut conversation = manager.new_conversation(Speaker::Person0, chance(1.0), (), ());
    let mut rng = Rng::seed_from_u64(3);
    assert_eq!(manager.step_conversation(&mut conversation, SMALL_TALK, &mut rng), Ok(()));
    assert_eq!(conversation.state.history.len(), 1);
    assert_eq!(conversation.state.history[0].speaker, Speaker::Person0);
    assert_eq!(conversation.state.speaker, Speaker::Person1);
}

#[test]
fn a_goal_without_a_node_is_an_error() {
    let manager = DialogManager::new(
        vec![(NODE_TALK, leaf(&[SMALL_TALK], "so"))],
        vec![Frame::new(MustGreet(Speaker::Person0))],
    );
    let mut conversation = manager.new_conversation(Speaker::Person0, chance(1.0), (), ());
    let mut rng = Rng::seed_from_u64(3);
    assert_eq!(
        manager.step_conversation(&mut conversation, SMALL_TALK, &mut rng),
        Err(ExpanderErr::NoExpanderForMove(GREET))
    );
    assert_eq!(conversation.state.history.len(), 0);
    assert_eq!(
        manager.attempt_to_speak(&mut rng, &mut conversation),
        Err(ExpanderErr::NoExpanderForMove(GREET))
    );
    assert_eq!(
        manager.attempt_to_address_topic(&mut rng, &mut conversation, WEATHER),
        Err(ExpanderErr::NoExpanderForTopic(WEATHER))
    );
    assert_eq!(manager.attempt_to_make_move(&mut rng, &mut conversation, SMALL_TALK), Ok(true));
    assert_eq!(conversation.state.history.len(), 1);
}

#[test]
fn obligations_are_owed_answered_and_forgotten() {
    let mut greet = leaf(&[GREET], "hello");
    greet.edit_historical_move = EditHistoricalMove::new(PushToOther(ANSWER, 3, 1));
    let manager = DialogManager::new(
        vec![(NODE_GREET, greet), (NODE_ANSWER, leaf(&[ANSWER], "hello yourself"))],
        vec![Frame::new(MustGreet(Speaker::Person0))],
    );
    let mut conversation = manager.new_conversation(Speaker::Person0, chance(0.0), (), ());
    let mut rng = Rng::seed_from_u64(3);
    assert_eq!(manager.step_conversation(&mut conversation, SMALL_TALK, &mut rng), Ok(()));
    assert_eq!(
        *conversation.state.person1.pushed_obligations.get(ANSWER).unwrap(),
        PushedObligationMetadata { urgency: 3, time_to_live: 1, times_pushed: 1 }
    );
    assert_eq!(manager.step_conversation(&mut conversation, SMALL_TALK, &mut rng), Ok(()));
    assert_eq!(conversation.state.history.len(), 2);
    assert_eq!(conversation.state.history[1].utterance, "hello yourself");
    assert_eq!(conversation.state.history[1].speaker, Speaker::Person1);
    assert!(!conversation.state.person1.pushed_obligations.contains_key(ANSWER));
    assert_eq!(conversation.state.speaker, Speaker::Person0);
    assert_eq!(manager.step_conversation(&mut conversation, SMALL_TALK, &mut rng), Ok(()));
    assert!(conversation.state.done);
}

#[test]
fn an_obligation_expires_before_it_is_tried() {
    let manager = DialogManager::new(vec![(NODE_ANSWER, leaf(&[ANSWER], "yes"))], vec![]);
    let mut conversation = manager.new_conversation(Speaker::Person0, chance(0.0), (), ());
    conversation.state.person0.pushed_obligations.insert(
        ANSWER,
        PushedObligationMetadata { urgency: 1, time_to_live: 0, times_pushed: 1 },
    );
    let mut rng = Rng::seed_from_u64(3);
    assert_eq!(manager.step_conversation(&mut conversation, SMALL_TALK, &mut rng), Ok(()));
    assert_eq!(conversation.state.history.len(), 0);
    assert!(conversation.state.done);
}

#[test]
fn the_most_urgent_obligation_is_tried_first() {
    let manager = DialogManager::new(
        vec![
            (NODE_GREET, leaf(&[GREET], "hello")),
            (NODE_ANSWER, leaf(&[ANSWER], "yes")),
            (NODE_TALK, leaf(&[SMALL_TALK], "so")),
        ],
        vec![Frame::new(MustGreet(Speaker::Person0))],
    );
    for seed in 0..10u64 {
        let mut conversation = manager.new_conversation(Speaker::Person0, chance(0.0), (), ());
        conversation.state.person0.pushed_obligations.insert(
            SMALL_TALK,
            PushedObligationMetadata { urgency: 2, time_to_live: 5, times_pushed: 1 },
        );
        conversation.state.person0.pushed_obligations.insert(
            ANSWER,
            PushedObligationMetadata { urgency: 7, time_to_live: 5, times_pushed: 1 },
        );
        let mut rng = Rng::seed_from_u64(seed);
        let said = ["yes", "so", "hello"];
        for step in 0..3usize {
            conversation.state.speaker = Speaker::Person0;
            assert_eq!(manager.attempt_to_speak(&mut rng, &mut conversation), Ok(true));
            assert_eq!(conversation.state.history[step].utterance, said[step]);
        }
        assert_eq!(manager.attempt_to_speak(&mut rng, &mut conversation), Ok(false));
        assert_eq!(conversation.state.history.len(), 3);
    }
}

#[test]
fn topics_come_before_moves() {
    let mut greet = leaf(&[GREET], "hello");
    greet.edit_historical_move = EditHistoricalMove::new(IntroduceTopic(WEATHER));
    let manager = DialogManager::new(
        vec![
            (NODE_GREET, greet),
            (
                NODE_WEATHER,
                node(&[], &[WEATHER], Precondition::always(), Box::new(Say("nice day")), vec![]),
            ),
            (NODE_ANSWER, leaf(&[ANSWER], "yes")),
        ],
        vec![Frame::new(MustGreet(Speaker::Person0))],
    );
    let mut conversation = manager.new_conversation(Speaker::Person0, chance(0.0), (), ());
    conversation.state.person1.pushed_obligations.insert(
        ANSWER,
        PushedObligationMetadata { urgency: 7, time_to_live: 5, times_pushed: 1 },
    );
    let mut rng = Rng::seed_from_u64(3);
    assert_eq!(manager.step_conversation(&mut conversation, SMALL_TALK, &mut rng), Ok(()));
    assert!(conversation.state.topic_state.needs_addressing(WEATHER));
    assert_eq!(conversation.state.person0.topics.get(WEATHER).unwrap().times_introduced, 1);
    assert_eq!(manager.step_conversation(&mut conversation, SMALL_TALK, &mut rng), Ok(()));
    assert_eq!(conversation.state.history[1].utterance, "nice day");
    assert_eq!(conversation.state.history[1].speaker, Speaker::Person1);
    assert!(!conversation.state.topic_state.needs_addressing(WEATHER));
    assert_eq!(conversation.state.person1.topics.get(WEATHER).unwrap().times_addressed, 1);
    assert_eq!(manager.attempt_to_address_topic(&mut rng, &mut conversation, WEATHER), Ok(true));
    conversation.state.speaker = Speaker::Person1;
    assert_eq!(manager.step_conversation(&mut conversation, SMALL_TALK, &mut rng), Ok(()));
    assert_eq!(conversation.state.history[3].utterance, "yes");
}

#[test]
fn the_manager_follows_its_nodes() {
    let mut manager: DialogManager<()> = DialogManager::new(
        vec![
            (NODE_HELLO, leaf(&[GREET], "hello")),
            (NODE_HI, leaf(&[GREET], "hi")),
            (NODE_HELLO, leaf(&[SMALL_TALK], "so")),
        ],
        vec![],
    );
    assert!(manager.get_move_node(NODE_HELLO).unwrap().dialog_moves.contains(SMALL_TALK));
    assert!(!manager.get_move_node(NODE_HELLO).unwrap().dialog_moves.contains(GREET));
    assert!(manager.get_move_node(NODE_GREET).is_none());
    assert!(manager.insert_move_node(NODE_GREET, leaf(&[ANSWER], "yes")).is_none());
    assert!(manager.insert_move_node(NODE_GREET, leaf(&[ANSWER], "no")).is_some());
    assert!(manager.remove_move_node(NODE_HI).is_some());
    assert!(manager.remove_move_node(NODE_HI).is_none());
    manager.rebuild_expander();
    manager.frames.push(Frame::new(MustGreet(Speaker::Person1)));
    let mut conversation = manager.new_conversation(Speaker::Person1, chance(0.0), (), ());
    assert_eq!(conversation.goals.len(), 1);
    let mut rng = Rng::seed_from_u64(3);
    assert_eq!(manager.attempt_to_make_move(&mut rng, &mut conversation, ANSWER), Ok(true));
    assert_eq!(conversation.state.history[0].utterance, "no");
    assert_eq!(
        manager.attempt_to_make_move(&mut rng, &mut conversation, GREET),
        Err(ExpanderErr::NoExpanderForMove(GREET))
    );
}

#[test]
fn the_manager_takes_in_more_nodes_and_frames() {
    let mut manager: DialogManager<()> = DialogManager::new(vec![], vec![]);
    manager.extend_move_nodes(greeting());
    manager.extend_move_nodes(vec![(NODE_HELLO, leaf(&[], "hey")), (NODE_HI, leaf(&[], "hey"))]);
    manager.extend_frames(vec![Frame::new(MustGreet(Speaker::Person0))]);
    manager.extend_frames(vec![Frame::new(MustGreet(Speaker::Person1))]);
    assert_eq!(manager.frames.len(), 2);
    let mut conversation = manager.new_conversation(Speaker::Person0, chance(0.0), (), ());
    assert_eq!(conversation.goals.len(), 2);
    let mut rng = Rng::seed_from_u64(4);
    for step in 0..2usize {
        assert_eq!(manager.step_conversation(&mut conversation, SMALL_TALK, &mut rng), Ok(()));
        assert_eq!(conversation.state.history[step].utterance, "hey!");
    }
    assert_eq!(conversation.state.history[0].speaker, Speaker::Person0);
    assert_eq!(conversation.state.history[1].speaker, Speaker::Person1);
    assert!(conversation.goals[0].state.is_satisfied());
    assert!(conversation.goals[1].state.is_satisfied());
}

#[test]
fn drawn_registries_keep_the_rules_of_a_step() {
    for seed in 0..60u64 {
        let mut draw = Rng::seed_from_u64(seed);
        let count = draw.gen_range(1..9u64);
        let mut nodes = Vec::new();
        for id in 0..count {
            let moves: Vec<u64> = (0..4u64).filter(|_| draw.gen_bool(0.4)).collect();
            let topics: Vec<u64> = (0..3u64).filter(|_| draw.gen_bool(0.3)).collect();
            let parts: Vec<Vec<u64>> = (0..draw.gen_range(0..3usize))
                .map(|_| {
                    (0..draw.gen_range(0..4usize)).map(|_| draw.gen_range(0..count + 1)).collect()
                })
                .collect();
            let precondition = match draw.gen_range(0..4u32) {
                0 => Precondition::new(Never),
                1 => Precondition::new(OnlyFor(Speaker::Person0)),
                _ => Precondition::always(),
            };
            let mut made = node(&moves, &topics, precondition, Box::new(Join), parts);
            if draw.gen_bool(0.5) {
                made.edit_historical_move = EditHistoricalMove::new(PushToOther(
                    draw.gen_range(0..4u64),
                    draw.gen_range(-3..4i32),
                    draw.gen_range(0..3u32),
                ));
            } else if draw.gen_bool(0.5) {
                made.edit_historical_move =
                    EditHistoricalMove::new(IntroduceTopic(draw.gen_range(0..3u64)));
            }
            nodes.push((id, made));
        }
        let manager = DialogManager::new(nodes, vec![Frame::new(MustGreet(Speaker::Person1))]);
        let mut conversation = manager.new_conversation(Speaker::Person0, chance(0.7), (), ());
        for _ in 0..40usize {
            let said = conversation.state.history.len();
            let was_done = conversation.state.done;
            let speaker = conversation.state.speaker;
            let outcome = manager.step_conversation(&mut conversation, 0, &mut draw);
            let now = conversation.state.history.len();
            assert!(now == said || now == said + 1);
            if was_done {
                assert_eq!(outcome, Ok(()));
                assert_eq!(now, said);
                assert!(conversation.state.done);
                assert_eq!(conversation.state.speaker, speaker);
            }
            match outcome {
                Ok(()) => {
                    if now > said {
                        let made = &conversation.state.history[said];
                        assert_eq!(made.speaker, conversation.state.speaker.other());
                        assert!(!conversation.state.done);
                    } else if !was_done {
                        assert!(conversation.state.done);
                    }
                }
                Err(why) => {
                    assert_ne!(why, ExpanderErr::NoNodesSatisfyPreconditions);
                    assert_eq!(now, said);
                    assert!(!conversation.state.done);
                }
            }
            for made in conversation.state.history.iter() {
                for topic in made.topic_state.addressed.to_vec() {
                    assert!(conversation.state.topic_state.addressed.contains(topic));
                }
            }
        }
    }
}

#[test]
fn rebuilding_keeps_nodes_and_frames() {
    let mut manager = DialogManager::new(greeting(), vec![Frame::new(MustGreet(Speaker::Person0))]);
    manager.rebuild_expander();
    assert_eq!(manager.frames.len(), 1);
    assert_eq!(manager.expander.len(), 3);
    assert_eq!(manager.expander.nodes_for_move(GREET), vec![NODE_GREET]);
    let mut parts = manager.get_move_node(NODE_GREET).unwrap().parts[0].clone();
    parts.sort();
    assert_eq!(parts, vec![NODE_HELLO, NODE_HI]);
    assert_eq!(manager.expander.parents_of(NODE_HI), vec![NODE_GREET]);
    let mut conversation = manager.new_conversation(Speaker::Person0, chance(0.0), (), ());
    let mut rng = Rng::seed_from_u64(9);
    assert_eq!(manager.step_conversation(&mut conversation, SMALL_TALK, &mut rng), Ok(()));
    assert_eq!(conversation.state.history.len(), 1);
}
