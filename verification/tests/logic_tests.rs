use nova::ai::{
    action_decision, tree_step, BtShape, TreeAction, closest_of, condition_holds, condition_outcome, ConditionInput, INFINITY_BITS, invert, parallel_outcome, selector_step, sequence_step, ActionCommand,
    ActionInput, BehaviorStatus,
};
use nova::animation::{
    AnimationPlayer, AnimationState, AnimationStateConfig, AnimationStateMachine, AnimationTransition,
    LoopMode, PlaybackState, TransitionCondition,
};
use nova::audio::{AudioEvent, AudioState};
use nova::character::{character_type_from_name, Character, CharacterId, CharacterType};
use nova::input::{axis_value, wasd_direction};
use nova::formation::{
    square_capacity, square_slot_cell, wedge_slot_cell, Formation, FormationId, FormationManager,
    FormationPattern, SlotAssignment, Vec3Bits,
};
use nova::physics::{
    check_collision_between, entity_in_collision, route_contact, CollisionLayer, CollisionStarted,
    ContactRoute,
};

#[test]
fn behavior_steps() {
    assert_eq!(sequence_step(BehaviorStatus::Success), None);
    assert_eq!(sequence_step(BehaviorStatus::Failure), Some(BehaviorStatus::Failure));
    assert_eq!(selector_step(BehaviorStatus::Failure), None);
    assert_eq!(selector_step(BehaviorStatus::Running), Some(BehaviorStatus::Running));
    assert_eq!(invert(BehaviorStatus::Success), BehaviorStatus::Failure);
    assert_eq!(invert(invert(BehaviorStatus::Running)), BehaviorStatus::Running);
    assert_eq!(parallel_outcome(false), BehaviorStatus::Success);
    assert_eq!(condition_outcome(false), BehaviorStatus::Failure);
}

#[test]
fn character_types() {
    assert_eq!(character_type_from_name("Archer"), CharacterType::Archer);
    assert_eq!(character_type_from_name("Knight"), CharacterType::Knight);
    assert_eq!(character_type_from_name("knight"), CharacterType::Infantry);
    assert_eq!(CharacterType::default(), CharacterType::Infantry);
    let c = Character::new(7, "Bob", CharacterType::Mage);
    assert_eq!(c.id, CharacterId(7));
    assert_eq!(c.name, "Bob");
}

#[test]
fn collisions() {
    let e = CollisionStarted { entity_a: 1, entity_b: 2 };
    assert!(check_collision_between(2, 1, &e));
    assert!(!check_collision_between(1, 3, &e));
    assert_eq!(entity_in_collision(1, &e), Some(2));
    assert_eq!(entity_in_collision(2, &e), Some(1));
    assert_eq!(entity_in_collision(3, &e), None);
    assert_eq!(route_contact(5, 6, false, true), ContactRoute::Trigger { trigger: 6, entity: 5 });
    assert_eq!(route_contact(5, 6, true, true), ContactRoute::Trigger { trigger: 5, entity: 6 });
    assert_eq!(route_contact(5, 6, false, false), ContactRoute::Collision { entity_a: 5, entity_b: 6 });
    assert_eq!(CollisionLayer::enemy(), CollisionLayer(2));
    assert_eq!(CollisionLayer::custom(9).0, 9);
}

#[test]
fn formation_slots() {
    assert_eq!(square_slot_cell(7, 3), (1, 2));
    assert_eq!(wedge_slot_cell(4, 2), (1, 3));
    assert_eq!(square_capacity(3, 4), 12);
    let seq = SlotAssignment::Sequential.assign(&[10, 20], &[], 0);
    assert_eq!(seq, vec![(10, 0), (20, 1)]);
    let d = |v: &[f32]| v.iter().map(|x| x.to_bits()).collect::<Vec<u32>>();
    let dists = vec![d(&[4.0, 1.0, 9.0]), d(&[1.0, 1.0, 0.5]), d(&[0.0, 0.0, 0.0]), d(&[1.0, 2.0, 3.0])];
    let got = SlotAssignment::ByDistance.assign(&[1, 2, 3, 4], &dists, 3);
    assert_eq!(got, vec![(1, 1), (2, 2), (3, 0)]);
}

#[test]
fn animation_player_states() {
    let mut p = AnimationPlayer::new();
    assert!(p.is_stopped());
    p.pause();
    assert!(p.is_stopped());
    p.play(3).pause();
    assert!(p.is_paused());
    assert_eq!(p.clip_index, Some(3));
    p.resume();
    assert!(p.is_playing());
    p.current_time_bits = 2.5f32.to_bits();
    p.stop();
    assert_eq!(p.state, PlaybackState::Stopped);
    assert_eq!(f32::from_bits(p.current_time_bits), 0.0);
    p.play_looping(1);
    assert!(p.looping);
    assert_eq!(f32::from_bits(p.speed_bits), 1.0);
}

#[test]
fn animation_state_machine() {
    let cfg = |name: &str| AnimationStateConfig {
        clip_name: name.to_string(),
        loop_mode: LoopMode::Loop,
        speed_bits: 1.0f32.to_bits(),
    };
    let mut m = AnimationStateMachine::new()
        .with_state(AnimationState::Idle, cfg("idle"))
        .with_state(AnimationState::Walk, cfg("walk"))
        .with_state(AnimationState::Idle, cfg("idle2"))
        .with_transition(AnimationTransition {
            from: AnimationState::Idle,
            to: AnimationState::Walk,
            condition: TransitionCondition::Immediate,
            blend_duration_bits: 0,
        });
    assert_eq!(m.current_config().unwrap().clip_name, "idle2");
    assert_eq!(m.states.len(), 2);
    assert_eq!(m.states[0].0, AnimationState::Idle);
    assert_eq!(m.states[0].1.clip_name, "idle2");
    assert_eq!(m.states[1].0, AnimationState::Walk);
    m.state_time_bits = 3.0f32.to_bits();
    m.transition_to(AnimationState::Idle);
    assert_eq!(f32::from_bits(m.state_time_bits), 3.0);
    m.transition_to(AnimationState::Walk);
    assert_eq!(m.state_time_bits, 0);
    assert_eq!(m.current_config().unwrap().clip_name, "walk");
    m.transition_to(AnimationState::Custom(4));
    assert!(m.current_config().is_none());
    assert_eq!(m.transitions.len(), 1);
}

#[test]
fn audio_events() {
    let mut s = AudioState::default();
    s.apply_event(&AudioEvent::PlayMusic { name: "theme.ogg".to_string(), looping: true });
    assert_eq!(s.current_music.as_deref(), Some("theme.ogg"));
    assert!(s.music_playing && s.music_looping);
    s.apply_event(&AudioEvent::PlaySound { name: "boom.ogg".to_string(), volume_bits: 0.5f32.to_bits() });
    assert_eq!(s.last_played_sound.as_deref(), Some("boom.ogg"));
    assert_eq!(f32::from_bits(s.last_sound_volume_bits), 0.5);
    s.apply_event(&AudioEvent::PauseAll);
    assert!(s.paused);
    s.apply_event(&AudioEvent::ResumeAll);
    assert!(!s.paused);
    s.apply_event(&AudioEvent::StopMusic);
    assert!(!s.music_playing);
    assert_eq!(s.current_music.as_deref(), Some("theme.ogg"));
    s.apply_event(&AudioEvent::SetMasterVolume(0));
    assert!(!s.music_playing);
}

#[test]
fn formation_members_add_and_remove() {
    let mut f = Formation::new(FormationId(3), 7, FormationPattern::Line, 2.0f32.to_bits());
    assert_eq!(f.id, FormationId(3));
    assert_eq!(f.leader, 7);
    assert!(f.members.is_empty());
    assert_eq!(f.spacing_bits, 2.0f32.to_bits());
    assert_eq!(f.facing_bits, Vec3Bits { x: 0.0f32.to_bits(), y: 0.0f32.to_bits(), z: (-1.0f32).to_bits() });
    f.add_member(10);
    f.add_member(11);
    f.add_member(10);
    f.add_member(12);
    assert_eq!(f.members, vec![10, 11, 10, 12]);
    f.remove_member(10);
    assert_eq!(f.members, vec![11, 12]);
    f.remove_member(99);
    assert_eq!(f.members, vec![11, 12]);
    // adding then removing a new member restores the list
    f.add_member(13);
    f.remove_member(13);
    assert_eq!(f.members, vec![11, 12]);
}

#[test]
fn formation_pattern_capacity() {
    assert_eq!(FormationPattern::Square { rows: 3, cols: 4 }.capacity(), Some(12));
    assert_eq!(FormationPattern::Wedge { depth: 3 }.capacity(), None);
    assert_eq!(FormationPattern::Line.capacity(), None);
    assert_eq!(FormationPattern::Circle { radius_bits: 5.0f32.to_bits() }.capacity(), None);
    let slots = vec![Vec3Bits { x: 0, y: 0, z: 0 }, Vec3Bits { x: 1, y: 2, z: 3 }];
    assert_eq!(FormationPattern::Custom { slots }.capacity(), Some(2));
}

#[test]
fn formation_manager_numbers() {
    let mut m = FormationManager::default();
    assert_eq!(m.next_id(), 0);
    let a = m.create(1, FormationPattern::Line, 1.0f32.to_bits());
    let b = m.create(2, FormationPattern::Wedge { depth: 2 }, 1.5f32.to_bits());
    assert_eq!(a, FormationId(0));
    assert_eq!(b, FormationId(1));
    assert_eq!(m.get(a).unwrap().leader, 1);
    assert_eq!(m.get(b).unwrap().leader, 2);
    assert_eq!(m.formations().len(), 2);
    m.get_mut(a).unwrap().add_member(42);
    assert_eq!(m.get(a).unwrap().members, vec![42]);
    assert!(m.get_mut(FormationId(9)).is_none());
    m.dissolve(a);
    assert!(m.get(a).is_none());
    assert_eq!(m.formations().len(), 1);
    m.dissolve(FormationId(9));
    assert_eq!(m.formations().len(), 1);
    // numbers are not reused after dissolving
    let c = m.create(3, FormationPattern::Line, 1.0f32.to_bits());
    assert_eq!(c, FormationId(2));
    assert!(m.get(a).is_none());
}

#[test]
fn action_decisions() {
    assert_eq!(action_decision(ActionInput::Idle), (BehaviorStatus::Running, ActionCommand::BecomeIdle));
    assert_eq!(action_decision(ActionInput::MoveToPosition), (BehaviorStatus::Running, ActionCommand::MoveToTarget));
    assert_eq!(action_decision(ActionInput::MoveByOffset), (BehaviorStatus::Running, ActionCommand::MoveToTarget));
    assert_eq!(action_decision(ActionInput::MoveToEntity), (BehaviorStatus::Running, ActionCommand::Keep));
    assert_eq!(
        action_decision(ActionInput::Attack { target: Some(77) }),
        (BehaviorStatus::Running, ActionCommand::AttackEntity(77))
    );
    assert_eq!(action_decision(ActionInput::Attack { target: None }), (BehaviorStatus::Failure, ActionCommand::Keep));
    assert_eq!(action_decision(ActionInput::Flee { enemy_seen: true }), (BehaviorStatus::Running, ActionCommand::Retreat));
    assert_eq!(action_decision(ActionInput::Flee { enemy_seen: false }), (BehaviorStatus::Running, ActionCommand::Keep));
    assert_eq!(action_decision(ActionInput::Patrol), (BehaviorStatus::Running, ActionCommand::Keep));
    assert_eq!(action_decision(ActionInput::FollowLeader), (BehaviorStatus::Running, ActionCommand::Keep));
    assert_eq!(action_decision(ActionInput::Custom { result: Some(true) }), (BehaviorStatus::Success, ActionCommand::Keep));
    assert_eq!(action_decision(ActionInput::Custom { result: Some(false) }), (BehaviorStatus::Failure, ActionCommand::Keep));
    assert_eq!(action_decision(ActionInput::Custom { result: None }), (BehaviorStatus::Failure, ActionCommand::Keep));
}

#[test]
fn animation_player_reach_end() {
    let mut p = AnimationPlayer::new();
    p.play(0);
    let before = p;
    assert!(!p.reach_end(true));
    assert_eq!(p, before);
    assert!(p.reach_end(false));
    assert_eq!(p.state, PlaybackState::Stopped);
    let mut q = AnimationPlayer::new();
    q.play_looping(1);
    assert!(!q.reach_end(false));
    assert_eq!(q.state, PlaybackState::Playing);
    let mut r = AnimationPlayer::new();
    r.play(2);
    r.auto_stop = false;
    assert!(r.reach_end(false));
    assert_eq!(r.state, PlaybackState::Playing);
}

#[test]
fn input_axis_and_wasd() {
    assert_eq!(axis_value(&[true], &[false]), 1);
    assert_eq!(axis_value(&[false], &[true]), -1);
    assert_eq!(axis_value(&[true], &[true]), 0);
    assert_eq!(axis_value(&[true, true], &[]), 1);
    assert_eq!(axis_value(&[true, true], &[true]), 1);
    assert_eq!(axis_value(&[], &[true, true, true]), -1);
    assert_eq!(axis_value(&[], &[]), 0);
    assert_eq!(wasd_direction(true, false, false, false), (0, 1));
    assert_eq!(wasd_direction(false, true, true, false), (1, -1));
    assert_eq!(wasd_direction(true, true, true, true), (0, 0));
    assert_eq!(wasd_direction(false, false, false, true), (-1, 0));
}

#[test]
fn condition_decisions() {
    assert!(condition_holds(ConditionInput::HasTarget { enemy_seen: true }));
    assert!(!condition_holds(ConditionInput::HasPerceivedEnemy { enemy_seen: false }));
    assert!(condition_holds(ConditionInput::EnemyInRange { enemy_seen: true }));
    assert!(condition_holds(ConditionInput::EnemyInAttackRange { enemy_seen: true }));
    assert!(!condition_holds(ConditionInput::EnemyInAttackRange { enemy_seen: false }));
    assert!(condition_holds(ConditionInput::HealthBelow { below: true }));
    assert!(!condition_holds(ConditionInput::EmotionIs { matches: false }));
    assert!(!condition_holds(ConditionInput::IsInFormation));
}

#[test]
fn closest_units() {
    let d = |x: f32| x.to_bits();
    assert_eq!(INFINITY_BITS, f32::INFINITY.to_bits());
    let seen = vec![(1, true, d(5.0)), (2, false, d(1.0)), (3, true, d(2.0)), (4, true, d(2.0)), (5, false, d(0.5))];
    assert_eq!(closest_of(&seen, true), Some(3));
    assert_eq!(closest_of(&seen, false), Some(5));
    assert_eq!(closest_of(&[(1, true, d(f32::INFINITY)), (2, true, f32::NAN.to_bits())], true), None);
    assert_eq!(closest_of(&[(1, false, d(3.0))], true), None);
    assert_eq!(closest_of(&[], false), None);
}

/// Drives a walk: runs each leaf the step function names (looking its result
/// up in `results`) and returns the outcome and the leaves run, in order.
fn drive(tree: &BtShape, results: &[BehaviorStatus]) -> (BehaviorStatus, Vec<usize>) {
    let mut got: Vec<BehaviorStatus> = Vec::new();
    let mut ran: Vec<usize> = Vec::new();
    loop {
        match tree_step(tree, &got) {
            TreeAction::RunLeaf(id) => {
                ran.push(id);
                got.push(results[id]);
            }
            TreeAction::Done(s) => return (s, ran),
        }
    }
}

#[test]
fn tree_walk_order_and_outcome() {
    let results = [
        BehaviorStatus::Success,
        BehaviorStatus::Failure,
        BehaviorStatus::Success,
        BehaviorStatus::Running,
        BehaviorStatus::Success,
    ];
    // selector( sequence(0, 1, 2), inverter(1) ): the sequence stops at leaf 1
    let tree = BtShape::Selector(vec![
        BtShape::Sequence(vec![BtShape::Leaf(0), BtShape::Leaf(1), BtShape::Leaf(2)]),
        BtShape::Inverter(Box::new(BtShape::Leaf(1))),
        BtShape::Leaf(4),
    ]);
    assert_eq!(drive(&tree, &results), (BehaviorStatus::Success, vec![0, 1, 1]));

    let par = BtShape::Parallel(vec![BtShape::Leaf(0), BtShape::Leaf(3), BtShape::Leaf(1)]);
    assert_eq!(drive(&par, &results), (BehaviorStatus::Running, vec![0, 3, 1]));
    let par2 = BtShape::Parallel(vec![BtShape::Leaf(0), BtShape::Leaf(1)]);
    assert_eq!(drive(&par2, &results), (BehaviorStatus::Success, vec![0, 1]));

    let sel = BtShape::Selector(vec![BtShape::Leaf(1), BtShape::Leaf(1)]);
    assert_eq!(drive(&sel, &results), (BehaviorStatus::Failure, vec![1, 1]));
    let seq = BtShape::Sequence(vec![BtShape::Leaf(3), BtShape::Leaf(0)]);
    assert_eq!(drive(&seq, &results), (BehaviorStatus::Running, vec![3]));
    assert_eq!(drive(&BtShape::Sequence(vec![]), &results), (BehaviorStatus::Success, vec![]));

    // a repeater walks its child the given number of times
    let rep = BtShape::Repeater(Box::new(BtShape::Leaf(0)), 3);
    assert_eq!(drive(&rep, &results), (BehaviorStatus::Success, vec![0, 0, 0]));
    let rep_running = BtShape::Repeater(Box::new(BtShape::Sequence(vec![BtShape::Leaf(0), BtShape::Leaf(3)])), 2);
    assert_eq!(drive(&rep_running, &results), (BehaviorStatus::Running, vec![0, 3, 0, 3]));
    assert_eq!(drive(&BtShape::Repeater(Box::new(BtShape::Leaf(2)), 0), &results), (BehaviorStatus::Success, vec![]));

    // an inverter of an inverter walks like its child
    let twice = BtShape::Inverter(Box::new(BtShape::Inverter(Box::new(BtShape::Leaf(1)))));
    assert_eq!(drive(&twice, &results), (BehaviorStatus::Failure, vec![1]));

    // the first step of a walk names the first leaf
    assert_eq!(tree_step(&tree, &vec![]), TreeAction::RunLeaf(0));
    assert_eq!(tree_step(&tree, &vec![BehaviorStatus::Success]), TreeAction::RunLeaf(1));
}

