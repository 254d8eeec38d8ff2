//! Behaviour-tree outcomes and how composite nodes combine their children.

use vstd::prelude::*;

verus! {

/// The outcome of running a behaviour-tree node.
#[derive(Clone, Copy, Debug, PartialEq, Eq, Hash, Structural)]
pub enum BehaviorStatus {
    Success,
    Failure,
    Running,
}

/// What a sequence node does after a child returned `child`: stop with
/// that outcome (`Some`), or go on to the next child (`None`, on success).
pub fn sequence_step(child: BehaviorStatus) -> (r: Option<BehaviorStatus>)
    ensures
        r == (if child == BehaviorStatus::Success { None } else { Some(child) }),
{
    match child {
        BehaviorStatus::Failure => Some(BehaviorStatus::Failure),
        BehaviorStatus::Running => Some(BehaviorStatus::Running),
        BehaviorStatus::Success => None,
    }
}

/// What a selector node does after a child returned `child`: stop with that
/// outcome (`Some`), or go on to the next child (`None`, on failure).
pub fn selector_step(child: BehaviorStatus) -> (r: Option<BehaviorStatus>)
    ensures
        r == (if child == BehaviorStatus::Failure { None } else { Some(child) }),
{
    match child {
        BehaviorStatus::Success => Some(BehaviorStatus::Success),
        BehaviorStatus::Running => Some(BehaviorStatus::Running),
        BehaviorStatus::Failure => None,
    }
}

/// The outcome of an inverter node: success and failure swap, running stays.
pub open spec fn spec_invert(s: BehaviorStatus) -> BehaviorStatus {
    match s {
        BehaviorStatus::Success => BehaviorStatus::Failure,
        BehaviorStatus::Failure => BehaviorStatus::Success,
        BehaviorStatus::Running => BehaviorStatus::Running,
    }
}

/// The outcome of an inverter node over a child that returned `s`.
pub fn invert(s: BehaviorStatus) -> (r: BehaviorStatus)
    ensures
        r == spec_invert(s),
{
    match s {
        BehaviorStatus::Success => BehaviorStatus::Failure,
        BehaviorStatus::Failure => BehaviorStatus::Success,
        BehaviorStatus::Running => BehaviorStatus::Running,
    }
}

/// The outcome of a parallel node once every child has run: running if any
/// child was running, success otherwise.
pub fn parallel_outcome(any_running: bool) -> (r: BehaviorStatus)
    ensures
        r == (if any_running { BehaviorStatus::Running } else { BehaviorStatus::Success }),
{
    if any_running {
        BehaviorStatus::Running
    } else {
        BehaviorStatus::Success
    }
}

/// The outcome of a condition node whose test gave `holds`.
pub fn condition_outcome(holds: bool) -> (r: BehaviorStatus)
    ensures
        r == (if holds { BehaviorStatus::Success } else { BehaviorStatus::Failure }),
{
    if holds {
        BehaviorStatus::Success
    } else {
        BehaviorStatus::Failure
    }
}

/// The outcome of a sequence whose children return `children` in order.
pub open spec fn sequence_outcome(children: Seq<BehaviorStatus>) -> BehaviorStatus
    decreases children.len(),
{
    if children.len() == 0 {
        BehaviorStatus::Success
    } else if children[0] == BehaviorStatus::Success {
        sequence_outcome(children.drop_first())
    } else {
        children[0]
    }
}

/// The outcome of a selector whose children return `children` in order.
pub open spec fn selector_outcome(children: Seq<BehaviorStatus>) -> BehaviorStatus
    decreases children.len(),
{
    if children.len() == 0 {
        BehaviorStatus::Failure
    } else if children[0] == BehaviorStatus::Failure {
        selector_outcome(children.drop_first())
    } else {
        children[0]
    }
}

/// Inverting twice gives back the original outcome.
pub proof fn law_invert_involutive(s: BehaviorStatus)
    ensures
        spec_invert(spec_invert(s)) == s,
{
}

/// A sequence succeeds exactly when every child succeeds; otherwise it
/// returns the first child outcome that is not a success.
pub proof fn law_sequence_all_or_first(children: Seq<BehaviorStatus>)
    ensures
        (sequence_outcome(children) == BehaviorStatus::Success) <==> (forall|i: int|
            0 <= i < children.len() ==> #[trigger] children[i] == BehaviorStatus::Success),
        sequence_outcome(children) != BehaviorStatus::Success ==> exists|i: int|
            0 <= i < children.len() && children[i] == sequence_outcome(children) && (forall|j: int|
                0 <= j < i ==> #[trigger] children[j] == BehaviorStatus::Success),
    decreases children.len(),
{
    if children.len() > 0 {
        let rest = children.drop_first();
        law_sequence_all_or_first(rest);
        if children[0] == BehaviorStatus::Success {
            if sequence_outcome(children) != BehaviorStatus::Success {
                let i = choose|i: int|
                    0 <= i < rest.len() && rest[i] == sequence_outcome(rest) && (forall|j: int|
                        0 <= j < i ==> #[trigger] rest[j] == BehaviorStatus::Success);
                assert(children[i + 1] == rest[i]);
                assert forall|j: int| 0 <= j < i + 1 implies #[trigger] children[j] == BehaviorStatus::Success by {
                    if j > 0 {
                        assert(children[j] == rest[j - 1]);
                    }
                }
            }
            assert((forall|i: int| 0 <= i < rest.len() ==> #[trigger] rest[i] == BehaviorStatus::Success)
                <==> (forall|i: int| 0 <= i < children.len() ==> #[trigger] children[i] == BehaviorStatus::Success)) by {
                if forall|i: int| 0 <= i < rest.len() ==> #[trigger] rest[i] == BehaviorStatus::Success {
                    assert forall|i: int| 0 <= i < children.len() implies #[trigger] children[i] == BehaviorStatus::Success by {
                        if i > 0 {
                            assert(children[i] == rest[i - 1]);
                        }
                    }
                }
                if forall|i: int| 0 <= i < children.len() ==> #[trigger] children[i] == BehaviorStatus::Success {
                    assert forall|i: int| 0 <= i < rest.len() implies #[trigger] rest[i] == BehaviorStatus::Success by {
                        assert(rest[i] == children[i + 1]);
                    }
                }
            }
        }
    }
}

/// A selector fails exactly when every child fails; otherwise it returns the
/// first child outcome that is not a failure.
pub proof fn law_selector_all_or_first(children: Seq<BehaviorStatus>)
    ensures
        (selector_outcome(children) == BehaviorStatus::Failure) <==> (forall|i: int|
            0 <= i < children.len() ==> #[trigger] children[i] == BehaviorStatus::Failure),
        selector_outcome(children) != BehaviorStatus::Failure ==> exists|i: int|
            0 <= i < children.len() && children[i] == selector_outcome(children) && (forall|j: int|
                0 <= j < i ==> #[trigger] children[j] == BehaviorStatus::Failure),
    decreases children.len(),
{
    if children.len() > 0 {
        let rest = children.drop_first();
        law_selector_all_or_first(rest);
        if children[0] == BehaviorStatus::Failure {
            if selector_outcome(children) != BehaviorStatus::Failure {
                let i = choose|i: int|
                    0 <= i < rest.len() && rest[i] == selector_outcome(rest) && (forall|j: int|
                        0 <= j < i ==> #[trigger] rest[j] == BehaviorStatus::Failure);
                assert(children[i + 1] == rest[i]);
                assert forall|j: int| 0 <= j < i + 1 implies #[trigger] children[j] == BehaviorStatus::Failure by {
                    if j > 0 {
                        assert(children[j] == rest[j - 1]);
                    }
                }
            }
            assert((forall|i: int| 0 <= i < rest.len() ==> #[trigger] rest[i] == BehaviorStatus::Failure)
                <==> (forall|i: int| 0 <= i < children.len() ==> #[trigger] children[i] == BehaviorStatus::Failure)) by {
                if forall|i: int| 0 <= i < rest.len() ==> #[trigger] rest[i] == BehaviorStatus::Failure {
                    assert forall|i: int| 0 <= i < children.len() implies #[trigger] children[i] == BehaviorStatus::Failure by {
                        if i > 0 {
                            assert(children[i] == rest[i - 1]);
                        }
                    }
                }
                if forall|i: int| 0 <= i < children.len() ==> #[trigger] children[i] == BehaviorStatus::Failure {
                    assert forall|i: int| 0 <= i < rest.len() implies #[trigger] rest[i] == BehaviorStatus::Failure by {
                        assert(rest[i] == children[i + 1]);
                    }
                }
            }
        }
    }
}

/// Running children one by one with `sequence_step` until it says stop
/// gives `sequence_outcome`: the step function and the outcome agree.
pub proof fn law_sequence_step_agrees(children: Seq<BehaviorStatus>)
    requires
        children.len() > 0,
    ensures
        children[0] == BehaviorStatus::Success ==> sequence_outcome(children) == sequence_outcome(
            children.drop_first(),
        ),
        children[0] != BehaviorStatus::Success ==> sequence_outcome(children) == children[0],
{
}

/// A leaf action as the decision sees it: its kind and what the unit knows
/// when it runs. Entities are given by their `Entity::to_bits` numbers.
#[derive(Clone, Copy, Debug, PartialEq, Eq, Structural)]
pub enum ActionInput {
    Idle,
    /// Move to a fixed world position.
    MoveToPosition,
    /// Move toward an entity (left to the pursuit system).
    MoveToEntity,
    /// Move by an offset from the current position.
    MoveByOffset,
    /// Attack `target`, if there is one (a named entity, or the closest enemy perceived).
    Attack { target: Option<u64> },
    /// Flee; `enemy_seen` tells whether an enemy is perceived.
    Flee { enemy_seen: bool },
    Patrol,
    FollowLeader,
    /// A custom action: `None` when the unit has no blackboard to run it
    /// on, else what it returned.
    Custom { result: Option<bool> },
}

/// The state change an action asks for.
#[derive(Clone, Copy, Debug, PartialEq, Eq, Structural)]
pub enum ActionCommand {
    /// No change.
    Keep,
    /// Become idle.
    BecomeIdle,
    /// Attack this entity.
    AttackEntity(u64),
    /// Move to the action's target position.
    MoveToTarget,
    /// Retreat away from the enemy.
    Retreat,
}

/// The outcome and state change of running a leaf action: idling and
/// moving keep running; an attack runs on a target and fails without one;
/// fleeing retreats only from a perceived enemy; a custom action succeeds
/// or fails as it returned, and fails without a blackboard.
pub fn action_decision(action: ActionInput) -> (r: (BehaviorStatus, ActionCommand))
    ensures
        r == (match action {
            ActionInput::Idle => (BehaviorStatus::Running, ActionCommand::BecomeIdle),
            ActionInput::MoveToPosition => (BehaviorStatus::Running, ActionCommand::MoveToTarget),
            ActionInput::MoveToEntity => (BehaviorStatus::Running, ActionCommand::Keep),
            ActionInput::MoveByOffset => (BehaviorStatus::Running, ActionCommand::MoveToTarget),
            ActionInput::Attack { target } => match target {
                Some(e) => (BehaviorStatus::Running, ActionCommand::AttackEntity(e)),
                None => (BehaviorStatus::Failure, ActionCommand::Keep),
            },
            ActionInput::Flee { enemy_seen } => (
                BehaviorStatus::Running,
                if enemy_seen { ActionCommand::Retreat } else { ActionCommand::Keep },
            ),
            ActionInput::Patrol => (BehaviorStatus::Running, ActionCommand::Keep),
            ActionInput::FollowLeader => (BehaviorStatus::Running, ActionCommand::Keep),
            ActionInput::Custom { result } => match result {
                Some(true) => (BehaviorStatus::Success, ActionCommand::Keep),
                _ => (BehaviorStatus::Failure, ActionCommand::Keep),
            },
        }),
{
    match action {
        ActionInput::Idle => (BehaviorStatus::Running, ActionCommand::BecomeIdle),
        ActionInput::MoveToPosition | ActionInput::MoveByOffset => (
            BehaviorStatus::Running,
            ActionCommand::MoveToTarget,
        ),
        ActionInput::Attack { target } => match target {
            Some(e) => (BehaviorStatus::Running, ActionCommand::AttackEntity(e)),
            None => (BehaviorStatus::Failure, ActionCommand::Keep),
        },
        ActionInput::Flee { enemy_seen } => {
            if enemy_seen {
                (BehaviorStatus::Running, ActionCommand::Retreat)
            } else {
                (BehaviorStatus::Running, ActionCommand::Keep)
            }
        },
        ActionInput::Custom { result } => match result {
            Some(ok) => (condition_outcome(ok), ActionCommand::Keep),
            None => (BehaviorStatus::Failure, ActionCommand::Keep),
        },
        _ => (BehaviorStatus::Running, ActionCommand::Keep),
    }
}

/// A condition node as the decision sees it: its kind and what the unit
/// knows. `enemy_seen` tells whether an enemy is perceived, `below` whether
/// health is under the node's threshold, and `matches` whether the unit's
/// emotion is the one the node asks for (false when it has none).
#[derive(Clone, Copy, Debug, PartialEq, Eq, Structural)]
pub enum ConditionInput {
    HasTarget { enemy_seen: bool },
    HealthBelow { below: bool },
    EnemyInRange { enemy_seen: bool },
    EnemyInAttackRange { enemy_seen: bool },
    /// Formation membership is judged elsewhere; the node itself never holds.
    IsInFormation,
    EmotionIs { matches: bool },
    HasPerceivedEnemy { enemy_seen: bool },
}

/// Whether a condition holds: the target and range tests hold exactly when
/// an enemy is perceived, the health and emotion tests as measured, and the
/// formation test never.
pub fn condition_holds(c: ConditionInput) -> (b: bool)
    ensures
        b == (match c {
            ConditionInput::HasTarget { enemy_seen } => enemy_seen,
            ConditionInput::HealthBelow { below } => below,
            ConditionInput::EnemyInRange { enemy_seen } => enemy_seen,
            ConditionInput::EnemyInAttackRange { enemy_seen } => enemy_seen,
            ConditionInput::IsInFormation => false,
            ConditionInput::EmotionIs { matches } => matches,
            ConditionInput::HasPerceivedEnemy { enemy_seen } => enemy_seen,
        }),
{
    match c {
        ConditionInput::HasTarget { enemy_seen } => enemy_seen,
        ConditionInput::HealthBelow { below } => below,
        ConditionInput::EnemyInRange { enemy_seen } => enemy_seen,
        ConditionInput::EnemyInAttackRange { enemy_seen } => enemy_seen,
        ConditionInput::IsInFormation => false,
        ConditionInput::EmotionIs { matches } => matches,
        ConditionInput::HasPerceivedEnemy { enemy_seen } => enemy_seen,
    }
}

/// Bit pattern of `f32::INFINITY`.
pub const INFINITY_BITS: u32 = 0x7F80_0000u32;

/// Whether entry `k` of `seen` is the closest one on the given side: the
/// entries are the units a perceiver sees, as (entity, enemy or not, bit
/// pattern of the non-negative `f32` distance). The closest has a finite
/// distance, strictly less than every earlier entry of its side and no more
/// than every later one (the first of equally close units wins).
pub open spec fn is_closest(seen: Seq<(u64, bool, u32)>, enemy: bool, k: int) -> bool {
    &&& 0 <= k < seen.len()
    &&& seen[k].1 == enemy
    &&& seen[k].2 < INFINITY_BITS
    &&& forall|j: int|
        0 <= j < seen.len() && #[trigger] seen[j].1 == enemy ==> (j < k ==> seen[k].2 < seen[j].2) && (k < j
            ==> seen[k].2 <= seen[j].2)
}

/// The closest unit of the given side among `seen` (see [`is_closest`]), or
/// `None` when no unit of that side is at a finite distance.
pub fn closest_of(seen: &[(u64, bool, u32)], enemy: bool) -> (r: Option<u64>)
    ensures
        match r {
            Some(e) => exists|k: int| is_closest(seen@, enemy, k) && seen@[k].0 == e,
            None => forall|j: int|
                0 <= j < seen@.len() && #[trigger] seen@[j].1 == enemy ==> seen@[j].2 >= INFINITY_BITS,
        },
{
    let mut best: Option<usize> = None;
    let mut best_dist: u32 = INFINITY_BITS;
    let mut i: usize = 0;
    while i < seen.len()
        invariant
            i <= seen@.len(),
            match best {
                None => best_dist == INFINITY_BITS && forall|j: int|
                    0 <= j < i && #[trigger] seen@[j].1 == enemy ==> seen@[j].2 >= INFINITY_BITS,
                Some(b) => {
                    &&& b < i
                    &&& seen@[b as int].1 == enemy
                    &&& best_dist == seen@[b as int].2
                    &&& best_dist < INFINITY_BITS
                    &&& forall|j: int|
                        0 <= j < i && #[trigger] seen@[j].1 == enemy ==> (j < b ==> best_dist < seen@[j].2) && (b
                            < j ==> best_dist <= seen@[j].2)
                },
            },
        decreases seen@.len() - i,
    {
        let (_, side, d) = seen[i];
        if side == enemy && d < best_dist {
            best = Some(i);
            best_dist = d;
        }
        i = i + 1;
    }
    match best {
        Some(b) => {
            assert(is_closest(seen@, enemy, b as int));
            Some(seen[b].0)
        },
        None => None,
    }
}

/// The closest unit is unique: two entries both closest on one side are the same.
pub proof fn law_closest_unique(seen: Seq<(u64, bool, u32)>, enemy: bool, k1: int, k2: int)
    requires
        is_closest(seen, enemy, k1),
        is_closest(seen, enemy, k2),
    ensures
        k1 == k2,
{
    if k1 < k2 {
        assert(seen[k2].1 == enemy);
        assert(seen[k1].1 == enemy);
    } else if k2 < k1 {
        assert(seen[k2].1 == enemy);
        assert(seen[k1].1 == enemy);
    }
}

/// The shape of a behaviour tree: leaves are numbered by the caller, who
/// runs a leaf when [`tree_step`] names it.
pub enum BtShape {
    Leaf(usize),
    Sequence(Vec<BtShape>),
    Selector(Vec<BtShape>),
    Parallel(Vec<BtShape>),
    Inverter(Box<BtShape>),
    /// A repeater: its child is walked the given number of times in a row.
    Repeater(Box<BtShape>, u32),
}

/// How far a walk gets: the leaf it needs run next (`None` once it is
/// done), the outcome when done, the number of leaf results used when it
/// stopped, and the leaves run, in order.
pub type WalkState = (Option<usize>, BehaviorStatus, int, Seq<usize>);

/// Walking `t` from leaf run number `pos`, where `rs[k]` is the result of
/// leaf run `k`. A leaf whose run has no result yet stops the walk and is
/// the one needed next.
pub open spec fn run(t: BtShape, rs: Seq<BehaviorStatus>, pos: int) -> WalkState
    decreases t, 0int,
{
    match t {
        BtShape::Leaf(id) => if 0 <= pos < rs.len() {
            (None, rs[pos], pos + 1, seq![id])
        } else {
            (Some(id), BehaviorStatus::Running, pos, Seq::empty())
        },
        BtShape::Sequence(cs) => run_seq(cs@, 0, rs, pos),
        BtShape::Selector(cs) => run_sel(cs@, 0, rs, pos),
        BtShape::Parallel(cs) => run_par(cs@, 0, rs, pos, false),
        BtShape::Inverter(c) => {
            let r = run(*c, rs, pos);
            (r.0, spec_invert(r.1), r.2, r.3)
        },
        BtShape::Repeater(c, n) => run_rep(*c, n as int, rs, pos, false),
    }
}

/// Children `i..` of a sequence: each is walked in turn until one does not
/// succeed, which gives the outcome; success if all succeed.
pub open spec fn run_seq(cs: Seq<BtShape>, i: int, rs: Seq<BehaviorStatus>, pos: int) -> WalkState
    decreases cs, cs.len() - i,
{
    if i < 0 || i >= cs.len() {
        (None, BehaviorStatus::Success, pos, Seq::empty())
    } else {
        let r = run(cs[i], rs, pos);
        if r.0 is None && r.1 == BehaviorStatus::Success {
            let r2 = run_seq(cs, i + 1, rs, r.2);
            (r2.0, r2.1, r2.2, r.3 + r2.3)
        } else {
            r
        }
    }
}

/// Children `i..` of a selector: each is walked in turn until one does not
/// fail, which gives the outcome; failure if all fail.
pub open spec fn run_sel(cs: Seq<BtShape>, i: int, rs: Seq<BehaviorStatus>, pos: int) -> WalkState
    decreases cs, cs.len() - i,
{
    if i < 0 || i >= cs.len() {
        (None, BehaviorStatus::Failure, pos, Seq::empty())
    } else {
        let r = run(cs[i], rs, pos);
        if r.0 is None && r.1 == BehaviorStatus::Failure {
            let r2 = run_sel(cs, i + 1, rs, r.2);
            (r2.0, r2.1, r2.2, r.3 + r2.3)
        } else {
            r
        }
    }
}

/// Children `i..` of a parallel node: every one is walked, in order; the
/// outcome is running if any child (including those before `i`, as `any`)
/// was running, else success.
pub open spec fn run_par(cs: Seq<BtShape>, i: int, rs: Seq<BehaviorStatus>, pos: int, any: bool) -> WalkState
    decreases cs, cs.len() - i,
{
    if i < 0 || i >= cs.len() {
        (None, if any { BehaviorStatus::Running } else { BehaviorStatus::Success }, pos, Seq::empty())
    } else {
        let r = run(cs[i], rs, pos);
        if r.0 is None {
            let r2 = run_par(cs, i + 1, rs, r.2, any || r.1 == BehaviorStatus::Running);
            (r2.0, r2.1, r2.2, r.3 + r2.3)
        } else {
            r
        }
    }
}

/// `k` more walks of a repeater's child `c`: all are made, in order; the
/// outcome is running if any walk (including earlier ones, as `any`) was
/// running, else success.
pub open spec fn run_rep(c: BtShape, k: int, rs: Seq<BehaviorStatus>, pos: int, any: bool) -> WalkState
    decreases c, k,
{
    if k <= 0 {
        (None, if any { BehaviorStatus::Running } else { BehaviorStatus::Success }, pos, Seq::empty())
    } else {
        let r = run(c, rs, pos);
        if r.0 is None {
            let r2 = run_rep(c, k - 1, rs, r.2, any || r.1 == BehaviorStatus::Running);
            (r2.0, r2.1, r2.2, r.3 + r2.3)
        } else {
            r
        }
    }
}

/// The first three parts of a walk state.
pub open spec fn head3(r: WalkState) -> (Option<usize>, BehaviorStatus, int) {
    (r.0, r.1, r.2)
}

/// What the caller of [`tree_step`] does next.
#[derive(Clone, Copy, Debug, PartialEq, Eq, Structural)]
pub enum TreeAction {
    /// Run this leaf and append its result.
    RunLeaf(usize),
    /// The walk is over, with this outcome.
    Done(BehaviorStatus),
}

fn step_rec(t: &BtShape, rs: &Vec<BehaviorStatus>, pos: usize) -> (r: (Option<usize>, BehaviorStatus, usize))
    requires
        pos <= rs@.len(),
    ensures
        (r.0, r.1, r.2 as int) == head3(run(*t, rs@, pos as int)),
        pos <= r.2 <= rs@.len(),
    decreases t,
{
    match t {
        BtShape::Leaf(id) => {
            if pos < rs.len() {
                (None, rs[pos], pos + 1)
            } else {
                (Some(*id), BehaviorStatus::Running, pos)
            }
        },
        BtShape::Inverter(c) => {
            let (need, s, e) = step_rec(&**c, rs, pos);
            (need, invert(s), e)
        },
        BtShape::Sequence(cs) => {
            let ghost css = cs@;
            let mut p = pos;
            let mut i: usize = 0;
            while i < cs.len()
                invariant
                    *t == BtShape::Sequence(*cs),
                    css == cs@,
                    i <= css.len(),
                    pos <= p <= rs@.len(),
                    head3(run(*t, rs@, pos as int)) == head3(run_seq(css, i as int, rs@, p as int)),
                decreases css.len() - i,
            {
                proof {
                    assert(decreases_to!(*t => (*t)->Sequence_0));
                    assert(decreases_to!(*cs => cs@));
                    assert(decreases_to!(cs@ => cs@[i as int]));
                }
                let (need, s, e) = step_rec(&cs[i], rs, p);
                if need.is_some() || s != BehaviorStatus::Success {
                    return (need, s, e);
                }
                p = e;
                i = i + 1;
            }
            (None, BehaviorStatus::Success, p)
        },
        BtShape::Selector(cs) => {
            let ghost css = cs@;
            let mut p = pos;
            let mut i: usize = 0;
            while i < cs.len()
                invariant
                    *t == BtShape::Selector(*cs),
                    css == cs@,
                    i <= css.len(),
                    pos <= p <= rs@.len(),
                    head3(run(*t, rs@, pos as int)) == head3(run_sel(css, i as int, rs@, p as int)),
                decreases css.len() - i,
            {
                proof {
                    assert(decreases_to!(*t => (*t)->Selector_0));
                    assert(decreases_to!(*cs => cs@));
                    assert(decreases_to!(cs@ => cs@[i as int]));
                }
                let (need, s, e) = step_rec(&cs[i], rs, p);
                if need.is_some() || s != BehaviorStatus::Failure {
                    return (need, s, e);
                }
                p = e;
                i = i + 1;
            }
            (None, BehaviorStatus::Failure, p)
        },
        BtShape::Parallel(cs) => {
            let ghost css = cs@;
            let mut p = pos;
            let mut any = false;
            let mut i: usize = 0;
            while i < cs.len()
                invariant
                    *t == BtShape::Parallel(*cs),
                    css == cs@,
                    i <= css.len(),
                    pos <= p <= rs@.len(),
                    head3(run(*t, rs@, pos as int)) == head3(run_par(css, i as int, rs@, p as int, any)),
                decreases css.len() - i,
            {
                proof {
                    assert(decreases_to!(*t => (*t)->Parallel_0));
                    assert(decreases_to!(*cs => cs@));
                    assert(decreases_to!(cs@ => cs@[i as int]));
                }
                let (need, s, e) = step_rec(&cs[i], rs, p);
                if need.is_some() {
                    return (need, s, e);
                }
                if s == BehaviorStatus::Running {
                    any = true;
                }
                p = e;
                i = i + 1;
            }
            (None, parallel_outcome(any), p)
        },
        BtShape::Repeater(c, n) => {
            let mut p = pos;
            let mut any = false;
            let mut k: u32 = *n;
            while k > 0
                invariant
                    *t == BtShape::Repeater(*c, *n),
                    pos <= p <= rs@.len(),
                    head3(run(*t, rs@, pos as int)) == head3(run_rep(**c, k as int, rs@, p as int, any)),
                decreases k,
            {
                let (need, s, e) = step_rec(&**c, rs, p);
                if need.is_some() {
                    return (need, s, e);
                }
                if s == BehaviorStatus::Running {
                    any = true;
                }
                p = e;
                k = k - 1;
            }
            (None, parallel_outcome(any), p)
        },
    }
}

/// One step of walking `tree` when the leaves run so far returned
/// `results`, in order: the next leaf to run, or the outcome once the walk
/// is over (see [`run`]). A caller that runs each named leaf and appends
/// its result runs every leaf of the walk exactly once, in the walk's order
/// (see [`law_step_runs_each_leaf_once`]).
pub fn tree_step(tree: &BtShape, results: &Vec<BehaviorStatus>) -> (a: TreeAction)
    ensures
        a == (match run(*tree, results@, 0).0 {
            Some(id) => TreeAction::RunLeaf(id),
            None => TreeAction::Done(run(*tree, results@, 0).1),
        }),
{
    let (need, s, _) = step_rec(tree, results, 0);
    match need {
        Some(id) => TreeAction::RunLeaf(id),
        None => TreeAction::Done(s),
    }
}

/// The basic facts of a walk started at `pos` (no later than the results
/// given): it uses the results from `pos` up to where it stopped, one per
/// leaf run, and stops for a leaf only once every given result is used.
/// With one more result `x`, a finished walk is unchanged, and a walk that
/// was waiting for leaf `id` has run exactly that leaf next.
pub open spec fn walk_facts(r: WalkState, r2: WalkState, rs: Seq<BehaviorStatus>, pos: int) -> bool {
    &&& pos <= r.2 <= rs.len()
    &&& r.2 - pos == r.3.len()
    &&& (r.0 is Some ==> r.2 == rs.len())
    &&& (r.0 is None ==> r2 == r)
    &&& (r.0 matches Some(id) ==> r2.3 == r.3.push(id))
}

proof fn lemma_run(t: BtShape, rs: Seq<BehaviorStatus>, pos: int, x: BehaviorStatus)
    requires
        0 <= pos <= rs.len(),
    ensures
        walk_facts(run(t, rs, pos), run(t, rs.push(x), pos), rs, pos),
    decreases t, 0int,
{
    match t {
        BtShape::Leaf(id) => {
            if pos < rs.len() {
                assert(rs.push(x)[pos] == rs[pos]);
            } else {
                assert(rs.push(x)[pos] == x);
                assert(seq![id] =~= Seq::<usize>::empty().push(id));
            }
        },
        BtShape::Sequence(cs) => {
            lemma_run_seq(cs@, 0, rs, pos, x);
        },
        BtShape::Selector(cs) => {
            lemma_run_sel(cs@, 0, rs, pos, x);
        },
        BtShape::Parallel(cs) => {
            lemma_run_par(cs@, 0, rs, pos, false, x);
        },
        BtShape::Inverter(c) => {
            lemma_run(*c, rs, pos, x);
        },
        BtShape::Repeater(c, n) => {
            lemma_run_rep(*c, n as int, rs, pos, false, x);
        },
    }
}

proof fn lemma_run_seq(cs: Seq<BtShape>, i: int, rs: Seq<BehaviorStatus>, pos: int, x: BehaviorStatus)
    requires
        0 <= pos <= rs.len(),
    ensures
        walk_facts(run_seq(cs, i, rs, pos), run_seq(cs, i, rs.push(x), pos), rs, pos),
    decreases cs, cs.len() - i,
{
    if 0 <= i < cs.len() {
        let rs2 = rs.push(x);
        lemma_run(cs[i], rs, pos, x);
        lemma_run(cs[i], rs2, pos, x);
        let r1 = run(cs[i], rs, pos);
        let r1b = run(cs[i], rs2, pos);
        if r1.0 is None && r1.1 == BehaviorStatus::Success {
            lemma_run_seq(cs, i + 1, rs, r1.2, x);
            let r2 = run_seq(cs, i + 1, rs, r1.2);
            let r2b = run_seq(cs, i + 1, rs2, r1.2);
            match r2.0 {
                Some(id) => {
                    assert(r1.3 + r2b.3 =~= (r1.3 + r2.3).push(id));
                },
                None => {},
            }
        } else if r1.0 is Some {
            if r1b.0 is None && r1b.1 == BehaviorStatus::Success {
                lemma_run_seq(cs, i + 1, rs2, r1b.2, x);
                let r2b = run_seq(cs, i + 1, rs2, r1b.2);
                assert(r2b.3.len() == 0);
                assert(r1b.3 + r2b.3 =~= r1b.3);
            }
        }
    }
}

proof fn lemma_run_sel(cs: Seq<BtShape>, i: int, rs: Seq<BehaviorStatus>, pos: int, x: BehaviorStatus)
    requires
        0 <= pos <= rs.len(),
    ensures
        walk_facts(run_sel(cs, i, rs, pos), run_sel(cs, i, rs.push(x), pos), rs, pos),
    decreases cs, cs.len() - i,
{
    if 0 <= i < cs.len() {
        let rs2 = rs.push(x);
        lemma_run(cs[i], rs, pos, x);
        lemma_run(cs[i], rs2, pos, x);
        let r1 = run(cs[i], rs, pos);
        let r1b = run(cs[i], rs2, pos);
        if r1.0 is None && r1.1 == BehaviorStatus::Failure {
            lemma_run_sel(cs, i + 1, rs, r1.2, x);
            let r2 = run_sel(cs, i + 1, rs, r1.2);
            let r2b = run_sel(cs, i + 1, rs2, r1.2);
            match r2.0 {
                Some(id) => {
                    assert(r1.3 + r2b.3 =~= (r1.3 + r2.3).push(id));
                },
                None => {},
            }
        } else if r1.0 is Some {
            if r1b.0 is None && r1b.1 == BehaviorStatus::Failure {
                lemma_run_sel(cs, i + 1, rs2, r1b.2, x);
                let r2b = run_sel(cs, i + 1, rs2, r1b.2);
                assert(r2b.3.len() == 0);
                assert(r1b.3 + r2b.3 =~= r1b.3);
            }
        }
    }
}

proof fn lemma_run_par(cs: Seq<BtShape>, i: int, rs: Seq<BehaviorStatus>, pos: int, any: bool, x: BehaviorStatus)
    requires
        0 <= pos <= rs.len(),
    ensures
        walk_facts(run_par(cs, i, rs, pos, any), run_par(cs, i, rs.push(x), pos, any), rs, pos),
    decreases cs, cs.len() - i,
{
    if 0 <= i < cs.len() {
        let rs2 = rs.push(x);
        lemma_run(cs[i], rs, pos, x);
        lemma_run(cs[i], rs2, pos, x);
        let r1 = run(cs[i], rs, pos);
        let r1b = run(cs[i], rs2, pos);
        if r1.0 is None {
            let any2 = any || r1.1 == BehaviorStatus::Running;
            lemma_run_par(cs, i + 1, rs, r1.2, any2, x);
            let r2 = run_par(cs, i + 1, rs, r1.2, any2);
            let r2b = run_par(cs, i + 1, rs2, r1.2, any2);
            match r2.0 {
                Some(id) => {
                    assert(r1.3 + r2b.3 =~= (r1.3 + r2.3).push(id));
                },
                None => {},
            }
        } else if r1.0 is Some {
            if r1b.0 is None {
                let any2 = any || r1b.1 == BehaviorStatus::Running;
                lemma_run_par(cs, i + 1, rs2, r1b.2, any2, x);
                let r2b = run_par(cs, i + 1, rs2, r1b.2, any2);
                assert(r2b.3.len() == 0);
                assert(r1b.3 + r2b.3 =~= r1b.3);
            }
        }
    }
}

proof fn lemma_run_rep(c: BtShape, k: int, rs: Seq<BehaviorStatus>, pos: int, any: bool, x: BehaviorStatus)
    requires
        0 <= pos <= rs.len(),
    ensures
        walk_facts(run_rep(c, k, rs, pos, any), run_rep(c, k, rs.push(x), pos, any), rs, pos),
    decreases c, k,
{
    if k > 0 {
        let rs2 = rs.push(x);
        lemma_run(c, rs, pos, x);
        lemma_run(c, rs2, pos, x);
        let r1 = run(c, rs, pos);
        let r1b = run(c, rs2, pos);
        if r1.0 is None {
            let any2 = any || r1.1 == BehaviorStatus::Running;
            lemma_run_rep(c, k - 1, rs, r1.2, any2, x);
            let r2 = run_rep(c, k - 1, rs, r1.2, any2);
            let r2b = run_rep(c, k - 1, rs2, r1.2, any2);
            match r2.0 {
                Some(id) => {
                    assert(r1.3 + r2b.3 =~= (r1.3 + r2.3).push(id));
                },
                None => {},
            }
        } else if r1.0 is Some {
            if r1b.0 is None {
                let any2 = any || r1b.1 == BehaviorStatus::Running;
                lemma_run_rep(c, k - 1, rs2, r1b.2, any2, x);
                let r2b = run_rep(c, k - 1, rs2, r1b.2, any2);
                assert(r2b.3.len() == 0);
                assert(r1b.3 + r2b.3 =~= r1b.3);
            }
        }
    }
}

/// Stepping through a walk runs every leaf exactly once, in order. After
/// the leaves run so far returned `results`: they were exactly the leaves
/// the walk lists (one per result); when [`tree_step`] names leaf `id` and
/// its result `x` is appended, the walk lists those leaves followed by `id`;
/// and once the walk is done, further results change nothing.
pub proof fn law_step_runs_each_leaf_once(tree: BtShape, results: Seq<BehaviorStatus>, x: BehaviorStatus)
    ensures
        run(tree, results, 0).3.len() == run(tree, results, 0).2,
        run(tree, results, 0).0 is Some ==> run(tree, results, 0).3.len() == results.len(),
        run(tree, results, 0).0 matches Some(id) ==> run(tree, results.push(x), 0).3 == run(
            tree,
            results,
            0,
        ).3.push(id),
        run(tree, results, 0).0 is None ==> run(tree, results.push(x), 0) == run(tree, results, 0),
{
    lemma_run(tree, results, 0, x);
}

/// An inverter of an inverter walks exactly like its child: same leaves,
/// same outcome.
pub proof fn law_inverter_twice(c: BtShape, results: Seq<BehaviorStatus>, pos: int)
    ensures
        run(BtShape::Inverter(Box::new(BtShape::Inverter(Box::new(c)))), results, pos) == run(c, results, pos),
{
    let r = run(c, results, pos);
    let inner = BtShape::Inverter(Box::new(c));
    assert(run(inner, results, pos) == (r.0, spec_invert(r.1), r.2, r.3));
    assert(spec_invert(spec_invert(r.1)) == r.1);
}

/// How many of the results `s` a sequence (`go_on` success) or selector
/// (`go_on` failure) of leaves uses: it goes on past each result equal to
/// `go_on` and stops after the first other one.
pub open spec fn run_count(s: Seq<BehaviorStatus>, go_on: BehaviorStatus) -> nat
    decreases s.len(),
{
    if s.len() == 0 {
        0
    } else if s[0] == go_on {
        1 + run_count(s.drop_first(), go_on)
    } else {
        1
    }
}

proof fn lemma_leaf_children(
    cs: Seq<BtShape>,
    ids: Seq<usize>,
    rs: Seq<BehaviorStatus>,
    pos: int,
    i: int,
    any: bool,
)
    requires
        0 <= i <= cs.len(),
        0 <= pos,
        pos + cs.len() <= rs.len(),
        cs.len() == ids.len(),
        forall|k: int| 0 <= k < cs.len() ==> #[trigger] cs[k] == BtShape::Leaf(ids[k]),
    ensures
        ({
            let s = rs.subrange(pos + i, pos + cs.len());
            &&& run_count(s, BehaviorStatus::Success) <= cs.len() - i
            &&& run_count(s, BehaviorStatus::Failure) <= cs.len() - i
            &&& run_seq(cs, i, rs, pos + i) == (
                None::<usize>,
                sequence_outcome(s),
                pos + i + run_count(s, BehaviorStatus::Success),
                ids.subrange(i, i + run_count(s, BehaviorStatus::Success)),
            )
            &&& run_sel(cs, i, rs, pos + i) == (
                None::<usize>,
                selector_outcome(s),
                pos + i + run_count(s, BehaviorStatus::Failure),
                ids.subrange(i, i + run_count(s, BehaviorStatus::Failure)),
            )
            &&& run_par(cs, i, rs, pos + i, any) == (
                None::<usize>,
                if any || s.contains(BehaviorStatus::Running) {
                    BehaviorStatus::Running
                } else {
                    BehaviorStatus::Success
                },
                pos + cs.len(),
                ids.subrange(i, cs.len() as int),
            )
        }),
    decreases cs.len() - i,
{
    let s = rs.subrange(pos + i, pos + cs.len());
    if i < cs.len() {
        let any2 = any || rs[pos + i] == BehaviorStatus::Running;
        lemma_leaf_children(cs, ids, rs, pos, i + 1, any2);
        let s2 = rs.subrange(pos + i + 1, pos + cs.len());
        assert(s.drop_first() =~= s2);
        assert(s[0] == rs[pos + i]);
        assert(cs[i] == BtShape::Leaf(ids[i]));
        assert(run(cs[i], rs, pos + i) == (None::<usize>, rs[pos + i], pos + i + 1, seq![ids[i]]));
        assert(pos + (i + 1) == pos + i + 1);
        let cs_ = run_count(s2, BehaviorStatus::Success);
        let cf_ = run_count(s2, BehaviorStatus::Failure);
        assert(seq![ids[i]] + ids.subrange(i + 1, i + 1 + cs_) =~= ids.subrange(i, i + 1 + cs_));
        assert(seq![ids[i]] + ids.subrange(i + 1, i + 1 + cf_) =~= ids.subrange(i, i + 1 + cf_));
        assert(seq![ids[i]] + ids.subrange(i + 1, cs.len() as int) =~= ids.subrange(i, cs.len() as int));
        assert(ids.subrange(i, i + 1) =~= seq![ids[i]]);
        assert(s.contains(BehaviorStatus::Running) <==> (s[0] == BehaviorStatus::Running || s2.contains(
            BehaviorStatus::Running,
        ))) by {
            if s.contains(BehaviorStatus::Running) {
                let j = choose|j: int| 0 <= j < s.len() && s[j] == BehaviorStatus::Running;
                if j > 0 {
                    assert(s2[j - 1] == s[j]);
                }
            }
            if s2.contains(BehaviorStatus::Running) {
                let j = choose|j: int| 0 <= j < s2.len() && s2[j] == BehaviorStatus::Running;
                assert(s[j + 1] == s2[j]);
            }
        }
    } else {
        assert(s.len() == 0);
        assert(ids.subrange(i, i) =~= Seq::<usize>::empty());
        assert(!s.contains(BehaviorStatus::Running));
    }
}

/// Walking a sequence, selector or parallel node whose children are the
/// leaves `ids`, with a result for every leaf from run `pos` on: a sequence
/// runs its leaves in order up to and including the first that does not
/// succeed and gives `sequence_outcome` of the results; a selector runs
/// them up to and including the first that does not fail and gives
/// `selector_outcome`; a parallel node runs every leaf once, in order, and
/// is running exactly when some leaf was running, else successful.
pub proof fn law_leaf_children_walk(cs: Seq<BtShape>, ids: Seq<usize>, rs: Seq<BehaviorStatus>, pos: int)
    requires
        0 <= pos,
        pos + cs.len() <= rs.len(),
        cs.len() == ids.len(),
        forall|k: int| 0 <= k < cs.len() ==> #[trigger] cs[k] == BtShape::Leaf(ids[k]),
    ensures
        ({
            let s = rs.subrange(pos, pos + cs.len());
            &&& run_seq(cs, 0, rs, pos) == (
                None::<usize>,
                sequence_outcome(s),
                pos + run_count(s, BehaviorStatus::Success),
                ids.take(run_count(s, BehaviorStatus::Success) as int),
            )
            &&& run_sel(cs, 0, rs, pos) == (
                None::<usize>,
                selector_outcome(s),
                pos + run_count(s, BehaviorStatus::Failure),
                ids.take(run_count(s, BehaviorStatus::Failure) as int),
            )
            &&& run_par(cs, 0, rs, pos, false) == (
                None::<usize>,
                if s.contains(BehaviorStatus::Running) {
                    BehaviorStatus::Running
                } else {
                    BehaviorStatus::Success
                },
                pos + cs.len(),
                ids,
            )
        }),
{
    lemma_leaf_children(cs, ids, rs, pos, 0, false);
    let s = rs.subrange(pos, pos + cs.len());
    assert(pos + 0 == pos);
    assert(ids.subrange(0, run_count(s, BehaviorStatus::Success) as int) =~= ids.take(
        run_count(s, BehaviorStatus::Success) as int,
    ));
    assert(ids.subrange(0, run_count(s, BehaviorStatus::Failure) as int) =~= ids.take(
        run_count(s, BehaviorStatus::Failure) as int,
    ));
    assert(ids.subrange(0, cs.len() as int) =~= ids);
}

proof fn lemma_repeat_leaf(id: usize, k: int, rs: Seq<BehaviorStatus>, pos: int, any: bool)
    requires
        0 <= k,
        0 <= pos,
        pos + k <= rs.len(),
    ensures
        run_rep(BtShape::Leaf(id), k, rs, pos, any) == (
            None::<usize>,
            if any || rs.subrange(pos, pos + k).contains(BehaviorStatus::Running) {
                BehaviorStatus::Running
            } else {
                BehaviorStatus::Success
            },
            pos + k,
            Seq::new(k as nat, |j: int| id),
        ),
    decreases k,
{
    let s = rs.subrange(pos, pos + k);
    if k > 0 {
        let any2 = any || rs[pos] == BehaviorStatus::Running;
        lemma_repeat_leaf(id, k - 1, rs, pos + 1, any2);
        let s2 = rs.subrange(pos + 1, pos + 1 + (k - 1));
        assert(run(BtShape::Leaf(id), rs, pos) == (None::<usize>, rs[pos], pos + 1, seq![id]));
        assert(seq![id] + Seq::new((k - 1) as nat, |j: int| id) =~= Seq::new(k as nat, |j: int| id));
        assert(pos + 1 + (k - 1) == pos + k);
        assert(s.contains(BehaviorStatus::Running) <==> (rs[pos] == BehaviorStatus::Running || s2.contains(
            BehaviorStatus::Running,
        ))) by {
            if s.contains(BehaviorStatus::Running) {
                let j = choose|j: int| 0 <= j < s.len() && s[j] == BehaviorStatus::Running;
                if j > 0 {
                    assert(s2[j - 1] == s[j]);
                } else {
                    assert(s[0] == rs[pos]);
                }
            }
            if s2.contains(BehaviorStatus::Running) {
                let j = choose|j: int| 0 <= j < s2.len() && s2[j] == BehaviorStatus::Running;
                assert(s[j + 1] == s2[j]);
            }
            if rs[pos] == BehaviorStatus::Running {
                assert(s[0] == rs[pos]);
            }
        }
    } else {
        assert(s.len() == 0);
        assert(!s.contains(BehaviorStatus::Running));
        assert(Seq::new(0, |j: int| id) =~= Seq::<usize>::empty());
    }
}

/// A repeater over leaf `id` with count `n`, given a result for each run
/// from `pos` on, runs the leaf `n` times in a row and is running exactly
/// when some run was running, else successful.
pub proof fn law_repeater_of_leaf(id: usize, n: u32, rs: Seq<BehaviorStatus>, pos: int)
    requires
        0 <= pos,
        pos + n <= rs.len(),
    ensures
        run(BtShape::Repeater(Box::new(BtShape::Leaf(id)), n), rs, pos) == (
            None::<usize>,
            if rs.subrange(pos, pos + n).contains(BehaviorStatus::Running) {
                BehaviorStatus::Running
            } else {
                BehaviorStatus::Success
            },
            pos + n,
            Seq::new(n as nat, |j: int| id),
        ),
{
    lemma_repeat_leaf(id, n as int, rs, pos, false);
}

/// Whether some leaf run from `a` up to `b` returned running.
pub open spec fn some_running(rs: Seq<BehaviorStatus>, a: int, b: int) -> bool {
    exists|k: int| a <= k < b && #[trigger] rs[k] == BehaviorStatus::Running
}

proof fn lemma_some_running_split(rs: Seq<BehaviorStatus>, a: int, b: int, c: int)
    requires
        a <= b <= c,
    ensures
        some_running(rs, a, c) <==> (some_running(rs, a, b) || some_running(rs, b, c)),
{
    if some_running(rs, a, c) {
        let k = choose|k: int| a <= k < c && #[trigger] rs[k] == BehaviorStatus::Running;
        if k < b {
            assert(a <= k < b && rs[k] == BehaviorStatus::Running);
        } else {
            assert(b <= k < c && rs[k] == BehaviorStatus::Running);
        }
    }
    if some_running(rs, a, b) {
        let k = choose|k: int| a <= k < b && #[trigger] rs[k] == BehaviorStatus::Running;
        assert(a <= k < c && rs[k] == BehaviorStatus::Running);
    }
    if some_running(rs, b, c) {
        let k = choose|k: int| b <= k < c && #[trigger] rs[k] == BehaviorStatus::Running;
        assert(a <= k < c && rs[k] == BehaviorStatus::Running);
    }
}

proof fn lemma_running_run(t: BtShape, rs: Seq<BehaviorStatus>, pos: int)
    requires
        0 <= pos <= rs.len(),
    ensures
        run(t, rs, pos).0 is None ==> (run(t, rs, pos).1 == BehaviorStatus::Running <==> some_running(
            rs,
            pos,
            run(t, rs, pos).2,
        )),
    decreases t, 0int,
{
    match t {
        BtShape::Leaf(id) => {
            if pos < rs.len() {
                if rs[pos] == BehaviorStatus::Running {
                    assert(pos <= pos < pos + 1 && rs[pos] == BehaviorStatus::Running);
                }
            }
        },
        BtShape::Sequence(cs) => {
            lemma_running_seq(cs@, 0, rs, pos);
        },
        BtShape::Selector(cs) => {
            lemma_running_sel(cs@, 0, rs, pos);
        },
        BtShape::Parallel(cs) => {
            lemma_running_par(cs@, 0, rs, pos, false);
        },
        BtShape::Inverter(c) => {
            lemma_running_run(*c, rs, pos);
        },
        BtShape::Repeater(c, n) => {
            lemma_running_rep(*c, n as int, rs, pos, false);
        },
    }
}

proof fn lemma_running_seq(cs: Seq<BtShape>, i: int, rs: Seq<BehaviorStatus>, pos: int)
    requires
        0 <= pos <= rs.len(),
    ensures
        run_seq(cs, i, rs, pos).0 is None ==> (run_seq(cs, i, rs, pos).1 == BehaviorStatus::Running
            <==> some_running(rs, pos, run_seq(cs, i, rs, pos).2)),
    decreases cs, cs.len() - i,
{
    if 0 <= i < cs.len() {
        lemma_running_run(cs[i], rs, pos);
        lemma_run(cs[i], rs, pos, BehaviorStatus::Success);
        let r1 = run(cs[i], rs, pos);
        if r1.0 is None && r1.1 == BehaviorStatus::Success {
            lemma_running_seq(cs, i + 1, rs, r1.2);
            lemma_run_seq(cs, i + 1, rs, r1.2, BehaviorStatus::Success);
            lemma_some_running_split(rs, pos, r1.2, run_seq(cs, i + 1, rs, r1.2).2);
        }
    }
}

proof fn lemma_running_sel(cs: Seq<BtShape>, i: int, rs: Seq<BehaviorStatus>, pos: int)
    requires
        0 <= pos <= rs.len(),
    ensures
        run_sel(cs, i, rs, pos).0 is None ==> (run_sel(cs, i, rs, pos).1 == BehaviorStatus::Running
            <==> some_running(rs, pos, run_sel(cs, i, rs, pos).2)),
    decreases cs, cs.len() - i,
{
    if 0 <= i < cs.len() {
        lemma_running_run(cs[i], rs, pos);
        lemma_run(cs[i], rs, pos, BehaviorStatus::Success);
        let r1 = run(cs[i], rs, pos);
        if r1.0 is None && r1.1 == BehaviorStatus::Failure {
            lemma_running_sel(cs, i + 1, rs, r1.2);
            lemma_run_sel(cs, i + 1, rs, r1.2, BehaviorStatus::Success);
            lemma_some_running_split(rs, pos, r1.2, run_sel(cs, i + 1, rs, r1.2).2);
        }
    }
}

proof fn lemma_running_par(cs: Seq<BtShape>, i: int, rs: Seq<BehaviorStatus>, pos: int, any: bool)
    requires
        0 <= pos <= rs.len(),
    ensures
        run_par(cs, i, rs, pos, any).0 is None ==> {
            &&& (run_par(cs, i, rs, pos, any).1 == BehaviorStatus::Running <==> (any || some_running(
                rs,
                pos,
                run_par(cs, i, rs, pos, any).2,
            )))
            &&& run_par(cs, i, rs, pos, any).1 != BehaviorStatus::Failure
        },
    decreases cs, cs.len() - i,
{
    if 0 <= i < cs.len() {
        lemma_running_run(cs[i], rs, pos);
        lemma_run(cs[i], rs, pos, BehaviorStatus::Success);
        let r1 = run(cs[i], rs, pos);
        if r1.0 is None {
            let any2 = any || r1.1 == BehaviorStatus::Running;
            lemma_running_par(cs, i + 1, rs, r1.2, any2);
            lemma_run_par(cs, i + 1, rs, r1.2, any2, BehaviorStatus::Success);
            lemma_some_running_split(rs, pos, r1.2, run_par(cs, i + 1, rs, r1.2, any2).2);
        }
    } else {
        assert(!some_running(rs, pos, pos));
    }
}

proof fn lemma_running_rep(c: BtShape, k: int, rs: Seq<BehaviorStatus>, pos: int, any: bool)
    requires
        0 <= pos <= rs.len(),
    ensures
        run_rep(c, k, rs, pos, any).0 is None ==> {
            &&& (run_rep(c, k, rs, pos, any).1 == BehaviorStatus::Running <==> (any || some_running(
                rs,
                pos,
                run_rep(c, k, rs, pos, any).2,
            )))
            &&& run_rep(c, k, rs, pos, any).1 != BehaviorStatus::Failure
        },
    decreases c, k,
{
    if k > 0 {
        lemma_running_run(c, rs, pos);
        lemma_run(c, rs, pos, BehaviorStatus::Success);
        let r1 = run(c, rs, pos);
        if r1.0 is None {
            let any2 = any || r1.1 == BehaviorStatus::Running;
            lemma_running_rep(c, k - 1, rs, r1.2, any2);
            lemma_run_rep(c, k - 1, rs, r1.2, any2, BehaviorStatus::Success);
            lemma_some_running_split(rs, pos, r1.2, run_rep(c, k - 1, rs, r1.2, any2).2);
        }
    } else {
        assert(!some_running(rs, pos, pos));
    }
}

/// A finished walk of any tree is running exactly when one of the leaves it
/// ran returned running: no node turns a success or failure into running,
/// and none hides a running leaf.
pub proof fn law_running_iff_running_leaf(t: BtShape, rs: Seq<BehaviorStatus>, pos: int)
    requires
        0 <= pos <= rs.len(),
    ensures
        run(t, rs, pos).0 is None ==> (run(t, rs, pos).1 == BehaviorStatus::Running <==> some_running(
            rs,
            pos,
            run(t, rs, pos).2,
        )),
{
    lemma_running_run(t, rs, pos);
}

/// A finished walk of a parallel node never fails, whatever its children
/// (leaves or composites) returned; it is running exactly when one of its
/// leaves returned running, else it succeeds.
pub proof fn law_parallel_outcome(cs: Seq<BtShape>, rs: Seq<BehaviorStatus>, pos: int)
    requires
        0 <= pos <= rs.len(),
    ensures
        run_par(cs, 0, rs, pos, false).0 is None ==> {
            &&& run_par(cs, 0, rs, pos, false).1 != BehaviorStatus::Failure
            &&& (run_par(cs, 0, rs, pos, false).1 == BehaviorStatus::Running <==> some_running(
                rs,
                pos,
                run_par(cs, 0, rs, pos, false).2,
            ))
        },
{
    lemma_running_par(cs, 0, rs, pos, false);
}

} // verus!
