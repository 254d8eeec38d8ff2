//! Animation playback control and the animation state machine.
//!
//! Times, speeds and blend durations are `f32` values in the engine; here
//! they are carried by their bit patterns (`f32::to_bits`). The bit pattern
//! of `0.0` is `0` and that of `1.0` is `0x3F80_0000`.

use vstd::prelude::*;

verus! {

/// Bit pattern of the `f32` value `1.0`.
pub const ONE_F32_BITS: u32 = 0x3F80_0000u32;

/// Whether an animation player is running.
#[derive(Clone, Copy, Debug, PartialEq, Eq, Hash, Structural)]
pub enum PlaybackState {
    Stopped,
    Playing,
    Paused,
}

impl Default for PlaybackState {
    fn default() -> (s: Self)
        ensures
            s == PlaybackState::Stopped,
    {
        PlaybackState::Stopped
    }
}

/// Plays one animation clip on an entity.
#[derive(Clone, Copy, Debug, PartialEq, Eq, Structural)]
pub struct AnimationPlayer {
    /// Index of the clip being played, if any.
    pub clip_index: Option<usize>,
    /// Playback state.
    pub state: PlaybackState,
    /// Bit pattern of the `f32` playback time in seconds.
    pub current_time_bits: u32,
    /// Bit pattern of the `f32` speed factor (1.0 is normal speed).
    pub speed_bits: u32,
    /// Whether playback wraps around at the end.
    pub looping: bool,
    /// Whether playback stops by itself at the end.
    pub auto_stop: bool,
}

impl Default for AnimationPlayer {
    /// Stopped, no clip, time 0, speed 1, not looping, stopping at the end.
    fn default() -> (p: Self)
        ensures
            p == (AnimationPlayer {
                clip_index: None,
                state: PlaybackState::Stopped,
                current_time_bits: 0,
                speed_bits: ONE_F32_BITS,
                looping: false,
                auto_stop: true,
            }),
    {
        AnimationPlayer {
            clip_index: None,
            state: PlaybackState::Stopped,
            current_time_bits: 0,
            speed_bits: ONE_F32_BITS,
            looping: false,
            auto_stop: true,
        }
    }
}

impl AnimationPlayer {
    /// A default player.
    pub fn new() -> (p: Self)
        ensures
            p == (AnimationPlayer {
                clip_index: None,
                state: PlaybackState::Stopped,
                current_time_bits: 0,
                speed_bits: ONE_F32_BITS,
                looping: false,
                auto_stop: true,
            }),
    {
        AnimationPlayer::default()
    }

    /// Starts `clip_index` from time 0.
    pub fn play(&mut self, clip_index: usize) -> (r: &mut Self)
        ensures
            *r == (AnimationPlayer {
                clip_index: Some(clip_index),
                state: PlaybackState::Playing,
                current_time_bits: 0,
                ..*old(self)
            }),
            *final(self) == *final(r),
    {
        self.clip_index = Some(clip_index);
        self.state = PlaybackState::Playing;
        self.current_time_bits = 0;
        self
    }

    /// Starts `clip_index` from time 0, looping.
    pub fn play_looping(&mut self, clip_index: usize) -> (r: &mut Self)
        ensures
            *r == (AnimationPlayer {
                clip_index: Some(clip_index),
                state: PlaybackState::Playing,
                current_time_bits: 0,
                looping: true,
                ..*old(self)
            }),
            *final(self) == *final(r),
    {
        self.play(clip_index);
        self.looping = true;
        self
    }

    /// Pauses a playing player; any other state is left alone.
    pub fn pause(&mut self) -> (r: &mut Self)
        ensures
            *r == (if old(self).state == PlaybackState::Playing {
                AnimationPlayer { state: PlaybackState::Paused, ..*old(self) }
            } else {
                *old(self)
            }),
            *final(self) == *final(r),
    {
        if self.state == PlaybackState::Playing {
            self.state = PlaybackState::Paused;
        }
        self
    }

    /// Resumes a paused player; any other state is left alone.
    pub fn resume(&mut self) -> (r: &mut Self)
        ensures
            *r == (if old(self).state == PlaybackState::Paused {
                AnimationPlayer { state: PlaybackState::Playing, ..*old(self) }
            } else {
                *old(self)
            }),
            *final(self) == *final(r),
    {
        if self.state == PlaybackState::Paused {
            self.state = PlaybackState::Playing;
        }
        self
    }

    /// Stops and rewinds to time 0.
    pub fn stop(&mut self) -> (r: &mut Self)
        ensures
            *r == (AnimationPlayer { state: PlaybackState::Stopped, current_time_bits: 0, ..*old(self) }),
            *final(self) == *final(r),
    {
        self.state = PlaybackState::Stopped;
        self.current_time_bits = 0;
        self
    }

    /// Sets the speed factor (given by its `f32` bit pattern).
    pub fn set_speed(&mut self, speed_bits: u32) -> (r: &mut Self)
        ensures
            *r == (AnimationPlayer { speed_bits, ..*old(self) }),
            *final(self) == *final(r),
    {
        self.speed_bits = speed_bits;
        self
    }

    /// Whether the player is playing.
    pub fn is_playing(&self) -> (b: bool)
        ensures
            b == (self.state == PlaybackState::Playing),
    {
        self.state == PlaybackState::Playing
    }

    /// Whether the player is paused.
    pub fn is_paused(&self) -> (b: bool)
        ensures
            b == (self.state == PlaybackState::Paused),
    {
        self.state == PlaybackState::Paused
    }

    /// Whether the player is stopped.
    pub fn is_stopped(&self) -> (b: bool)
        ensures
            b == (self.state == PlaybackState::Stopped),
    {
        self.state == PlaybackState::Stopped
    }

    /// Playback has reached the end of a clip (`clip_looping` tells whether
    /// the clip itself loops). If the player or the clip loops, playback
    /// wraps around and goes on; otherwise it has finished, which is
    /// returned, and a player that stops by itself becomes stopped. The
    /// playback time is left to the caller.
    pub fn reach_end(&mut self, clip_looping: bool) -> (finished: bool)
        ensures
            finished == !(old(self).looping || clip_looping),
            *final(self) == (if finished && old(self).auto_stop {
                AnimationPlayer { state: PlaybackState::Stopped, ..*old(self) }
            } else {
                *old(self)
            }),
    {
        if self.looping || clip_looping {
            false
        } else {
            if self.auto_stop {
                self.state = PlaybackState::Stopped;
            }
            true
        }
    }
}

/// The state after pausing.
pub open spec fn paused(s: PlaybackState) -> PlaybackState {
    if s == PlaybackState::Playing {
        PlaybackState::Paused
    } else {
        s
    }
}

/// The state after resuming.
pub open spec fn resumed(s: PlaybackState) -> PlaybackState {
    if s == PlaybackState::Paused {
        PlaybackState::Playing
    } else {
        s
    }
}

/// Pausing and then resuming a playing or stopped player returns it to that
/// state (a paused one ends up playing); resuming a player that is not
/// paused changes nothing, and stopping is never undone by resuming.
pub proof fn law_pause_resume(s: PlaybackState)
    ensures
        resumed(paused(s)) == (if s == PlaybackState::Paused { PlaybackState::Playing } else { s }),
        s != PlaybackState::Paused ==> resumed(s) == s,
        resumed(PlaybackState::Stopped) == PlaybackState::Stopped,
        paused(paused(s)) == paused(s),
{
}

/// A state of the animation state machine.
#[derive(Clone, Copy, Debug, PartialEq, Eq, Hash, Structural)]
pub enum AnimationState {
    Idle,
    Walk,
    Run,
    Attack,
    Hit,
    Die,
    Custom(u32),
}

impl Default for AnimationState {
    fn default() -> (s: Self)
        ensures
            s == AnimationState::Idle,
    {
        AnimationState::Idle
    }
}

/// How a tween or clip repeats.
#[derive(Clone, Copy, Debug, PartialEq, Eq, Hash, Structural)]
pub enum LoopMode {
    Once,
    Loop,
    PingPong,
}

impl Default for LoopMode {
    fn default() -> (m: Self)
        ensures
            m == LoopMode::Once,
    {
        LoopMode::Once
    }
}

/// The clip and playback settings of one state.
#[derive(Clone, Debug)]
pub struct AnimationStateConfig {
    /// Name of the clip played in this state.
    pub clip_name: String,
    pub loop_mode: LoopMode,
    /// Bit pattern of the `f32` playback speed.
    pub speed_bits: u32,
}

/// When a state transition fires.
#[derive(Clone, Copy, Debug, PartialEq, Eq, Structural)]
pub enum TransitionCondition {
    /// At once.
    Immediate,
    /// When the current clip ends.
    OnClipEnd,
    /// After the given time (bit pattern of an `f32` number of seconds).
    AfterSeconds(u32),
}

/// A transition rule between two states.
#[derive(Clone, Copy, Debug, PartialEq, Eq, Structural)]
pub struct AnimationTransition {
    pub from: AnimationState,
    pub to: AnimationState,
    pub condition: TransitionCondition,
    /// Bit pattern of the `f32` blend time in seconds.
    pub blend_duration_bits: u32,
}

/// The states configured in `entries`, each state keeping its last configuration.
pub open spec fn config_map(entries: Seq<(AnimationState, AnimationStateConfig)>) -> Map<
    AnimationState,
    AnimationStateConfig,
>
    decreases entries.len(),
{
    if entries.len() == 0 {
        Map::empty()
    } else {
        let last = entries.last();
        config_map(entries.drop_last()).insert(last.0, last.1)
    }
}

/// Position of the last entry for state `s` in `entries`, or -1 if none.
pub open spec fn last_pos(entries: Seq<(AnimationState, AnimationStateConfig)>, s: AnimationState) -> int
    decreases entries.len(),
{
    if entries.len() == 0 {
        -1
    } else if entries.last().0 == s {
        entries.len() - 1
    } else {
        last_pos(entries.drop_last(), s)
    }
}

/// `entries` with the configuration of `s` set to `c`: the entry for `s` is
/// replaced in place if there is one, else a new entry is appended.
pub open spec fn with_config(
    entries: Seq<(AnimationState, AnimationStateConfig)>,
    s: AnimationState,
    c: AnimationStateConfig,
) -> Seq<(AnimationState, AnimationStateConfig)> {
    let p = last_pos(entries, s);
    if p < 0 {
        entries.push((s, c))
    } else {
        entries.update(p, (s, c))
    }
}

/// No state has two entries.
pub open spec fn unique_states(entries: Seq<(AnimationState, AnimationStateConfig)>) -> bool {
    forall|i: int, j: int|
        0 <= i < entries.len() && 0 <= j < entries.len() && i != j ==> #[trigger] entries[i].0
            != #[trigger] entries[j].0
}

proof fn lemma_last_pos_found(entries: Seq<(AnimationState, AnimationStateConfig)>, i: int, s: AnimationState)
    requires
        0 <= i < entries.len(),
        entries[i].0 == s,
        forall|j: int| i < j < entries.len() ==> (#[trigger] entries[j]).0 != s,
    ensures
        last_pos(entries, s) == i,
    decreases entries.len(),
{
    if i < entries.len() - 1 {
        let rest = entries.drop_last();
        assert forall|j: int| i < j < rest.len() implies (#[trigger] rest[j]).0 != s by {
            assert(rest[j] == entries[j]);
        }
        lemma_last_pos_found(rest, i, s);
        assert(entries.last() == entries[entries.len() - 1]);
    }
}

proof fn lemma_last_pos_absent(entries: Seq<(AnimationState, AnimationStateConfig)>, s: AnimationState)
    requires
        forall|j: int| 0 <= j < entries.len() ==> (#[trigger] entries[j]).0 != s,
    ensures
        last_pos(entries, s) == -1,
    decreases entries.len(),
{
    if entries.len() > 0 {
        let rest = entries.drop_last();
        assert forall|j: int| 0 <= j < rest.len() implies (#[trigger] rest[j]).0 != s by {
            assert(rest[j] == entries[j]);
        }
        lemma_last_pos_absent(rest, s);
        assert(entries.last() == entries[entries.len() - 1]);
    }
}

proof fn lemma_last_pos_bounds(entries: Seq<(AnimationState, AnimationStateConfig)>, s: AnimationState)
    ensures
        -1 <= last_pos(entries, s) < entries.len(),
        last_pos(entries, s) >= 0 ==> entries[last_pos(entries, s)].0 == s,
        last_pos(entries, s) < 0 ==> forall|j: int| 0 <= j < entries.len() ==> (#[trigger] entries[j]).0 != s,
    decreases entries.len(),
{
    if entries.len() > 0 {
        let rest = entries.drop_last();
        lemma_last_pos_bounds(rest, s);
        if entries.last().0 != s {
            assert forall|j: int| 0 <= j < entries.len() && last_pos(entries, s) < 0 implies (#[trigger] entries[j]).0
                != s by {
                if j < rest.len() {
                    assert(rest[j] == entries[j]);
                }
            }
            if last_pos(rest, s) >= 0 {
                assert(rest[last_pos(rest, s)] == entries[last_pos(rest, s)]);
            }
        }
    }
}

proof fn lemma_config_replace(
    entries: Seq<(AnimationState, AnimationStateConfig)>,
    s: AnimationState,
    c: AnimationStateConfig,
)
    requires
        last_pos(entries, s) >= 0,
    ensures
        config_map(entries.update(last_pos(entries, s), (s, c))) == config_map(entries).insert(s, c),
    decreases entries.len(),
{
    lemma_last_pos_bounds(entries, s);
    let p = last_pos(entries, s);
    let e2 = entries.update(p, (s, c));
    let rest = entries.drop_last();
    if p == entries.len() - 1 {
        assert(e2.drop_last() =~= rest);
        assert(e2.last() == (s, c));
        assert(config_map(e2) =~= config_map(entries).insert(s, c));
    } else {
        assert(last_pos(rest, s) == p);
        lemma_config_replace(rest, s, c);
        assert(e2.drop_last() =~= rest.update(p, (s, c)));
        assert(e2.last() == entries.last());
        assert(entries.last().0 != s);
        assert(config_map(e2) =~= config_map(entries).insert(s, c));
    }
}

/// The animation state machine of an entity.
#[derive(Clone, Debug)]
pub struct AnimationStateMachine {
    /// The state being played.
    pub current_state: AnimationState,
    /// State configurations. [`AnimationStateMachine::with_state`] keeps at
    /// most one entry per state; should a state have several, its last entry counts.
    pub states: Vec<(AnimationState, AnimationStateConfig)>,
    /// Transition rules, in the order added.
    pub transitions: Vec<AnimationTransition>,
    /// Bit pattern of the `f32` time spent in the current state.
    pub state_time_bits: u32,
}

impl AnimationStateMachine {
    /// The configured states.
    pub open spec fn states(&self) -> Map<AnimationState, AnimationStateConfig> {
        config_map(self.states@)
    }

    /// Idle, with no states or transitions and time 0.
    pub fn new() -> (m: Self)
        ensures
            m.current_state == AnimationState::Idle,
            m.states() == Map::<AnimationState, AnimationStateConfig>::empty(),
            m.states@.len() == 0,
            m.transitions@.len() == 0,
            m.state_time_bits == 0,
    {
        AnimationStateMachine {
            current_state: AnimationState::Idle,
            states: Vec::new(),
            transitions: Vec::new(),
            state_time_bits: 0,
        }
    }

    /// Adds the configuration of `state`, replacing its entry in place if it
    /// has one; a machine without repeated states keeps none.
    pub fn with_state(self, state: AnimationState, config: AnimationStateConfig) -> (m: Self)
        ensures
            m.states@ == with_config(self.states@, state, config),
            m.states() == self.states().insert(state, config),
            unique_states(self.states@) ==> unique_states(m.states@),
            m.current_state == self.current_state,
            m.transitions == self.transitions,
            m.state_time_bits == self.state_time_bits,
    {
        let mut m = self;
        let ghost before = m.states@;
        let n = m.states.len();
        let mut i = n;
        while i > 0
            invariant
                i <= n,
                n == m.states@.len(),
                m.states@ == before,
                before == self.states@,
                m.current_state == self.current_state,
                m.transitions == self.transitions,
                m.state_time_bits == self.state_time_bits,
                forall|j: int| i <= j < n ==> (#[trigger] m.states@[j]).0 != state,
            decreases i,
        {
            i = i - 1;
            if m.states[i].0 == state {
                proof {
                    lemma_last_pos_found(before, i as int, state);
                    lemma_config_replace(before, state, config);
                }
                m.states.set(i, (state, config));
                assert(m.states@ =~= before.update(i as int, (state, config)));
                proof {
                    assert forall|a: int, b: int|
                        0 <= a < m.states@.len() && 0 <= b < m.states@.len() && a != b && unique_states(before)
                        implies #[trigger] m.states@[a].0 != #[trigger] m.states@[b].0 by {
                        assert(m.states@[a].0 == before[a].0);
                        assert(m.states@[b].0 == before[b].0);
                    }
                }
                return m;
            }
        }
        proof {
            lemma_last_pos_absent(before, state);
        }
        m.states.push((state, config));
        assert(m.states@.drop_last() == before);
        proof {
            assert forall|a: int, b: int|
                0 <= a < m.states@.len() && 0 <= b < m.states@.len() && a != b && unique_states(before)
                implies #[trigger] m.states@[a].0 != #[trigger] m.states@[b].0 by {
                if a < before.len() {
                    assert(m.states@[a] == before[a]);
                }
                if b < before.len() {
                    assert(m.states@[b] == before[b]);
                }
            }
        }
        m
    }

    /// Appends a transition rule.
    pub fn with_transition(self, transition: AnimationTransition) -> (m: Self)
        ensures
            m.transitions@ == self.transitions@.push(transition),
            m.states() == self.states(),
            m.current_state == self.current_state,
            m.state_time_bits == self.state_time_bits,
    {
        let mut m = self;
        m.transitions.push(transition);
        m
    }

    /// Switches to `new_state`, restarting the state time, unless already in it.
    pub fn transition_to(&mut self, new_state: AnimationState)
        ensures
            final(self).current_state == new_state,
            final(self).state_time_bits == (if old(self).current_state != new_state {
                0
            } else {
                old(self).state_time_bits
            }),
            final(self).states() == old(self).states(),
            final(self).transitions == old(self).transitions,
    {
        if self.current_state != new_state {
            self.current_state = new_state;
            self.state_time_bits = 0;
        }
    }

    /// The configuration of the current state, if it has one.
    pub fn current_config(&self) -> (c: Option<&AnimationStateConfig>)
        ensures
            match c {
                Some(cfg) => self.states().contains_key(self.current_state) && *cfg == self.states()[self.current_state],
                None => !self.states().contains_key(self.current_state),
            },
    {
        let n = self.states.len();
        let mut i = n;
        while i > 0
            invariant
                i <= n,
                n == self.states@.len(),
                forall|j: int| i <= j < n ==> (#[trigger] self.states@[j]).0 != self.current_state,
            decreases i,
        {
            i = i - 1;
            if self.states[i].0 == self.current_state {
                proof {
                    lemma_config_map_last(self.states@, i as int, self.current_state);
                }
                return Some(&self.states[i].1);
            }
        }
        proof {
            lemma_config_map_absent(self.states@, self.current_state);
        }
        None
    }
}

proof fn lemma_config_map_last(entries: Seq<(AnimationState, AnimationStateConfig)>, i: int, s: AnimationState)
    requires
        0 <= i < entries.len(),
        entries[i].0 == s,
        forall|j: int| i < j < entries.len() ==> (#[trigger] entries[j]).0 != s,
    ensures
        config_map(entries).contains_key(s),
        config_map(entries)[s] == entries[i].1,
    decreases entries.len(),
{
    if i < entries.len() - 1 {
        let rest = entries.drop_last();
        assert forall|j: int| i < j < rest.len() implies (#[trigger] rest[j]).0 != s by {
            assert(rest[j] == entries[j]);
        }
        lemma_config_map_last(rest, i, s);
        assert(entries.last().0 != s);
    }
}

proof fn lemma_config_map_absent(entries: Seq<(AnimationState, AnimationStateConfig)>, s: AnimationState)
    requires
        forall|j: int| 0 <= j < entries.len() ==> (#[trigger] entries[j]).0 != s,
    ensures
        !config_map(entries).contains_key(s),
    decreases entries.len(),
{
    if entries.len() > 0 {
        let rest = entries.drop_last();
        assert forall|j: int| 0 <= j < rest.len() implies (#[trigger] rest[j]).0 != s by {
            assert(rest[j] == entries[j]);
        }
        lemma_config_map_absent(rest, s);
        assert(entries.last() == entries[entries.len() - 1]);
    }
}

/// The configuration that `current_config` gives after `with_state(s, cfg)`
/// and `transition_to(s)` is `cfg`, the last one given for `s`, whatever
/// was configured before; other states keep theirs.
pub proof fn law_configured_state_is_current(
    states: Map<AnimationState, AnimationStateConfig>,
    s: AnimationState,
    cfg: AnimationStateConfig,
    other: AnimationState,
)
    ensures
        states.insert(s, cfg).contains_key(s),
        states.insert(s, cfg)[s] == cfg,
        other != s ==> (states.insert(s, cfg).contains_key(other) == states.contains_key(other)),
        other != s && states.contains_key(other) ==> states.insert(s, cfg)[other] == states[other],
{
}

impl Default for AnimationStateMachine {
    fn default() -> (m: Self)
        ensures
            m.current_state == AnimationState::Idle,
            m.states() == Map::<AnimationState, AnimationStateConfig>::empty(),
            m.transitions@.len() == 0,
            m.state_time_bits == 0,
    {
        AnimationStateMachine::new()
    }
}

} // verus!
