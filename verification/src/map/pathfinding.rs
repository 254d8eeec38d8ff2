//! Following a path of tiles one waypoint at a time.

use vstd::prelude::*;

verus! {

/// A unit's progress along a path of tiles.
#[derive(Clone, Debug)]
pub struct PathFollow {
    /// Waypoints, in order.
    pub path: Vec<(u32, u32)>,
    /// Index of the waypoint being approached.
    pub current_index: usize,
    /// Set once the index has moved past the last waypoint.
    pub finished: bool,
}

/// The state reached from `p` by one call of [`PathFollow::advance`].
pub open spec fn advanced_once(p: (Seq<(u32, u32)>, int, bool)) -> (Seq<(u32, u32)>, int, bool) {
    let next = p.1 + 1;
    (p.0, next, if next >= p.0.len() { true } else { p.2 })
}

/// The state reached from `p` by `k` calls of [`PathFollow::advance`].
pub open spec fn advanced(p: (Seq<(u32, u32)>, int, bool), k: nat) -> (Seq<(u32, u32)>, int, bool)
    decreases k,
{
    if k == 0 {
        p
    } else {
        advanced_once(advanced(p, (k - 1) as nat))
    }
}

impl PathFollow {
    /// The model of this follower: waypoints, current index, finished flag.
    pub open spec fn state(&self) -> (Seq<(u32, u32)>, int, bool) {
        (self.path@, self.current_index as int, self.finished)
    }

    /// Starts at the first waypoint, not finished.
    pub fn new(path: Vec<(u32, u32)>) -> (p: Self)
        ensures
            p.path@ == path@,
            p.current_index == 0,
            !p.finished,
    {
        PathFollow { path, current_index: 0, finished: false }
    }

    /// The waypoint being approached, or `None` past the end.
    pub fn current_target(&self) -> (r: Option<(u32, u32)>)
        ensures
            r == (if self.current_index < self.path@.len() {
                Some(self.path@[self.current_index as int])
            } else {
                None
            }),
    {
        if self.current_index < self.path.len() {
            Some(self.path[self.current_index])
        } else {
            None
        }
    }

    /// Moves on to the next waypoint; the follower is finished once the
    /// index reaches the end of the path.
    pub fn advance(&mut self)
        requires
            old(self).current_index < usize::MAX,
        ensures
            final(self).state() == advanced_once(old(self).state()),
    {
        self.current_index = self.current_index + 1;
        if self.current_index >= self.path.len() {
            self.finished = true;
        }
    }
}

/// Advancing a fresh follower `k` times targets waypoint `k`, and the
/// follower is finished exactly when `k` has reached the path's length
/// (for `k >= 1`).
pub proof fn law_advance_walks_path(path: Seq<(u32, u32)>, k: nat)
    ensures
        advanced((path, 0, false), k).0 == path,
        advanced((path, 0, false), k).1 == k,
        k >= 1 ==> (advanced((path, 0, false), k).2 <==> k >= path.len()),
    decreases k,
{
    if k > 0 {
        law_advance_walks_path(path, (k - 1) as nat);
    }
}

/// What one frame of path following does, once the unit has measured
/// whether it has reached the waypoint it approaches.
#[derive(Clone, Copy, Debug, PartialEq, Eq, Structural)]
pub enum FollowStep {
    /// Nothing to do: the follower is finished or has no waypoint left.
    Wait,
    /// Keep moving toward waypoint `(x, y)`.
    MoveToward { x: u32, y: u32 },
    /// The waypoint was reached; the next one is now approached.
    Advanced,
    /// The last waypoint was reached: the unit stops and drops the follower.
    Arrived,
}

impl PathFollow {
    /// One frame of following: a finished follower, or one past its last
    /// waypoint, waits; otherwise it keeps heading for the current waypoint
    /// until `reached`, and then advances, arriving when that was the last one.
    pub fn step(&mut self, reached: bool) -> (s: FollowStep)
        ensures
            old(self).finished ==> s == FollowStep::Wait && final(self).state() == old(self).state(),
            !old(self).finished && old(self).current_index >= old(self).path@.len() ==> s
                == FollowStep::Wait && final(self).state() == old(self).state(),
            !old(self).finished && old(self).current_index < old(self).path@.len() && !reached ==> s
                == (FollowStep::MoveToward {
                    x: old(self).path@[old(self).current_index as int].0,
                    y: old(self).path@[old(self).current_index as int].1,
                }) && final(self).state() == old(self).state(),
            !old(self).finished && old(self).current_index < old(self).path@.len() && reached ==> {
                &&& final(self).state() == advanced_once(old(self).state())
                &&& s == (if final(self).finished { FollowStep::Arrived } else { FollowStep::Advanced })
            },
    {
        if self.finished {
            return FollowStep::Wait;
        }
        let len = self.path.len();
        if self.current_index >= len {
            FollowStep::Wait
        } else if !reached {
            let tile = self.path[self.current_index];
            FollowStep::MoveToward { x: tile.0, y: tile.1 }
        } else {
            self.advance();
            if self.finished {
                FollowStep::Arrived
            } else {
                FollowStep::Advanced
            }
        }
    }
}

/// How a unit that has just started moving sets off.
#[derive(Clone, Debug)]
pub enum RouteStart {
    /// Follow this path.
    Follow(PathFollow),
    /// It is already there: stop.
    Stop,
    /// Head straight for the target.
    Direct,
}

/// Sets off given the path search's outcome: `None` when no search could be
/// made (no map, or an end off the map), `Some(None)` when no path exists,
/// and `Some(Some(path))` for the waypoints found. A found path is followed
/// unless it is empty (start and goal coincide), which stops the unit; in
/// every other case the unit heads straight for its target.
pub fn route_start(search: Option<Option<Vec<(u32, u32)>>>) -> (r: RouteStart)
    ensures
        match search {
            Some(Some(path)) => if path@.len() > 0 {
                r matches RouteStart::Follow(f) && f.path@ == path@ && f.current_index == 0 && !f.finished
            } else {
                r is Stop
            },
            _ => r is Direct,
        },
{
    match search {
        Some(Some(path)) => {
            if path.len() > 0 {
                RouteStart::Follow(PathFollow::new(path))
            } else {
                RouteStart::Stop
            }
        },
        _ => RouteStart::Direct,
    }
}

} // verus!
