//! The integer part of reading movement keys: which way an axis or the
//! WASD keys point, before any scaling to floats.

use vstd::prelude::*;

verus! {

/// How many of `pressed` are true.
pub open spec fn count_pressed(pressed: Seq<bool>) -> int
    decreases pressed.len(),
{
    if pressed.len() == 0 {
        0
    } else {
        count_pressed(pressed.drop_last()) + if pressed.last() { 1int } else { 0int }
    }
}

/// `v` limited to `-1..=1`.
pub open spec fn clamp_unit(v: int) -> int {
    if v > 1 {
        1
    } else if v < -1 {
        -1
    } else {
        v
    }
}

proof fn lemma_count_bounds(pressed: Seq<bool>)
    ensures
        0 <= count_pressed(pressed) <= pressed.len(),
    decreases pressed.len(),
{
    if pressed.len() > 0 {
        lemma_count_bounds(pressed.drop_last());
    }
}

fn count_true(pressed: &[bool]) -> (n: usize)
    ensures
        n == count_pressed(pressed@),
{
    let mut n: usize = 0;
    let mut i: usize = 0;
    while i < pressed.len()
        invariant
            i <= pressed@.len(),
            n == count_pressed(pressed@.take(i as int)),
        decreases pressed@.len() - i,
    {
        proof {
            assert(pressed@.take(i + 1).drop_last() =~= pressed@.take(i as int));
            lemma_count_bounds(pressed@.take(i as int));
        }
        if pressed[i] {
            n = n + 1;
        }
        i = i + 1;
    }
    assert(pressed@.take(pressed@.len() as int) =~= pressed@);
    n
}

/// The value of an axis whose positive keys are `positive` and negative
/// keys `negative` (whether each is held): each held positive key adds one,
/// each held negative key takes one away, and the sum is limited to `-1..=1`.
pub fn axis_value(positive: &[bool], negative: &[bool]) -> (v: i32)
    ensures
        v == clamp_unit(count_pressed(positive@) - count_pressed(negative@)),
{
    let p = count_true(positive);
    let n = count_true(negative);
    if p > n {
        1
    } else if n > p {
        -1
    } else {
        0
    }
}

/// The WASD (or arrow) direction `(x, y)`: up adds to `y`, down takes from
/// it, right adds to `x`, left takes from it.
pub fn wasd_direction(up: bool, down: bool, right: bool, left: bool) -> (d: (i32, i32))
    ensures
        d.0 == (if right { 1int } else { 0int }) - (if left { 1int } else { 0int }),
        d.1 == (if up { 1int } else { 0int }) - (if down { 1int } else { 0int }),
{
    let mut x: i32 = 0;
    let mut y: i32 = 0;
    if up {
        y = y + 1;
    }
    if down {
        y = y - 1;
    }
    if right {
        x = x + 1;
    }
    if left {
        x = x - 1;
    }
    (x, y)
}

} // verus!
