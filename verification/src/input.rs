//! What the simulation is told of the keyboard each frame, and the tracker
//! that turns a held fire key into one press.

use vstd::prelude::*;

verus! {

/// The state of the keys as a device reports it: which are down right now.
#[derive(Clone, Copy, Debug, PartialEq, Eq, Structural)]
pub struct RawInput {
    pub left_held: bool,
    pub right_held: bool,
    pub fire_held: bool,
}

/// What the player controller consumes once per frame. Steering is
/// level-triggered; firing is edge-triggered.
#[derive(Clone, Copy, Debug, PartialEq, Eq, Structural)]
pub struct InputSnapshot {
    pub left_held: bool,
    pub right_held: bool,
    pub fire_pressed_this_frame: bool,
}

/// The snapshot for a frame in which the keys are as `raw` says, when the
/// fire key was (or was not) down the frame before.
pub open spec fn snapshot_of(fire_was_held: bool, raw: RawInput) -> InputSnapshot {
    InputSnapshot {
        left_held: raw.left_held,
        right_held: raw.right_held,
        fire_pressed_this_frame: raw.fire_held && !fire_was_held,
    }
}

/// Whether the fire key was down in the frame before frame `i` of `raws`;
/// before the first frame it was down if `fire_was_held` says so.
pub open spec fn held_before(fire_was_held: bool, raws: Seq<RawInput>, i: int) -> bool {
    if i == 0 {
        fire_was_held
    } else {
        raws[i - 1].fire_held
    }
}

/// The snapshots that a tracker hands out, frame by frame, when it is shown
/// `raws` in order.
pub open spec fn snapshots(fire_was_held: bool, raws: Seq<RawInput>) -> Seq<InputSnapshot> {
    Seq::new(raws.len(), |i: int| snapshot_of(held_before(fire_was_held, raws, i), raws[i]))
}

/// How often the fire key goes down in the course of `raws`.
pub open spec fn presses(fire_was_held: bool, raws: Seq<RawInput>) -> nat
    decreases raws.len(),
{
    if raws.len() == 0 {
        0
    } else {
        let earlier = presses(fire_was_held, raws.drop_last());
        if raws.last().fire_held && !held_before(fire_was_held, raws, raws.len() - 1) {
            earlier + 1
        } else {
            earlier
        }
    }
}

/// Remembers whether the fire key was down in the previous frame.
#[derive(Clone, Copy, Debug, PartialEq, Eq, Structural)]
pub struct InputTracker {
    pub fire_was_held: bool,
}

impl InputTracker {
    /// A tracker that has seen no key down yet.
    pub fn new() -> (tracker: InputTracker)
        ensures
            !tracker.fire_was_held,
    {
        InputTracker { fire_was_held: false }
    }

    /// Takes the raw key state of the current frame and returns the snapshot
    /// for it. Fire counts as pressed only in the frame in which the key
    /// goes down.
    pub fn observe(&mut self, raw: RawInput) -> (snapshot: InputSnapshot)
        ensures
            snapshot == snapshot_of(old(self).fire_was_held, raw),
            final(self).fire_was_held == raw.fire_held,
    {
        let pressed = raw.fire_held && !self.fire_was_held;
        self.fire_was_held = raw.fire_held;
        InputSnapshot {
            left_held: raw.left_held,
            right_held: raw.right_held,
            fire_pressed_this_frame: pressed,
        }
    }

    /// Takes the raw key states of a stretch of frames, in order, and
    /// returns the snapshot for each.
    pub fn observe_all(&mut self, raws: &Vec<RawInput>) -> (seen: Vec<InputSnapshot>)
        ensures
            seen@ == snapshots(old(self).fire_was_held, raws@),
            final(self).fire_was_held == held_before(
                old(self).fire_was_held,
                raws@,
                raws@.len() as int,
            ),
    {
        let ghost first = self.fire_was_held;
        let mut seen: Vec<InputSnapshot> = Vec::new();
        let n = raws.len();
        let mut i: usize = 0;
        while i < n
            invariant
                i <= n,
                n == raws@.len(),
                self.fire_was_held == held_before(first, raws@, i as int),
                seen@ == snapshots(first, raws@).take(i as int),
            decreases n - i,
        {
            let snapshot = self.observe(raws[i]);
            seen.push(snapshot);
            proof {
                assert(seen@ =~= snapshots(first, raws@).take(i + 1));
            }
            i += 1;
        }
        proof {
            assert(seen@ =~= snapshots(first, raws@));
        }
        seen
    }
}

} // verus!
