//! The two replay surfaces: a linear step-through cursor over checkpoints,
//! and a time-indexed store with nearest-neighbour seeks, pruning and
//! forking. The time axis is a 64-bit unsigned tick count.

use vstd::prelude::*;

use crate::checkpoint::{Checkpoint, CheckpointV};
use crate::error::PackError;
use crate::format::{PackedSnapshot, SnapshotV};

verus! {

/// The direction of a replay step.
#[derive(Debug, Clone, Copy, PartialEq, Eq, Structural)]
pub enum ReplayDirection {
    Forward,
    Backward,
}

/// A linear, ordered walk over checkpoints with a current position and an
/// optional wrap-around at the ends.
pub struct ReplayEngine {
    checkpoints: Vec<Checkpoint>,
    current_index: usize,
    loop_replay: bool,
}

impl ReplayEngine {
    /// The checkpoints, in insertion order.
    pub closed spec fn spec_checkpoints(self) -> Seq<CheckpointV> {
        self.checkpoints.deep_view()
    }

    /// The current position.
    pub closed spec fn spec_index(self) -> nat {
        self.current_index as nat
    }

    /// Whether steps wrap around at the ends.
    pub closed spec fn spec_loop(self) -> bool {
        self.loop_replay
    }

    /// The cursor's invariant: the position is within the collection, or
    /// zero while it is empty.
    pub open spec fn wf(self) -> bool {
        self.spec_index() < self.spec_checkpoints().len() || self.spec_index() == 0
    }

    /// An empty, non-looping cursor at position zero.
    pub fn new() -> (r: Self)
        ensures
            r.spec_checkpoints() =~= Seq::<CheckpointV>::empty(),
            r.spec_index() == 0,
            !r.spec_loop(),
            r.wf(),
    {
        ReplayEngine { checkpoints: Vec::new(), current_index: 0, loop_replay: false }
    }

    /// The same cursor with wrap-around switched on or off.
    pub fn with_loop(self, enabled: bool) -> (r: Self)
        ensures
            r.spec_checkpoints() == self.spec_checkpoints(),
            r.spec_index() == self.spec_index(),
            r.spec_loop() == enabled,
            self.wf() ==> r.wf(),
    {
        ReplayEngine {
            checkpoints: self.checkpoints,
            current_index: self.current_index,
            loop_replay: enabled,
        }
    }

    /// Appends a checkpoint; the position does not move.
    pub fn add_checkpoint(&mut self, checkpoint: Checkpoint)
        ensures
            final(self).spec_checkpoints() == old(self).spec_checkpoints().push(checkpoint@),
            final(self).spec_index() == old(self).spec_index(),
            final(self).spec_loop() == old(self).spec_loop(),
            old(self).wf() ==> final(self).wf(),
    {
        self.checkpoints.push(checkpoint);
        proof {
            assert(self.spec_checkpoints() =~= old(self).spec_checkpoints().push(checkpoint@));
        }
    }

    /// The checkpoint at the current position, or nothing while empty.
    pub fn current(&self) -> (r: Option<&Checkpoint>)
        ensures
            r matches Some(c) ==> self.spec_index() < self.spec_checkpoints().len() && c@
                == self.spec_checkpoints()[self.spec_index() as int],
            r is None <==> self.spec_index() >= self.spec_checkpoints().len(),
    {
        if self.current_index < self.checkpoints.len() {
            proof {
                assert(self.spec_checkpoints()[self.current_index as int]
                    == self.checkpoints@[self.current_index as int]@);
            }
            Some(&self.checkpoints[self.current_index])
        } else {
            None
        }
    }

    /// Steps forward. Inside the collection the position advances by one;
    /// at the far end it wraps to the front exactly when wrap-around is
    /// on, and otherwise nothing moves and nothing is returned.
    pub fn next(&mut self) -> (r: Option<&Checkpoint>)
        requires
            old(self).wf(),
        ensures
            final(self).spec_checkpoints() == old(self).spec_checkpoints(),
            final(self).spec_loop() == old(self).spec_loop(),
            final(self).wf(),
            old(self).spec_index() + 1 < old(self).spec_checkpoints().len() ==> final(self).spec_index() == old(self).spec_index() + 1,
            old(self).spec_index() + 1 >= old(self).spec_checkpoints().len() && old(self).spec_loop() && old(self).spec_checkpoints().len() > 0 ==> final(self).spec_index()
                == 0,
            old(self).spec_index() + 1 >= old(self).spec_checkpoints().len() && !(old(self).spec_loop() && old(self).spec_checkpoints().len() > 0) ==> final(self).spec_index()
                == old(self).spec_index(),
            r matches Some(c) ==> c@ == final(self).spec_checkpoints()[final(self).spec_index() as int],
            r is Some <==> (old(self).spec_index() + 1 < old(self).spec_checkpoints().len() || (
            old(self).spec_loop() && old(self).spec_checkpoints().len() > 0)),
    {
        let n = self.checkpoints.len();
        if self.current_index + 1 < n {
            self.current_index = self.current_index + 1;
            proof {
                assert(self.spec_checkpoints()[self.current_index as int]
                    == self.checkpoints@[self.current_index as int]@);
            }
            Some(&self.checkpoints[self.current_index])
        } else if self.loop_replay && n > 0 {
            self.current_index = 0;
            proof {
                assert(self.spec_checkpoints()[0] == self.checkpoints@[0]@);
            }
            Some(&self.checkpoints[0])
        } else {
            None
        }
    }

    /// Steps backward. Inside the collection the position retreats by one;
    /// at the front it wraps to the far end exactly when wrap-around is
    /// on, and otherwise nothing moves and nothing is returned.
    pub fn previous(&mut self) -> (r: Option<&Checkpoint>)
        requires
            old(self).wf(),
        ensures
            final(self).spec_checkpoints() == old(self).spec_checkpoints(),
            final(self).spec_loop() == old(self).spec_loop(),
            final(self).wf(),
            old(self).spec_index() > 0 ==> final(self).spec_index() == old(self).spec_index() - 1,
            old(self).spec_index() == 0 && old(self).spec_loop() && old(self).spec_checkpoints().len() > 0 ==> final(self).spec_index() == old(self).spec_checkpoints().len() - 1,
            old(self).spec_index() == 0 && !(old(self).spec_loop() && old(self).spec_checkpoints().len() > 0) ==> final(self).spec_index() == 0,
            r matches Some(c) ==> c@ == final(self).spec_checkpoints()[final(self).spec_index() as int],
            r is Some <==> (old(self).spec_index() > 0 || (old(self).spec_loop() && old(self).spec_checkpoints().len() > 0)),
    {
        let n = self.checkpoints.len();
        if self.current_index > 0 {
            self.current_index = self.current_index - 1;
            proof {
                assert(self.spec_checkpoints()[self.current_index as int]
                    == self.checkpoints@[self.current_index as int]@);
            }
            Some(&self.checkpoints[self.current_index])
        } else if self.loop_replay && n > 0 {
            self.current_index = n - 1;
            proof {
                assert(self.spec_checkpoints()[n - 1] == self.checkpoints@[n - 1]@);
            }
            Some(&self.checkpoints[n - 1])
        } else {
            None
        }
    }

    /// Jumps to a position. An out-of-range index is rejected with
    /// `InvalidCheckpoint` and nothing moves.
    pub fn seek(&mut self, index: usize) -> (r: Result<&Checkpoint, PackError>)
        ensures
            final(self).spec_checkpoints() == old(self).spec_checkpoints(),
            final(self).spec_loop() == old(self).spec_loop(),
            index < old(self).spec_checkpoints().len() ==> final(self).spec_index() == index && (
            r matches Ok(c) && c@ == old(self).spec_checkpoints()[index as int]),
            index >= old(self).spec_checkpoints().len() ==> final(self).spec_index() == old(self).spec_index() && (r matches Err(e) && e is InvalidCheckpoint),
    {
        if index >= self.checkpoints.len() {
            return Err(PackError::InvalidCheckpoint("index out of bounds".to_owned()));
        }
        self.current_index = index;
        proof {
            assert(self.spec_checkpoints()[index as int] == self.checkpoints@[index as int]@);
        }
        Ok(&self.checkpoints[index])
    }

    /// Jumps to the front.
    pub fn seek_to_start(&mut self) -> (r: Option<&Checkpoint>)
        ensures
            final(self).spec_checkpoints() == old(self).spec_checkpoints(),
            final(self).spec_loop() == old(self).spec_loop(),
            final(self).spec_index() == 0,
            final(self).wf(),
            r matches Some(c) ==> old(self).spec_checkpoints().len() > 0 && c@ == old(self).spec_checkpoints()[0],
            r is None <==> old(self).spec_checkpoints().len() == 0,
    {
        self.current_index = 0;
        if self.checkpoints.len() > 0 {
            proof {
                assert(self.spec_checkpoints()[0] == self.checkpoints@[0]@);
            }
            Some(&self.checkpoints[0])
        } else {
            None
        }
    }

    /// Jumps to the far end; an empty cursor stays where it is.
    pub fn seek_to_end(&mut self) -> (r: Option<&Checkpoint>)
        requires
            old(self).wf(),
        ensures
            final(self).spec_checkpoints() == old(self).spec_checkpoints(),
            final(self).spec_loop() == old(self).spec_loop(),
            final(self).wf(),
            old(self).spec_checkpoints().len() > 0 ==> final(self).spec_index() == old(self).spec_checkpoints().len() - 1 && (r matches Some(c) && c@ == old(self).spec_checkpoints().last()),
            old(self).spec_checkpoints().len() == 0 ==> r is None && final(self).spec_index()
                == old(self).spec_index(),
    {
        let n = self.checkpoints.len();
        if n > 0 {
            self.current_index = n - 1;
            proof {
                assert(self.spec_checkpoints()[n - 1] == self.checkpoints@[n - 1]@);
            }
            Some(&self.checkpoints[n - 1])
        } else {
            None
        }
    }

    /// The current position.
    pub fn get_index(&self) -> (i: usize)
        ensures
            i == self.spec_index(),
    {
        self.current_index
    }

    /// The number of checkpoints.
    pub fn len(&self) -> (n: usize)
        ensures
            n == self.spec_checkpoints().len(),
    {
        self.checkpoints.len()
    }

    /// Whether the cursor holds no checkpoints.
    pub fn is_empty(&self) -> (b: bool)
        ensures
            b == (self.spec_checkpoints().len() == 0),
    {
        self.checkpoints.len() == 0
    }

    /// Whether the position is at the front.
    pub fn is_at_start(&self) -> (b: bool)
        ensures
            b == (self.spec_index() == 0),
    {
        self.current_index == 0
    }

    /// Whether the position is at the far end (vacuously so when empty).
    pub fn is_at_end(&self) -> (b: bool)
        ensures
            self.spec_checkpoints().len() > 0 ==> b == (self.spec_index()
                == self.spec_checkpoints().len() - 1),
            self.spec_checkpoints().len() == 0 ==> b == (self.spec_index() == 0),
    {
        let n = self.checkpoints.len();
        if n == 0 {
            self.current_index == 0
        } else {
            self.current_index == n - 1
        }
    }

    /// Forgets every checkpoint and returns to the front.
    pub fn clear(&mut self)
        ensures
            final(self).spec_checkpoints() =~= Seq::<CheckpointV>::empty(),
            final(self).spec_index() == 0,
            final(self).spec_loop() == old(self).spec_loop(),
            final(self).wf(),
    {
        self.checkpoints.clear();
        self.current_index = 0;
    }
}

// ------------------------------------------------------------------
// Time-indexed replay
// ------------------------------------------------------------------
/// The number of leading entries of `times` strictly below `t`: for a
/// sorted axis, the insertion point of `t`.
pub open spec fn lower_bound(times: Seq<u64>, t: u64) -> int
    decreases times.len(),
{
    if times.len() == 0 {
        0
    } else if times[0] < t {
        1 + lower_bound(times.drop_first(), t)
    } else {
        0
    }
}

/// The position splitting `times` into a strictly-smaller prefix and an
/// at-least-`t` suffix is the lower bound.
pub proof fn lemma_lower_bound_unique(times: Seq<u64>, t: u64, i: int)
    requires
        0 <= i <= times.len(),
        forall|j: int| 0 <= j < i ==> times[j] < t,
        forall|j: int| i <= j < times.len() ==> times[j] >= t,
    ensures
        i == lower_bound(times, t),
    decreases times.len(),
{
    if times.len() == 0 {
    } else if times[0] < t {
        assert(i >= 1);
        let tail = times.drop_first();
        assert(forall|j: int| 0 <= j < i - 1 ==> tail[j] == times[j + 1] && tail[j] < t);
        assert(forall|j: int| i - 1 <= j < tail.len() ==> tail[j] == times[j + 1] && tail[j] >= t);
        lemma_lower_bound_unique(tail, t, i - 1);
    } else {
        assert(i == 0);
    }
}

/// The nearest entry of a sorted time axis to `t`: the neighbour of the
/// insertion point with the smaller distance, the later one on a tie.
pub open spec fn nearest_index(times: Seq<u64>, t: u64) -> int {
    let l = lower_bound(times, t);
    if l == times.len() {
        times.len() - 1
    } else if l == 0 {
        0
    } else if t - times[l - 1] < times[l] - t {
        l - 1
    } else {
        l
    }
}

/// A store of snapshots on a monotonic time axis, kept sorted by time,
/// with a current-time marker.
pub struct TimeTravel {
    snapshots: Vec<(u64, PackedSnapshot)>,
    current_time: u64,
}

impl TimeTravel {
    /// The `(time, snapshot)` entries, sorted by time.
    pub closed spec fn spec_entries(self) -> Seq<(u64, SnapshotV)> {
        self.snapshots.deep_view()
    }

    /// The time axis alone.
    pub open spec fn spec_times(self) -> Seq<u64> {
        Seq::new(self.spec_entries().len(), |i: int| self.spec_entries()[i].0)
    }

    /// The current-time marker.
    pub closed spec fn spec_current_time(self) -> u64 {
        self.current_time
    }

    /// The store's invariant: the time axis never decreases.
    pub open spec fn wf(self) -> bool {
        forall|i: int, j: int|
            0 <= i < j < self.spec_times().len() ==> self.spec_times()[i] <= self.spec_times()[j]
    }

    /// An empty store at time zero.
    pub fn new() -> (r: Self)
        ensures
            r.spec_entries() =~= Seq::<(u64, SnapshotV)>::empty(),
            r.spec_current_time() == 0,
            r.wf(),
    {
        TimeTravel { snapshots: Vec::new(), current_time: 0 }
    }

    /// Records a snapshot at `time`: it is placed after every entry at or
    /// before `time` and before every later entry, so the axis stays
    /// sorted whatever the insertion order; the current time becomes
    /// `time`.
    pub fn record(&mut self, time: u64, snapshot: PackedSnapshot)
        requires
            old(self).wf(),
        ensures
            final(self).wf(),
            final(self).spec_current_time() == time,
            final(self).spec_entries().len() == old(self).spec_entries().len() + 1,
            exists|i: int|
                0 <= i <= old(self).spec_entries().len() && (forall|j: int|
                    0 <= j < i ==> old(self).spec_times()[j] <= time) && (forall|j: int|
                    i <= j < old(self).spec_entries().len() ==> old(self).spec_times()[j] > time)
                    && final(self).spec_entries() == #[trigger] old(self).spec_entries().insert(
                    i,
                    (time, snapshot@),
                ),
    {
        let n = self.snapshots.len();
        let mut i: usize = 0;
        while i < n && self.snapshots[i].0 <= time
            invariant
                i <= n,
                n == self.snapshots@.len(),
                self.wf(),
                forall|k: int|
                    0 <= k < n ==> #[trigger] self.spec_times()[k] == self.snapshots@[k].0,
                forall|j: int| 0 <= j < i ==> self.spec_times()[j] <= time,
            decreases n - i,
        {
            i += 1;
        }
        let ghost orig = self.spec_entries();
        let ghost orig_times = self.spec_times();
        let ghost pos = i as int;
        proof {
            assert forall|j: int| pos <= j < n implies orig_times[j] > time by {
                assert(orig_times[pos] == self.snapshots@[pos].0);
                assert(orig_times[pos] > time);
                if j > pos {
                    assert(orig_times[pos] <= orig_times[j]);
                }
            }
        }
        self.snapshots.insert(i, (time, snapshot));
        self.current_time = time;
        proof {
            let ghost cur = self.spec_entries();
            assert forall|k: int| 0 <= k < cur.len() implies cur[k] == orig.insert(
                pos,
                (time, snapshot@),
            )[k] by {
                if k < pos {
                    assert(self.snapshots@[k] == old(self).snapshots@[k]);
                } else if k == pos {
                } else {
                    assert(self.snapshots@[k] == old(self).snapshots@[k - 1]);
                }
            }
            assert(cur =~= orig.insert(pos, (time, snapshot@)));
            let nt = self.spec_times();
            assert forall|a: int, b: int| 0 <= a < b < nt.len() implies nt[a] <= nt[b] by {
                assert(nt[a] == cur[a].0 && nt[b] == cur[b].0);
                if b < pos {
                    assert(cur[a].0 == orig[a].0 && cur[b].0 == orig[b].0);
                    assert(orig_times[a] == orig[a].0 && orig_times[b] == orig[b].0);
                } else if b == pos {
                    assert(cur[a].0 == orig[a].0 && orig_times[a] == orig[a].0);
                    assert(orig_times[a] <= time);
                } else if a < pos {
                    assert(cur[a].0 == orig[a].0 && cur[b].0 == orig[b - 1].0);
                    assert(orig_times[a] <= time && orig_times[b - 1] > time);
                    assert(orig_times[a] == orig[a].0 && orig_times[b - 1] == orig[b - 1].0);
                } else if a == pos {
                    assert(cur[b].0 == orig[b - 1].0 && orig_times[b - 1] > time);
                    assert(orig_times[b - 1] == orig[b - 1].0);
                } else {
                    assert(cur[a].0 == orig[a - 1].0 && cur[b].0 == orig[b - 1].0);
                    assert(orig_times[a - 1] == orig[a - 1].0 && orig_times[b - 1] == orig[b
                        - 1].0);
                }
            }
        }
    }

    /// The index of the entry nearest to `target_time`, or nothing while
    /// the store is empty.
    fn find_snapshot_at_time(&self, target_time: u64) -> (r: Option<usize>)
        requires
            self.wf(),
        ensures
            r is None <==> self.spec_entries().len() == 0,
            r matches Some(i) ==> self.spec_entries().len() > 0 && i < self.spec_entries().len()
                && i == nearest_index(self.spec_times(), target_time),
    {
        let n = self.snapshots.len();
        if n == 0 {
            return None;
        }
        let mut left: usize = 0;
        let mut right: usize = n;
        while left < right
            invariant
                left <= right <= n,
                n == self.snapshots@.len(),
                self.wf(),
                forall|j: int| 0 <= j < left ==> self.spec_times()[j] < target_time,
                forall|j: int| right <= j < n ==> self.spec_times()[j] >= target_time,
            decreases right - left,
        {
            let mid = left + (right - left) / 2;
            proof {
                assert(self.spec_times()[mid as int] == self.snapshots@[mid as int].0);
            }
            if self.snapshots[mid].0 < target_time {
                proof {
                    assert(forall|j: int|
                        0 <= j <= mid ==> #[trigger] self.spec_times()[j]
                            <= self.spec_times()[mid as int]);
                }
                left = mid + 1;
            } else {
                proof {
                    assert(forall|j: int|
                        mid <= j < n ==> #[trigger] self.spec_times()[j]
                            >= self.spec_times()[mid as int]);
                }
                right = mid;
            }
        }
        proof {
            lemma_lower_bound_unique(self.spec_times(), target_time, left as int);
        }
        if left == n {
            Some(n - 1)
        } else if left == 0 {
            Some(0)
        } else {
            proof {
                assert(self.spec_times()[left - 1] == self.snapshots@[left - 1].0);
                assert(self.spec_times()[left as int] == self.snapshots@[left as int].0);
            }
            let dl = target_time - self.snapshots[left - 1].0;
            let dr = self.snapshots[left].0 - target_time;
            if dl < dr {
                Some(left - 1)
            } else {
                Some(left)
            }
        }
    }

    /// The snapshot nearest to `time`, without moving the current time.
    pub fn get_snapshot_at_time(&self, time: u64) -> (r: Option<&PackedSnapshot>)
        requires
            self.wf(),
        ensures
            r is None <==> self.spec_entries().len() == 0,
            r matches Some(s) ==> s@ == self.spec_entries()[nearest_index(
                self.spec_times(),
                time,
            )].1,
    {
        match self.find_snapshot_at_time(time) {
            None => None,
            Some(i) => {
                proof {
                    assert(self.spec_entries()[i as int].1 == self.snapshots@[i as int].1@);
                }
                Some(&self.snapshots[i].1)
            },
        }
    }

    /// Seeks to the entry nearest to `target_time`: the current time
    /// becomes that entry's time and its snapshot is returned. An empty
    /// store stays unchanged and returns nothing.
    pub fn seek_to_time(&mut self, target_time: u64) -> (r: Option<&PackedSnapshot>)
        requires
            old(self).wf(),
        ensures
            final(self).spec_entries() == old(self).spec_entries(),
            final(self).wf(),
            old(self).spec_entries().len() == 0 ==> r is None && final(self).spec_current_time()
                == old(self).spec_current_time(),
            old(self).spec_entries().len() > 0 ==> (r matches Some(s) && final(self).spec_current_time() == old(self).spec_times()[nearest_index(
                old(self).spec_times(),
                target_time,
            )] && s@ == old(self).spec_entries()[nearest_index(
                old(self).spec_times(),
                target_time,
            )].1),
    {
        match self.find_snapshot_at_time(target_time) {
            None => None,
            Some(i) => {
                proof {
                    assert(self.spec_entries()[i as int].1 == self.snapshots@[i as int].1@);
                    assert(self.spec_times()[i as int] == self.snapshots@[i as int].0);
                }
                self.current_time = self.snapshots[i].0;
                Some(&self.snapshots[i].1)
            },
        }
    }

    /// The snapshot nearest to the current time.
    pub fn get_current_snapshot(&self) -> (r: Option<&PackedSnapshot>)
        requires
            self.wf(),
        ensures
            r is None <==> self.spec_entries().len() == 0,
            r matches Some(s) ==> s@ == self.spec_entries()[nearest_index(
                self.spec_times(),
                self.spec_current_time(),
            )].1,
    {
        self.get_snapshot_at_time(self.current_time)
    }

    /// The earliest recorded time: the axis's minimum.
    pub fn get_earliest_time(&self) -> (r: Option<u64>)
        requires
            self.wf(),
        ensures
            r is None <==> self.spec_entries().len() == 0,
            r matches Some(t) ==> self.spec_entries().len() > 0 && t == self.spec_times()[0] && (
            forall|j: int| 0 <= j < self.spec_times().len() ==> t <= #[trigger] self.spec_times()[j]),
    {
        if self.snapshots.len() == 0 {
            None
        } else {
            proof {
                assert(self.spec_times()[0] == self.snapshots@[0].0);
            }
            Some(self.snapshots[0].0)
        }
    }

    /// The latest recorded time: the axis's maximum.
    pub fn get_latest_time(&self) -> (r: Option<u64>)
        requires
            self.wf(),
        ensures
            r is None <==> self.spec_entries().len() == 0,
            r matches Some(t) ==> self.spec_entries().len() > 0 && t == self.spec_times().last()
                && (forall|j: int|
                0 <= j < self.spec_times().len() ==> #[trigger] self.spec_times()[j] <= t),
    {
        let n = self.snapshots.len();
        if n == 0 {
            None
        } else {
            proof {
                assert(self.spec_times()[n - 1] == self.snapshots@[n - 1].0);
            }
            Some(self.snapshots[n - 1].0)
        }
    }

    /// The current-time marker.
    pub fn get_current_time(&self) -> (t: u64)
        ensures
            t == self.spec_current_time(),
    {
        self.current_time
    }

    /// A copy of the snapshot nearest to `time`; the store is unchanged.
    pub fn fork_at_time(&self, time: u64) -> (r: Option<PackedSnapshot>)
        requires
            self.wf(),
        ensures
            r is None <==> self.spec_entries().len() == 0,
            r matches Some(s) ==> s@ == self.spec_entries()[nearest_index(
                self.spec_times(),
                time,
            )].1,
    {
        match self.get_snapshot_at_time(time) {
            None => None,
            Some(s) => Some(s.clone()),
        }
    }

    /// Drops every entry before `time`; entries at `time` stay.
    pub fn prune_before(&mut self, time: u64)
        requires
            old(self).wf(),
        ensures
            final(self).spec_entries() == old(self).spec_entries().filter(
                |e: (u64, SnapshotV)| e.0 >= time,
            ),
            final(self).wf(),
            final(self).spec_current_time() == old(self).spec_current_time(),
            forall|j: int|
                0 <= j < final(self).spec_times().len() ==> #[trigger] final(self).spec_times()[j] >= time,
    {
        let n = self.snapshots.len();
        let mut kept: Vec<(u64, PackedSnapshot)> = Vec::new();
        let mut i: usize = 0;
        proof {
            reveal(Seq::filter);
            assert(self.spec_entries().take(0).filter(|e: (u64, SnapshotV)| e.0 >= time) =~= Seq::<
                (u64, SnapshotV),
            >::empty());
        }
        while i < n
            invariant
                i <= n,
                n == self.snapshots@.len(),
                kept.deep_view() =~= self.spec_entries().take(i as int).filter(
                    |e: (u64, SnapshotV)| e.0 >= time,
                ),
            decreases n - i,
        {
            let ghost taken = self.spec_entries().take(i as int + 1);
            proof {
                reveal(Seq::filter);
                assert(taken.drop_last() =~= self.spec_entries().take(i as int));
                assert(taken.last() == self.spec_entries()[i as int]);
                assert(self.spec_entries()[i as int].0 == self.snapshots@[i as int].0);
                assert(self.spec_entries()[i as int].1 == self.snapshots@[i as int].1@);
            }
            if self.snapshots[i].0 >= time {
                let t = self.snapshots[i].0;
                let s = self.snapshots[i].1.clone();
                let ghost prev = kept.deep_view();
                kept.push((t, s));
                proof {
                    assert(kept.deep_view() =~= prev.push(self.spec_entries()[i as int]));
                    assert(taken.filter(|e: (u64, SnapshotV)| e.0 >= time) == taken.drop_last()
                        .filter(|e: (u64, SnapshotV)| e.0 >= time).push(taken.last()));
                    assert(kept.deep_view() =~= taken.filter(|e: (u64, SnapshotV)| e.0 >= time));
                }
            } else {
                proof {
                    assert(taken.filter(|e: (u64, SnapshotV)| e.0 >= time) == taken.drop_last()
                        .filter(|e: (u64, SnapshotV)| e.0 >= time));
                    assert(kept.deep_view() =~= taken.filter(|e: (u64, SnapshotV)| e.0 >= time));
                }
            }
            i += 1;
        }
        self.snapshots = kept;
        proof {
            broadcast use vstd::seq_lib::group_filter_ensures;

            assert(old(self).spec_entries().take(n as int) =~= old(self).spec_entries());
            let pred = |e: (u64, SnapshotV)| e.0 >= time;
            let f = old(self).spec_entries().filter(pred);
            assert forall|j: int| 0 <= j < self.spec_times().len() implies #[trigger] self
                .spec_times()[j] >= time by {
                assert(self.spec_entries()[j] == f[j]);
                assert(pred(f[j]));
            }
            assert forall|x: int, y: int|
                0 <= x < y < old(self).spec_entries().len() implies old(self).spec_entries()[x].0
                <= old(self).spec_entries()[y].0 by {
                assert(old(self).spec_times()[x] == old(self).spec_entries()[x].0);
                assert(old(self).spec_times()[y] == old(self).spec_entries()[y].0);
            }
            assert forall|a: int, b: int|
                0 <= a < b < self.spec_times().len() implies self.spec_times()[a]
                <= self.spec_times()[b] by {
                lemma_filter_keeps_order(old(self).spec_entries(), pred, a, b);
                assert(self.spec_times()[a] == self.spec_entries()[a].0);
                assert(self.spec_times()[b] == self.spec_entries()[b].0);
            }
        }
    }

    /// Drops every entry after `time`; entries at `time` stay.
    pub fn prune_after(&mut self, time: u64)
        requires
            old(self).wf(),
        ensures
            final(self).spec_entries() == old(self).spec_entries().filter(
                |e: (u64, SnapshotV)| e.0 <= time,
            ),
            final(self).wf(),
            final(self).spec_current_time() == old(self).spec_current_time(),
            forall|j: int|
                0 <= j < final(self).spec_times().len() ==> #[trigger] final(self).spec_times()[j] <= time,
    {
        let n = self.snapshots.len();
        let mut kept: Vec<(u64, PackedSnapshot)> = Vec::new();
        let mut i: usize = 0;
        proof {
            reveal(Seq::filter);
            assert(self.spec_entries().take(0).filter(|e: (u64, SnapshotV)| e.0 <= time) =~= Seq::<
                (u64, SnapshotV),
            >::empty());
        }
        while i < n
            invariant
                i <= n,
                n == self.snapshots@.len(),
                kept.deep_view() =~= self.spec_entries().take(i as int).filter(
                    |e: (u64, SnapshotV)| e.0 <= time,
                ),
            decreases n - i,
        {
            let ghost taken = self.spec_entries().take(i as int + 1);
            proof {
                reveal(Seq::filter);
                assert(taken.drop_last() =~= self.spec_entries().take(i as int));
                assert(taken.last() == self.spec_entries()[i as int]);
                assert(self.spec_entries()[i as int].0 == self.snapshots@[i as int].0);
                assert(self.spec_entries()[i as int].1 == self.snapshots@[i as int].1@);
            }
            if self.snapshots[i].0 <= time {
                let t = self.snapshots[i].0;
                let s = self.snapshots[i].1.clone();
                let ghost prev = kept.deep_view();
                kept.push((t, s));
                proof {
                    assert(kept.deep_view() =~= prev.push(self.spec_entries()[i as int]));
                    assert(taken.filter(|e: (u64, SnapshotV)| e.0 <= time) == taken.drop_last()
                        .filter(|e: (u64, SnapshotV)| e.0 <= time).push(taken.last()));
                    assert(kept.deep_view() =~= taken.filter(|e: (u64, SnapshotV)| e.0 <= time));
                }
            } else {
                proof {
                    assert(taken.filter(|e: (u64, SnapshotV)| e.0 <= time) == taken.drop_last()
                        .filter(|e: (u64, SnapshotV)| e.0 <= time));
                    assert(kept.deep_view() =~= taken.filter(|e: (u64, SnapshotV)| e.0 <= time));
                }
            }
            i += 1;
        }
        self.snapshots = kept;
        proof {
            broadcast use vstd::seq_lib::group_filter_ensures;

            assert(old(self).spec_entries().take(n as int) =~= old(self).spec_entries());
            let pred = |e: (u64, SnapshotV)| e.0 <= time;
            let f = old(self).spec_entries().filter(pred);
            assert forall|j: int| 0 <= j < self.spec_times().len() implies #[trigger] self
                .spec_times()[j] <= time by {
                assert(self.spec_entries()[j] == f[j]);
                assert(pred(f[j]));
            }
            assert forall|x: int, y: int|
                0 <= x < y < old(self).spec_entries().len() implies old(self).spec_entries()[x].0
                <= old(self).spec_entries()[y].0 by {
                assert(old(self).spec_times()[x] == old(self).spec_entries()[x].0);
                assert(old(self).spec_times()[y] == old(self).spec_entries()[y].0);
            }
            assert forall|a: int, b: int|
                0 <= a < b < self.spec_times().len() implies self.spec_times()[a]
                <= self.spec_times()[b] by {
                lemma_filter_keeps_order(old(self).spec_entries(), pred, a, b);
                assert(self.spec_times()[a] == self.spec_entries()[a].0);
                assert(self.spec_times()[b] == self.spec_entries()[b].0);
            }
        }
    }

    /// Forgets every entry and returns to time zero.
    pub fn clear(&mut self)
        ensures
            final(self).spec_entries() =~= Seq::<(u64, SnapshotV)>::empty(),
            final(self).spec_current_time() == 0,
            final(self).wf(),
    {
        self.snapshots.clear();
        self.current_time = 0;
    }

    /// The number of entries.
    pub fn len(&self) -> (n: usize)
        ensures
            n == self.spec_entries().len(),
    {
        self.snapshots.len()
    }

    /// Whether the store holds no entries.
    pub fn is_empty(&self) -> (b: bool)
        ensures
            b == (self.spec_entries().len() == 0),
    {
        self.snapshots.len() == 0
    }
}

/// A filtered sequence of time entries keeps the relative order of the
/// original: any two kept entries come from two original entries in the
/// same order.
pub proof fn lemma_filter_keeps_order(
    s: Seq<(u64, SnapshotV)>,
    pred: spec_fn((u64, SnapshotV)) -> bool,
    a: int,
    b: int,
)
    requires
        0 <= a < b < s.filter(pred).len(),
        forall|i: int, j: int| 0 <= i < j < s.len() ==> s[i].0 <= s[j].0,
    ensures
        s.filter(pred)[a].0 <= s.filter(pred)[b].0,
    decreases s.len(),
{
    reveal(Seq::filter);
    broadcast use vstd::seq_lib::group_filter_ensures;

    if s.len() > 0 {
        let f = s.filter(pred);
        let fd = s.drop_last().filter(pred);
        if pred(s.last()) {
            if b < f.len() - 1 {
                assert(forall|i: int, j: int|
                    0 <= i < j < s.drop_last().len() ==> s.drop_last()[i].0 <= s.drop_last()[j].0);
                lemma_filter_keeps_order(s.drop_last(), pred, a, b);
                assert(f[a] == fd[a] && f[b] == fd[b]);
            } else {
                assert(f[b] == s.last());
                assert(f[a] == fd[a]);
                lemma_filter_element_from(s.drop_last(), pred, a);
                let i = choose|i: int|
                    0 <= i < s.drop_last().len() && s.drop_last()[i] == fd[a];
                assert(s[i] == fd[a]);
                assert(s[i].0 <= s.last().0);
            }
        } else {
            assert(forall|i: int, j: int|
                0 <= i < j < s.drop_last().len() ==> s.drop_last()[i].0 <= s.drop_last()[j].0);
            lemma_filter_keeps_order(s.drop_last(), pred, a, b);
            assert(f[a] == fd[a] && f[b] == fd[b]);
        }
    }
}

/// Every kept entry of a filtered sequence occurs in the original.
pub proof fn lemma_filter_element_from(
    s: Seq<(u64, SnapshotV)>,
    pred: spec_fn((u64, SnapshotV)) -> bool,
    a: int,
)
    requires
        0 <= a < s.filter(pred).len(),
    ensures
        exists|i: int| 0 <= i < s.len() && s[i] == s.filter(pred)[a],
    decreases s.len(),
{
    reveal(Seq::filter);
    broadcast use vstd::seq_lib::group_filter_ensures;

    if s.len() > 0 {
        let f = s.filter(pred);
        let fd = s.drop_last().filter(pred);
        if pred(s.last()) && a == f.len() - 1 {
            assert(s[s.len() - 1] == f[a]);
        } else {
            lemma_filter_element_from(s.drop_last(), pred, a);
            let i = choose|i: int| 0 <= i < s.drop_last().len() && s.drop_last()[i] == fd[a];
            assert(s[i] == f[a]);
        }
    }
}

} // verus!
