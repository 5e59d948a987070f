//! The worker pool's coordinator as a state machine: which slot renders which
//! tile, which tile is handed out next, and how far the render has come.
//!
//! The coordinator does not run workers itself. Its caller starts one worker
//! for each slot that is running, waits for a completion signal, hands the
//! signal to `Coordinator::on_completion`, and does what the returned action
//! says.

use vstd::prelude::*;
use crate::config::ConfigError;
use crate::math::min;

verus! {

/// What a worker slot is doing, as the coordinator sees it.
#[derive(Copy, Clone, Debug, PartialEq, Eq)]
pub enum Slot {
    /// A worker renders the tile with this index and has not signalled yet.
    Running(usize),
    /// The slot has signalled and no tile was left for it.
    Retired,
}

/// What the caller has to do after a completion signal.
#[derive(Copy, Clone, Debug, PartialEq, Eq)]
pub enum Action {
    /// Start a worker for the tile with this index on the slot that signalled.
    Dispatch(usize),
    /// Nothing is left for the slot that signalled.
    Retire,
}

/// The mathematical model of a coordinator.
pub struct PoolState {
    /// How many tiles the render has.
    pub tile_count: nat,
    /// The index of the next tile to hand out; the tiles below it have been handed out.
    pub next_tile: nat,
    /// How many completion signals have been taken.
    pub finished: nat,
    /// The worker slots.
    pub slots: Seq<Slot>,
}

/// How many of the slots are running.
pub open spec fn count_running(slots: Seq<Slot>) -> nat
    decreases slots.len(),
{
    if slots.len() == 0 {
        0
    } else {
        count_running(slots.drop_last()) + if slots.last() is Running {
            1nat
        } else {
            0nat
        }
    }
}

/// The share of `finished` in `total`, in percent, rounded down; 100 where `total` is 0.
pub open spec fn percent(finished: nat, total: nat) -> nat {
    if total == 0 {
        100
    } else {
        (finished * 100 / total) as nat
    }
}

impl PoolState {
    /// The state in which a render starts: the first tiles are handed to as
    /// many slots as there are threads, or tiles if those are fewer.
    pub open spec fn init(tile_count: nat, thread_count: nat) -> PoolState {
        let n = if tile_count < thread_count {
            tile_count
        } else {
            thread_count
        };
        PoolState {
            tile_count,
            next_tile: n,
            finished: 0,
            slots: Seq::new(n, |i: int| Slot::Running(i as usize)),
        }
    }

    /// The invariant of the pool.
    pub open spec fn wf(self) -> bool {
        &&& self.next_tile <= self.tile_count
        &&& self.finished + count_running(self.slots)
            == self.next_tile
        // a running slot holds a tile that has been handed out
        &&& forall|i: int|
            0 <= i < self.slots.len() ==> (#[trigger] self.slots[i] matches Slot::Running(t) ==> t
                < self.next_tile)
        // no tile is held by two slots
        &&& forall|i: int, j: int|
            0 <= i < self.slots.len() && 0 <= j < self.slots.len() && i != j
                && #[trigger] self.slots[i] is Running ==> self.slots[i] != #[trigger] self.slots[j]
        // while tiles are left, every slot is busy
        &&& self.next_tile < self.tile_count ==> self.slots.len() >= 1 && forall|i: int|
            0 <= i < self.slots.len() ==> #[trigger] self.slots[i] is Running
    }

    /// Whether a completion signal of `slot` can arrive: the slot is running.
    pub open spec fn can_complete(self, slot: int) -> bool {
        0 <= slot < self.slots.len() && self.slots[slot] is Running
    }

    /// What the coordinator answers to a completion signal: the next tile, as
    /// long as one is left.
    pub open spec fn action(self) -> Action {
        if self.next_tile < self.tile_count {
            Action::Dispatch(self.next_tile as usize)
        } else {
            Action::Retire
        }
    }

    /// The state after a completion signal of `slot`.
    pub open spec fn complete(self, slot: int) -> PoolState {
        if self.next_tile < self.tile_count {
            PoolState {
                tile_count: self.tile_count,
                next_tile: self.next_tile + 1,
                finished: self.finished + 1,
                slots: self.slots.update(slot, Slot::Running(self.next_tile as usize)),
            }
        } else {
            PoolState {
                tile_count: self.tile_count,
                next_tile: self.next_tile,
                finished: self.finished + 1,
                slots: self.slots.update(slot, Slot::Retired),
            }
        }
    }

    /// Every tile has been rendered and committed.
    pub open spec fn done(self) -> bool {
        self.finished == self.tile_count
    }

    /// Whether the signals can arrive one after the other, starting in this state.
    pub open spec fn accepts(self, signals: Seq<int>) -> bool
        decreases signals.len(),
    {
        signals.len() == 0 || (self.accepts(signals.drop_last()) && self.run(
            signals.drop_last(),
        ).can_complete(signals.last()))
    }

    /// The state after the signals have arrived one after the other.
    pub open spec fn run(self, signals: Seq<int>) -> PoolState
        decreases signals.len(),
    {
        if signals.len() == 0 {
            self
        } else {
            self.run(signals.drop_last()).complete(signals.last())
        }
    }

    /// The tiles handed out, in the order in which they were: those of the
    /// first wave, then one for each signal that was answered by a dispatch.
    pub open spec fn dispatched(self, signals: Seq<int>) -> Seq<int>
        decreases signals.len(),
    {
        if signals.len() == 0 {
            Seq::new(self.next_tile, |t: int| t)
        } else {
            let before = self.run(signals.drop_last());
            let earlier = self.dispatched(signals.drop_last());
            match before.action() {
                Action::Dispatch(t) => earlier.push(t as int),
                Action::Retire => earlier,
            }
        }
    }
}

/// Replacing one slot changes the number of running slots by what that slot
/// was and what it becomes.
pub proof fn lemma_count_running_update(slots: Seq<Slot>, i: int, slot: Slot)
    requires
        0 <= i < slots.len(),
    ensures
        count_running(slots.update(i, slot)) + (if slots[i] is Running {
            1nat
        } else {
            0nat
        }) == count_running(slots) + (if slot is Running {
            1nat
        } else {
            0nat
        }),
    decreases slots.len(),
{
    let updated = slots.update(i, slot);
    if i == slots.len() - 1 {
        assert(updated.drop_last() =~= slots.drop_last());
    } else {
        assert(updated.drop_last() =~= slots.drop_last().update(i, slot));
        lemma_count_running_update(slots.drop_last(), i, slot);
    }
}

/// The number of running slots is 0 exactly if no slot is running, and it is
/// not more than the number of slots.
pub proof fn lemma_count_running_bounds(slots: Seq<Slot>)
    ensures
        count_running(slots) <= slots.len(),
        count_running(slots) == 0 <==> forall|i: int|
            0 <= i < slots.len() ==> !(#[trigger] slots[i] is Running),
        count_running(slots) == slots.len() <==> forall|i: int|
            0 <= i < slots.len() ==> #[trigger] slots[i] is Running,
    decreases slots.len(),
{
    if slots.len() > 0 {
        let front = slots.drop_last();
        lemma_count_running_bounds(front);
        assert forall|i: int| 0 <= i < front.len() implies front[i] == slots[i] by {}
        if count_running(slots) == 0 {
            assert forall|i: int| 0 <= i < slots.len() implies !(#[trigger] slots[i] is Running) by {
                if i < front.len() {
                    assert(front[i] == slots[i]);
                }
            }
        }
        if forall|i: int| 0 <= i < slots.len() ==> !(#[trigger] slots[i] is Running) {
            assert(!(slots[slots.len() - 1] is Running));
            assert forall|i: int| 0 <= i < front.len() implies !(#[trigger] front[i] is Running) by {
                assert(front[i] == slots[i]);
            }
        }
        if count_running(slots) == slots.len() {
            assert forall|i: int| 0 <= i < slots.len() implies #[trigger] slots[i] is Running by {
                if i < front.len() {
                    assert(front[i] == slots[i]);
                }
            }
        }
        if forall|i: int| 0 <= i < slots.len() ==> #[trigger] slots[i] is Running {
            assert(slots[slots.len() - 1] is Running);
            assert forall|i: int| 0 <= i < front.len() implies #[trigger] front[i] is Running by {
                assert(front[i] == slots[i]);
            }
        }
    }
}

/// A pool starts in a state that meets the invariant, if it has a thread.
pub proof fn lemma_init_wf(tile_count: nat, thread_count: nat)
    requires
        thread_count >= 1,
        tile_count <= usize::MAX,
    ensures
        PoolState::init(tile_count, thread_count).wf(),
{
    let s = PoolState::init(tile_count, thread_count);
    lemma_count_running_bounds(s.slots);
}

/// A completion signal of a running slot keeps the invariant, counts as one
/// more finished tile, and hands out the next tile if one is left.
pub proof fn lemma_complete_wf(s: PoolState, slot: int)
    requires
        s.wf(),
        s.tile_count <= usize::MAX,
        s.can_complete(slot),
    ensures
        s.complete(slot).wf(),
        s.complete(slot).tile_count == s.tile_count,
        s.complete(slot).finished == s.finished + 1,
        s.complete(slot).slots.len() == s.slots.len(),
        s.complete(slot).next_tile == s.next_tile + (if s.action() is Dispatch {
            1nat
        } else {
            0nat
        }),
{
    let after = s.complete(slot);
    lemma_count_running_update(s.slots, slot, after.slots[slot]);
    assert forall|i: int, j: int|
        0 <= i < after.slots.len() && 0 <= j < after.slots.len() && i != j
            && #[trigger] after.slots[i] is Running implies after.slots[i]
        != #[trigger] after.slots[j] by {
        if i != slot && j != slot {
            assert(s.slots[i] is Running);
            assert(s.slots[i] != s.slots[j]);
        } else if i == slot {
            assert(after.slots[j] == s.slots[j]);
        } else {
            assert(after.slots[i] == s.slots[i]);
        }
    }
    if after.next_tile < after.tile_count {
        assert forall|i: int| 0 <= i < after.slots.len() implies #[trigger] after.slots[i] is Running by {
            if i != slot {
                assert(s.slots[i] is Running);
            }
        }
    }
}

/// Every run of a pool that has a thread keeps the invariant, has taken as many
/// signals as tiles are finished, and has handed out the tiles below
/// `next_tile`, each once, in rising order.
pub proof fn lemma_run(tile_count: nat, thread_count: nat, signals: Seq<int>)
    requires
        thread_count >= 1,
        tile_count <= usize::MAX,
        PoolState::init(tile_count, thread_count).accepts(signals),
    ensures
        PoolState::init(tile_count, thread_count).run(signals).wf(),
        PoolState::init(tile_count, thread_count).run(signals).tile_count == tile_count,
        PoolState::init(tile_count, thread_count).run(signals).finished == signals.len(),
        PoolState::init(tile_count, thread_count).dispatched(signals) =~= Seq::new(
            PoolState::init(tile_count, thread_count).run(signals).next_tile,
            |t: int| t,
        ),
    decreases signals.len(),
{
    let start = PoolState::init(tile_count, thread_count);
    if signals.len() == 0 {
        lemma_init_wf(tile_count, thread_count);
    } else {
        lemma_run(tile_count, thread_count, signals.drop_last());
        lemma_complete_wf(start.run(signals.drop_last()), signals.last());
    }
}

/// Dispatch is complete: however many threads the pool has, and in whatever
/// order its slots signal, the render is done after exactly as many signals as
/// there are tiles. Until then a slot is running, so a further signal will
/// come; from then on no slot is running, so none can; and by then every tile
/// has been handed out exactly once.
pub proof fn lemma_signals_equal_tiles(tile_count: nat, thread_count: nat, signals: Seq<int>)
    requires
        thread_count >= 1,
        tile_count <= usize::MAX,
        PoolState::init(tile_count, thread_count).accepts(signals),
    ensures
        signals.len() <= tile_count,
        PoolState::init(tile_count, thread_count).run(signals).done() <==> signals.len()
            == tile_count,
        signals.len() < tile_count ==> exists|slot: int|
            #[trigger] PoolState::init(tile_count, thread_count).run(signals).can_complete(slot),
        signals.len() == tile_count ==> forall|slot: int|
            !#[trigger] PoolState::init(tile_count, thread_count).run(signals).can_complete(slot),
        signals.len() == tile_count ==> PoolState::init(tile_count, thread_count).dispatched(
            signals,
        ) =~= Seq::new(tile_count, |t: int| t),
{
    let s = PoolState::init(tile_count, thread_count).run(signals);
    lemma_run(tile_count, thread_count, signals);
    lemma_count_running_bounds(s.slots);
    if signals.len() < tile_count {
        if s.next_tile < s.tile_count {
            assert(s.can_complete(0));
        } else {
            assert(count_running(s.slots) > 0);
            let slot = choose|i: int| 0 <= i < s.slots.len() && #[trigger] s.slots[i] is Running;
            assert(s.can_complete(slot));
        }
    }
}

/// The coordinator of a worker pool.
pub struct Coordinator {
    tile_count: usize,
    next_tile: usize,
    finished: usize,
    slots: Vec<Slot>,
}

impl View for Coordinator {
    type V = PoolState;

    closed spec fn view(&self) -> PoolState {
        PoolState {
            tile_count: self.tile_count as nat,
            next_tile: self.next_tile as nat,
            finished: self.finished as nat,
            slots: self.slots@,
        }
    }
}

impl Coordinator {
    /// Starts a pool of `thread_count` slots on `tile_count` tiles: slot `i`
    /// runs tile `i`, for as many slots as there are threads, or tiles if those
    /// are fewer. A pool without a thread is refused.
    pub fn new(tile_count: usize, thread_count: usize) -> (r: Result<Coordinator, ConfigError>)
        ensures
            thread_count == 0 ==> r == Err::<Coordinator, ConfigError>(ConfigError::ZeroThreads),
            thread_count > 0 ==> r is Ok && r->Ok_0@ == PoolState::init(
                tile_count as nat,
                thread_count as nat,
            ) && r->Ok_0@.wf(),
    {
        if thread_count == 0 {
            return Err(ConfigError::ZeroThreads);
        }
        let n = min(tile_count, thread_count);
        let mut slots: Vec<Slot> = Vec::new();
        for i in 0..n
            invariant
                n <= tile_count,
                slots@ =~= Seq::new(i as nat, |j: int| Slot::Running(j as usize)),
        {
            slots.push(Slot::Running(i));
        }
        proof {
            lemma_init_wf(tile_count as nat, thread_count as nat);
        }
        Ok(Coordinator { tile_count, next_tile: n, finished: 0, slots })
    }

    /// How many tiles the render has.
    pub fn tile_count(&self) -> (n: usize)
        ensures
            n == self@.tile_count,
    {
        self.tile_count
    }

    /// How many completion signals have been taken.
    pub fn finished(&self) -> (n: usize)
        ensures
            n == self@.finished,
    {
        self.finished
    }

    /// The index of the next tile to hand out.
    pub fn next_tile(&self) -> (n: usize)
        ensures
            n == self@.next_tile,
    {
        self.next_tile
    }

    /// How many slots the pool has.
    pub fn slot_count(&self) -> (n: usize)
        ensures
            n == self@.slots.len(),
    {
        self.slots.len()
    }

    /// What the slot with the given number is doing; `None` where the pool has no such slot.
    pub fn slot(&self, slot: usize) -> (r: Option<Slot>)
        ensures
            r == (if slot < self@.slots.len() {
                Some(self@.slots[slot as int])
            } else {
                None
            }),
    {
        if slot < self.slots.len() {
            Some(self.slots[slot])
        } else {
            None
        }
    }

    /// Whether a completion signal of `slot` can be taken: the slot is running.
    pub fn can_complete(&self, slot: usize) -> (b: bool)
        ensures
            b == self@.can_complete(slot as int),
    {
        if slot < self.slots.len() {
            match self.slots[slot] {
                Slot::Running(_) => true,
                Slot::Retired => false,
            }
        } else {
            false
        }
    }

    /// Whether every tile has been rendered and committed.
    pub fn is_finished(&self) -> (b: bool)
        ensures
            b == self@.done(),
    {
        self.finished == self.tile_count
    }

    /// How far the render has come, in percent.
    pub fn progress(&self) -> (p: u32)
        requires
            self@.wf(),
        ensures
            p == percent(self@.finished, self@.tile_count),
            p <= 100,
    {
        percentage(self.finished, self.tile_count)
    }

    /// Takes the completion signal of `slot`: counts the tile as finished and
    /// hands the next tile to that slot, or retires the slot where no tile is
    /// left.
    pub fn on_completion(&mut self, slot: usize) -> (action: Action)
        requires
            old(self)@.wf(),
            old(self)@.can_complete(slot as int),
        ensures
            final(self)@ == old(self)@.complete(slot as int),
            action == old(self)@.action(),
            final(self)@.wf(),
    {
        proof {
            lemma_complete_wf(self@, slot as int);
            lemma_count_running_bounds(self@.slots);
        }
        self.finished = self.finished + 1;
        if self.next_tile < self.tile_count {
            let tile = self.next_tile;
            self.slots.set(slot, Slot::Running(tile));
            self.next_tile = tile + 1;
            Action::Dispatch(tile)
        } else {
            self.slots.set(slot, Slot::Retired);
            Action::Retire
        }
    }
}

/// The share of `finished` in `total`, in percent, rounded down; 100 where `total` is 0.
pub fn percentage(finished: usize, total: usize) -> (p: u32)
    requires
        finished <= total,
    ensures
        p == percent(finished as nat, total as nat),
        p <= 100,
{
    if total == 0 {
        return 100;
    }
    let scaled: u128 = (finished as u128) * 100;
    let whole: u128 = scaled / (total as u128);
    proof {
        assert(finished * 100 / (total as int) <= 100) by (nonlinear_arith)
            requires
                0 <= finished <= total,
                total > 0,
        ;
        assert(0 <= finished * 100 / (total as int)) by (nonlinear_arith)
            requires
                0 <= finished <= total,
                total > 0,
        ;
    }
    whole as u32
}

} // verus!
