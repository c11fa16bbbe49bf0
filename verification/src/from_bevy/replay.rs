//! Replay scheduling: the recorded tapes of several foreends are merged and their events are
//! fired in time order.

use vstd::prelude::*;
use crate::from_bevy::event::GameEvent;
use crate::from_bevy::record::{RecordUnit, Tape};

verus! {

broadcast use vstd::std_specs::vecdeque::group_vec_dequeue_axioms;

/// The abstract state of a tape: its owner and its pending units.
pub struct TapeView {
    pub owner: usize,
    pub data: Seq<RecordUnit>,
}

impl View for Tape {
    type V = TapeView;

    open spec fn view(&self) -> TapeView {
        TapeView { owner: self.owner, data: self.data@ }
    }
}

/// The time before the first pending unit of tape `t` is due.
pub open spec fn head(t: TapeView) -> u64 {
    t.data[0].interval
}

/// Tape `i` is the first of those whose next unit is due soonest.
pub open spec fn is_first_min(tapes: Seq<TapeView>, i: int) -> bool {
    &&& 0 <= i < tapes.len()
    &&& forall|j: int| 0 <= j < tapes.len() ==> head(tapes[i]) <= head(#[trigger] tapes[j])
    &&& forall|j: int| 0 <= j < i ==> head(tapes[i]) < head(#[trigger] tapes[j])
}

/// The next unit to fire: the tape and the time before it is due; `(usize::MAX, u64::MAX)`
/// when no tape is pending.
pub open spec fn spec_next(tapes: Seq<TapeView>) -> (usize, u64) {
    if tapes.len() == 0 {
        (usize::MAX, u64::MAX)
    } else {
        let i = choose|i: int| is_first_min(tapes, i);
        (i as usize, head(tapes[i]))
    }
}

/// Tape `t` after `elapsed` milliseconds went by.
pub open spec fn advance_tape(t: TapeView, elapsed: u64) -> TapeView {
    TapeView {
        data: t.data.update(0, RecordUnit { interval: (head(t) - elapsed) as u64, ..t.data[0] }),
        ..t
    }
}

/// All tapes after `elapsed` milliseconds went by.
pub open spec fn spec_advance(tapes: Seq<TapeView>, elapsed: u64) -> Seq<TapeView> {
    Seq::new(tapes.len(), |i: int| advance_tape(tapes[i], elapsed))
}

/// The tapes after the first unit of tape `i` is taken; a tape left empty is replaced by the
/// last tape.
pub open spec fn spec_take_head(tapes: Seq<TapeView>, i: int) -> Seq<TapeView> {
    let t = tapes[i];
    if t.data.len() == 1 {
        tapes.update(i, tapes.last()).drop_last()
    } else {
        tapes.update(i, TapeView { data: t.data.drop_first(), ..t })
    }
}

/// Number of pending units of all tapes.
pub open spec fn pending(tapes: Seq<TapeView>) -> nat
    decreases tapes.len(),
{
    if tapes.len() == 0 {
        0
    } else {
        pending(tapes.drop_last()) + tapes.last().data.len()
    }
}

/// The next unit is due at once: the time before it is zero.
pub open spec fn due_at_once(tapes: Seq<TapeView>) -> bool {
    tapes.len() > 0 && spec_next(tapes).1 == 0
}

/// No pending tape is empty.
pub open spec fn all_nonempty(tapes: Seq<TapeView>) -> bool {
    forall|i: int| 0 <= i < tapes.len() ==> #[trigger] tapes[i].data.len() > 0
}

/// Every pending unit is due no sooner than `elapsed`.
pub open spec fn all_due_after(tapes: Seq<TapeView>, elapsed: u64) -> bool {
    forall|i: int| 0 <= i < tapes.len() ==> elapsed <= head(#[trigger] tapes[i])
}

/// The pending tapes of a replay.
pub struct VTape {
    tapes: Vec<Tape>,
}

impl View for VTape {
    type V = Seq<TapeView>;

    closed spec fn view(&self) -> Seq<TapeView> {
        self.tapes@.map_values(|t: Tape| t@)
    }
}

pub proof fn lemma_first_min_unique(tapes: Seq<TapeView>, i: int, j: int)
    requires
        is_first_min(tapes, i),
        is_first_min(tapes, j),
    ensures
        i == j,
{
    if i < j {
        assert(head(tapes[j]) < head(tapes[i]));
    } else if j < i {
        assert(head(tapes[i]) < head(tapes[j]));
    }
}

pub proof fn lemma_spec_next(tapes: Seq<TapeView>, i: int)
    requires
        is_first_min(tapes, i),
    ensures
        spec_next(tapes) == (i as usize, head(tapes[i])),
{
    let k = choose|k: int| is_first_min(tapes, k);
    lemma_first_min_unique(tapes, i, k);
}

/// Time passing shifts all tapes alike: the tape that fires next stays the same.
pub proof fn lemma_advance_keeps_next(tapes: Seq<TapeView>, elapsed: u64)
    requires
        all_nonempty(tapes),
        all_due_after(tapes, elapsed),
        tapes.len() > 0,
    ensures
        all_nonempty(spec_advance(tapes, elapsed)),
        spec_next(spec_advance(tapes, elapsed)).0 == spec_next(tapes).0,
        spec_next(spec_advance(tapes, elapsed)).1 == spec_next(tapes).1 - elapsed,
{
    let a = spec_advance(tapes, elapsed);
    let i = choose|i: int| is_first_min(tapes, i);
    lemma_exists_first_min(tapes);
    assert forall|j: int| 0 <= j < a.len() implies head(#[trigger] a[j]) == head(tapes[j]) - elapsed by {
        assert(a[j] == advance_tape(tapes[j], elapsed));
    }
    assert(is_first_min(a, i));
    lemma_spec_next(a, i);
    lemma_spec_next(tapes, i);
}

/// A lone tape is replayed unit by unit: its first unit fires after its own interval, and the
/// tape goes on with the rest of its units, unchanged.
pub proof fn lemma_lone_tape_replays_in_order(t: TapeView)
    requires
        t.data.len() > 0,
    ensures
        spec_next(seq![t]) == (0usize, head(t)),
        spec_take_head(spec_advance(seq![t], head(t)), 0) == (if t.data.len() == 1 {
            Seq::<TapeView>::empty()
        } else {
            seq![TapeView { data: t.data.drop_first(), ..t }]
        }),
{
    let ts = seq![t];
    assert(is_first_min(ts, 0));
    lemma_spec_next(ts, 0);
    let a = spec_advance(ts, head(t));
    assert(a[0] == advance_tape(t, head(t)));
    assert(a[0].data.drop_first() =~= t.data.drop_first());
    if t.data.len() == 1 {
        assert(spec_take_head(a, 0) =~= Seq::<TapeView>::empty());
    } else {
        assert(spec_take_head(a, 0) =~= seq![TapeView { data: t.data.drop_first(), ..t }]);
    }
}

/// Taking the head of a tape removes exactly one pending unit.
pub proof fn lemma_take_head_pending(tapes: Seq<TapeView>, i: int)
    requires
        all_nonempty(tapes),
        0 <= i < tapes.len(),
    ensures
        pending(spec_take_head(tapes, i)) + 1 == pending(tapes),
        all_nonempty(spec_take_head(tapes, i)),
{
    let t = tapes[i];
    if t.data.len() == 1 {
        lemma_pending_update(tapes, i, tapes.last());
        let u = tapes.update(i, tapes.last());
        assert(u.drop_last() =~= spec_take_head(tapes, i));
        assert(pending(u) == pending(u.drop_last()) + u.last().data.len());
    } else {
        lemma_pending_update(tapes, i, TapeView { data: t.data.drop_first(), ..t });
    }
}

/// Replacing tape `i` changes the pending count by the difference of the two lengths.
pub proof fn lemma_pending_update(tapes: Seq<TapeView>, i: int, t: TapeView)
    requires
        0 <= i < tapes.len(),
    ensures
        pending(tapes.update(i, t)) == pending(tapes) - tapes[i].data.len() + t.data.len(),
    decreases tapes.len(),
{
    let u = tapes.update(i, t);
    if i == tapes.len() - 1 {
        assert(u.drop_last() =~= tapes.drop_last());
    } else {
        lemma_pending_update(tapes.drop_last(), i, t);
        assert(u.drop_last() =~= tapes.drop_last().update(i, t));
    }
}

/// Adding a tape adds its units to the pending ones.
pub proof fn lemma_push_pending(tapes: Seq<TapeView>, t: TapeView)
    ensures
        pending(tapes.push(t)) == pending(tapes) + t.data.len(),
{
    assert(tapes.push(t).drop_last() =~= tapes);
}

pub proof fn lemma_exists_first_min(tapes: Seq<TapeView>)
    requires
        tapes.len() > 0,
    ensures
        exists|i: int| is_first_min(tapes, i),
    decreases tapes.len(),
{
    if tapes.len() == 1 {
        assert(is_first_min(tapes, 0));
    } else {
        let d = tapes.drop_last();
        lemma_exists_first_min(d);
        let i = choose|i: int| is_first_min(d, i);
        let n = tapes.len() - 1;
        if head(tapes[n]) < head(tapes[i]) {
            assert forall|j: int| 0 <= j < tapes.len() implies head(tapes[n]) <= head(
                #[trigger] tapes[j],
            ) by {
                if j < n {
                    assert(d[j] == tapes[j]);
                    assert(head(d[i]) <= head(d[j]));
                }
            }
            assert forall|j: int| 0 <= j < n implies head(tapes[n]) < head(#[trigger] tapes[j]) by {
                assert(d[j] == tapes[j]);
                assert(head(d[i]) <= head(d[j]));
            }
            assert(is_first_min(tapes, n));
        } else {
            assert forall|j: int| 0 <= j < tapes.len() implies head(tapes[i]) <= head(
                #[trigger] tapes[j],
            ) by {
                if j < n {
                    assert(d[j] == tapes[j]);
                }
            }
            assert forall|j: int| 0 <= j < i implies head(tapes[i]) < head(#[trigger] tapes[j]) by {
                assert(d[j] == tapes[j]);
            }
            assert(is_first_min(tapes, i));
        }
    }
}

impl VTape {
    pub fn new() -> (v: Self)
        ensures
            v@ == Seq::<TapeView>::empty(),
    {
        VTape { tapes: Vec::new() }
    }

    /// Number of pending tapes.
    pub fn len(&self) -> (n: usize)
        ensures
            n == self@.len(),
    {
        self.tapes.len()
    }

    /// The tape whose next unit is due soonest (the first one among equals) and the time before
    /// that unit is due, which becomes the period of the replay timer; `(usize::MAX, u64::MAX)`
    /// when no tape is pending. A timer has no zero period, so this is not asked while the next
    /// unit is due at once (see `due_now`).
    pub fn calculate_min(&self) -> (min: (usize, u64))
        requires
            all_nonempty(self@),
            !due_at_once(self@),
        ensures
            min == spec_next(self@),
    {
        self.next_due()
    }

    /// Whether a pending unit is due at once: it was recorded in the same millisecond as the
    /// one before it, or as a unit of another tape, so its wait cannot be a timer's period.
    pub fn due_now(&self) -> (z: bool)
        requires
            all_nonempty(self@),
        ensures
            z == due_at_once(self@),
    {
        self.tapes.len() > 0 && self.next_due().1 == 0
    }

    /// The next unit to fire and the time before it is due.
    fn next_due(&self) -> (min: (usize, u64))
        requires
            all_nonempty(self@),
        ensures
            min == spec_next(self@),
    {
        let n = self.tapes.len();
        if n == 0 {
            return (usize::MAX, u64::MAX);
        }
        let mut best: usize = 0;
        assert(self@[0] == self.tapes@[0]@);
        assert(self@[0].data.len() > 0);
        let mut best_val: u64 = self.tapes[0].data[0].interval;
        let mut k: usize = 1;
        while k < n
            invariant
                n == self.tapes@.len(),
                n == self@.len(),
                all_nonempty(self@),
                1 <= k <= n,
                best < k,
                best_val == head(self@[best as int]),
                forall|j: int| 0 <= j < k ==> best_val <= head(#[trigger] self@[j]),
                forall|j: int| 0 <= j < best ==> best_val < head(#[trigger] self@[j]),
            decreases n - k,
        {
            assert(self@[k as int] == self.tapes@[k as int]@);
            assert(self@[k as int].data.len() > 0);
            let v = self.tapes[k].data[0].interval;
            if v < best_val {
                best = k;
                best_val = v;
            }
            k = k + 1;
        }
        proof {
            assert(is_first_min(self@, best as int));
            lemma_spec_next(self@, best as int);
        }
        (best, best_val)
    }

    /// Lets `elapsed_time` milliseconds go by: every tape's next unit comes that much closer.
    pub fn update_elapsed_time(&mut self, elapsed_time: u64)
        requires
            all_nonempty(old(self)@),
            all_due_after(old(self)@, elapsed_time),
        ensures
            final(self)@ == spec_advance(old(self)@, elapsed_time),
    {
        let n = self.tapes.len();
        let mut k: usize = 0;
        while k < n
            invariant
                n == self@.len(),
                n == old(self)@.len(),
                0 <= k <= n,
                all_nonempty(old(self)@),
                all_due_after(old(self)@, elapsed_time),
                forall|j: int| 0 <= j < k ==> self@[j] == advance_tape(old(self)@[j], elapsed_time),
                forall|j: int| k <= j < n ==> self@[j] == old(self)@[j],
            decreases n - k,
        {
            let ghost before = self@;
            assert(before[k as int] == self.tapes@[k as int]@);
            assert(elapsed_time <= head(old(self)@[k as int]));
            assert(before[k as int].data.len() > 0);
            assert(before[k as int] == old(self)@[k as int]);
            let ghost before_tapes = self.tapes@;
            let tape = &mut self.tapes[k];
            let mut front = tape.data.pop_front().unwrap();
            front.interval = front.interval - elapsed_time;
            tape.data.push_front(front);
            proof {
                assert(self@[k as int] == self.tapes@[k as int]@);
                assert(self@[k as int].data =~= advance_tape(before[k as int], elapsed_time).data);
                assert(self@[k as int] == advance_tape(before[k as int], elapsed_time));
                assert forall|j: int| 0 <= j < n && j != k implies self@[j] == before[j] by {
                    assert(self.tapes@[j] == before_tapes[j]);
                    assert(self@[j] == self.tapes@[j]@);
                    assert(before[j] == before_tapes[j]@);
                }
                assert forall|j: int| 0 <= j < k + 1 implies self@[j] == advance_tape(
                    old(self)@[j],
                    elapsed_time,
                ) by {
                    if j < k {
                        assert(before[j] == advance_tape(old(self)@[j], elapsed_time));
                        assert(self@[j] == before[j]);
                    }
                }
            }
            k = k + 1;
        }
        assert(self@ =~= spec_advance(old(self)@, elapsed_time));
    }

    /// Takes the next unit of tape `idx`: returns the tape's owner and the unit's event. A tape
    /// left empty is removed, the last tape taking its place.
    pub fn remove_min_elem(&mut self, idx: usize) -> (fired: (usize, GameEvent))
        requires
            all_nonempty(old(self)@),
            idx < old(self)@.len(),
        ensures
            fired == (old(self)@[idx as int].owner, old(self)@[idx as int].data[0].ge),
            final(self)@ == spec_take_head(old(self)@, idx as int),
    {
        let ghost before = self@;
        assert(before[idx as int] == self.tapes@[idx as int]@);
        let tape = &mut self.tapes[idx];
        let id = tape.owner;
        let ge = tape.data.pop_front().unwrap().ge;
        let empty = tape.data.len() == 0;
        if empty {
            let ghost mid = self.tapes@;
            self.tapes.swap_remove(idx);
            proof {
                assert(mid.map_values(|t: Tape| t@).update(idx as int, mid.map_values(|t: Tape| t@).last()).drop_last() =~= self@);
                assert(self@ =~= spec_take_head(before, idx as int));
            }
        } else {
            assert(self@ =~= spec_take_head(before, idx as int));
        }
        (id, ge)
    }

    /// A new tape arrives while the next unit to fire is `current`, chosen `elapsed_millis`
    /// milliseconds ago. When the new tape's first unit is due sooner than `current`, the time
    /// that went by (at most the time before `current` is due) is taken off every tape, so that
    /// the new tape is scheduled against the same instant. The new tape then joins the others.
    pub fn add_tape(&mut self, tape: Tape, current: (usize, u64), elapsed_millis: u128)
        requires
            all_nonempty(old(self)@),
            tape@.data.len() > 0,
            current == spec_next(old(self)@),
        ensures
            all_nonempty(final(self)@),
            pending(final(self)@) == pending(old(self)@) + tape@.data.len(),
            ({
                let e = if (elapsed_millis % 0x1_0000_0000_0000_0000) < current.1 {
                    (elapsed_millis % 0x1_0000_0000_0000_0000) as u64
                } else {
                    current.1
                };
                let shifted = if head(tape@) < current.1 {
                    spec_advance(old(self)@, e)
                } else {
                    old(self)@
                };
                final(self)@ == shifted.push(tape@)
            }),
    {
        let first = tape.data[0].interval;
        if first < current.1 {
            let el = (elapsed_millis % 0x1_0000_0000_0000_0000u128) as u64;
            let e = if el < current.1 {
                el
            } else {
                current.1
            };
            proof {
                if old(self)@.len() > 0 {
                    lemma_exists_first_min(old(self)@);
                    let i = choose|i: int| is_first_min(old(self)@, i);
                    lemma_spec_next(old(self)@, i);
                }
            }
            self.update_elapsed_time(e);
            proof {
                lemma_advance_pending(old(self)@, e);
            }
        }
        let ghost mid = self@;
        self.tapes.push(tape);
        proof {
            assert(self@ =~= mid.push(tape@));
            lemma_push_pending(mid, tape@);
        }
    }

    /// The timer of the next unit went off: the time before it was due is taken off every tape,
    /// and the unit is taken. Returns the owner of its tape and its event.
    pub fn fire(&mut self, current: (usize, u64)) -> (fired: (usize, GameEvent))
        requires
            all_nonempty(old(self)@),
            old(self)@.len() > 0,
            current == spec_next(old(self)@),
        ensures
            fired == (old(self)@[current.0 as int].owner, old(self)@[current.0 as int].data[0].ge),
            final(self)@ == spec_take_head(spec_advance(old(self)@, current.1), current.0 as int),
            all_nonempty(final(self)@),
            pending(final(self)@) + 1 == pending(old(self)@),
    {
        proof {
            lemma_exists_first_min(old(self)@);
            let i = choose|i: int| is_first_min(old(self)@, i);
            lemma_spec_next(old(self)@, i);
            lemma_advance_keeps_next(old(self)@, current.1);
            lemma_advance_pending(old(self)@, current.1);
        }
        self.update_elapsed_time(current.1);
        let ghost adv = self@;
        let fired = self.remove_min_elem(current.0);
        proof {
            lemma_take_head_pending(adv, current.0 as int);
        }
        fired
    }
}

/// Time passing leaves the number of pending units alone.
pub proof fn lemma_advance_pending(tapes: Seq<TapeView>, elapsed: u64)
    requires
        all_nonempty(tapes),
    ensures
        pending(spec_advance(tapes, elapsed)) == pending(tapes),
        all_nonempty(spec_advance(tapes, elapsed)),
    decreases tapes.len(),
{
    if tapes.len() > 0 {
        let d = tapes.drop_last();
        assert(all_nonempty(d)) by {
            assert forall|i: int| 0 <= i < d.len() implies #[trigger] d[i].data.len() > 0 by {
                assert(d[i] == tapes[i]);
            }
        }
        lemma_advance_pending(d, elapsed);
        let a = spec_advance(tapes, elapsed);
        assert(tapes.last().data.len() > 0);
        assert(a.last() == advance_tape(tapes.last(), elapsed));
        assert forall|i: int| 0 <= i < a.len() implies #[trigger] a[i].data.len() > 0 by {
            assert(tapes[i].data.len() > 0);
            assert(a[i] == advance_tape(tapes[i], elapsed));
        }
        assert(spec_advance(tapes, elapsed).drop_last() =~= spec_advance(tapes.drop_last(), elapsed));
    }
}

} // verus!
