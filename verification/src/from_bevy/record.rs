//! Recording of game events: which foreends are recorded, and the recorded units.

use vstd::prelude::*;
use std::collections::HashMap;
use std::collections::VecDeque;
use crate::from_bevy::event::GameEvent;

verus! {

broadcast use vstd::std_specs::hash::group_hash_axioms;

/// A recorded game event and the time, in milliseconds, since the previous recorded event of
/// the same foreend (or since recording was switched on).
#[derive(Copy, Clone, Debug, PartialEq, Eq, Structural)]
pub struct RecordUnit {
    pub ge: GameEvent,
    pub interval: u64,
}

impl RecordUnit {
    /// A unit for `ge` that happened `interval_millis` milliseconds after the previous one; the
    /// milliseconds are kept modulo 2^64.
    pub fn new(ge: GameEvent, interval_millis: u128) -> (unit: RecordUnit)
        ensures
            unit.ge == ge,
            unit.interval == interval_millis % 0x1_0000_0000_0000_0000,
    {
        let interval = (interval_millis % 0x1_0000_0000_0000_0000u128) as u64;
        RecordUnit { ge, interval }
    }
}

/// The record of one foreend.
pub struct Tape {
    pub owner: usize,
    pub data: VecDeque<RecordUnit>,
}

/// Which foreends are registered for recording, and whether recording is on for each.
pub struct RecordBackend {
    clients: HashMap<usize, bool>,
}

impl View for RecordBackend {
    type V = Map<usize, bool>;

    closed spec fn view(&self) -> Map<usize, bool> {
        self.clients@
    }
}

impl RecordBackend {
    pub fn new() -> (r: Self)
        ensures
            r@ == Map::<usize, bool>::empty(),
    {
        RecordBackend { clients: HashMap::new() }
    }

    /// Registers foreend `id` for recording, switched off. A previous registration of `id` is
    /// replaced.
    pub fn register(&mut self, id: usize)
        ensures
            final(self)@ == old(self)@.insert(id, false),
    {
        self.clients.insert(id, false);
    }

    /// Whether foreend `id` is registered for recording.
    pub fn contains(&self, id: usize) -> (b: bool)
        ensures
            b == self@.contains_key(id),
    {
        self.clients.contains_key(&id)
    }

    /// Switches recording of foreend `id` on or off. Returns the new state, which the caller
    /// announces to the foreend's proxy, or `None` when `id` is not registered.
    pub fn toggle(&mut self, id: usize) -> (state: Option<bool>)
        ensures
            old(self)@.contains_key(id) ==> state == Some(!old(self)@[id]) && final(self)@ == spec_toggle(
                old(self)@,
                id,
            ),
            !old(self)@.contains_key(id) ==> state is None && final(self)@ == old(self)@,
    {
        let cur = match self.clients.get(&id) {
            Some(b) => *b,
            None => {
                return None;
            },
        };
        self.clients.insert(id, !cur);
        Some(!cur)
    }

    /// Settles a toggle of foreend `id` to `state` once the new state was handed to its proxy:
    /// when it was delivered the foreend records as toggled; when it was not, the proxy is gone,
    /// the foreend is forgotten and recording is off.
    pub fn settle(&mut self, id: usize, state: bool, delivered: bool) -> (on: bool)
        ensures
            delivered ==> on == state && final(self)@ == old(self)@,
            !delivered ==> !on && final(self)@ == old(self)@.remove(id),
    {
        if delivered {
            state
        } else {
            self.clients.remove(&id);
            false
        }
    }

    /// Forgets foreend `id`, whose proxy is gone.
    pub fn unregister(&mut self, id: usize)
        ensures
            final(self)@ == old(self)@.remove(id),
    {
        self.clients.remove(&id);
    }
}

/// The recording switches after `toggle` of a registered foreend.
pub open spec fn spec_toggle(m: Map<usize, bool>, id: usize) -> Map<usize, bool> {
    m.insert(id, !m[id])
}

/// Toggling a registered foreend twice leaves every switch as it was.
pub proof fn lemma_toggle_twice_restores(m: Map<usize, bool>, id: usize)
    requires
        m.contains_key(id),
    ensures
        spec_toggle(spec_toggle(m, id), id) == m,
{
    assert(spec_toggle(spec_toggle(m, id), id) =~= m);
}

/// A forgotten foreend stays forgotten: toggling it finds nothing, and forgetting it again
/// changes nothing.
pub proof fn lemma_forgotten_foreend(m: Map<usize, bool>, id: usize)
    ensures
        !m.remove(id).contains_key(id),
        m.remove(id).remove(id) == m.remove(id),
{
    assert(m.remove(id).remove(id) =~= m.remove(id));
}

/// A toggle whose new state cannot be delivered, because the proxy is gone, answers `false` and
/// forgets the foreend; toggling it afterwards finds nothing.
pub proof fn lemma_toggle_to_a_gone_proxy(m: Map<usize, bool>, id: usize)
    requires
        m.contains_key(id),
    ensures
        !spec_toggle(m, id).remove(id).contains_key(id),
        spec_toggle(m, id).remove(id) == m.remove(id),
{
    assert(spec_toggle(m, id).remove(id) =~= m.remove(id));
}

/// The milliseconds from `mark` to `now`, both in nanoseconds of a monotonic clock; zero when
/// `now` is earlier.
pub open spec fn elapsed_millis(mark: u128, now: u128) -> u128 {
    if now >= mark {
        ((now - mark) / 1_000_000) as u128
    } else {
        0
    }
}

/// The recording clock of one foreend: while recording is on, the time of the last recorded
/// event, or of switching recording on, in nanoseconds of the caller's monotonic clock.
pub struct RecordClock {
    pub enabled: Option<u128>,
}

impl RecordClock {
    /// A clock with recording off.
    pub fn new() -> (c: Self)
        ensures
            c.enabled is None,
    {
        RecordClock { enabled: None }
    }

    /// Takes a change of the recording switch: `Some(t)` when recording was switched on at
    /// `t`, `None` when it was switched off.
    pub fn switch(&mut self, enabled: Option<u128>)
        ensures
            final(self).enabled == enabled,
    {
        self.enabled = enabled;
    }

    /// Stamps the event `ge`, which happens at `now`. While recording is on, the unit to record
    /// holds the milliseconds since the last mark, and the mark moves to `now`; while it is
    /// off, there is nothing to record.
    pub fn stamp(&mut self, ge: GameEvent, now: u128) -> (unit: Option<RecordUnit>)
        ensures
            match old(self).enabled {
                None => unit is None && final(self).enabled is None,
                Some(mark) => unit == Some(
                    RecordUnit { ge, interval: (elapsed_millis(mark, now) % 0x1_0000_0000_0000_0000) as u64 },
                ) && final(self).enabled == Some(now),
            },
    {
        match self.enabled {
            None => None,
            Some(mark) => {
                let nanos = if now >= mark { now - mark } else { 0 };
                self.enabled = Some(now);
                Some(RecordUnit::new(ge, nanos / 1_000_000))
            },
        }
    }
}

/// The recording clock after the events `evs` (each with the time it happens), from a clock
/// whose mark is `enabled`, and the units it gives, in order.
pub open spec fn spec_stamps(enabled: Option<u128>, evs: Seq<(GameEvent, u128)>) -> (Option<u128>, Seq<RecordUnit>)
    decreases evs.len(),
{
    if evs.len() == 0 {
        (enabled, Seq::empty())
    } else {
        let (e, units) = spec_stamps(enabled, evs.drop_last());
        match e {
            None => (None, units),
            Some(mark) => (
                Some(evs.last().1),
                units.push(
                    RecordUnit {
                        ge: evs.last().0,
                        interval: (elapsed_millis(mark, evs.last().1) % 0x1_0000_0000_0000_0000) as u64,
                    },
                ),
            ),
        }
    }
}

/// The time before event `i` of `evs`: since the previous event, or since `t0` for the first.
pub open spec fn stamp_gap(t0: u128, evs: Seq<(GameEvent, u128)>, i: int) -> u128 {
    elapsed_millis(if i == 0 { t0 } else { evs[i - 1].1 }, evs[i].1)
}

/// While recording is on, since `t0`, each event is recorded, in order, with the whole
/// milliseconds since the one before it (since `t0` for the first); while it is off nothing is
/// recorded.
pub proof fn lemma_stamps_in_order(t0: u128, evs: Seq<(GameEvent, u128)>)
    ensures
        spec_stamps(None, evs).1 == Seq::<RecordUnit>::empty(),
        spec_stamps(Some(t0), evs).1.len() == evs.len(),
        forall|i: int| 0 <= i < evs.len() ==> #[trigger] spec_stamps(Some(t0), evs).1[i] == (RecordUnit {
            ge: evs[i].0,
            interval: (stamp_gap(t0, evs, i) % 0x1_0000_0000_0000_0000) as u64,
        }),
        evs.len() > 0 ==> spec_stamps(Some(t0), evs).0 == Some(evs.last().1),
    decreases evs.len(),
{
    if evs.len() > 0 {
        lemma_stamps_in_order(t0, evs.drop_last());
        let prev = evs.drop_last();
        assert forall|i: int| 0 <= i < evs.len() implies #[trigger] spec_stamps(Some(t0), evs).1[i] == (RecordUnit {
            ge: evs[i].0,
            interval: (stamp_gap(t0, evs, i) % 0x1_0000_0000_0000_0000) as u64,
        }) by {
            if i < evs.len() - 1 {
                assert(spec_stamps(Some(t0), prev).1[i] == (RecordUnit {
                    ge: prev[i].0,
                    interval: (stamp_gap(t0, prev, i) % 0x1_0000_0000_0000_0000) as u64,
                }));
                assert(prev[i] == evs[i]);
                if i > 0 {
                    assert(prev[i - 1] == evs[i - 1]);
                }
            } else if i > 0 {
                assert(prev.last() == evs[i - 1]);
            }
        }
    }
}

} // verus!
