//! The Referee-Athlete lock: a lock model designed for save files.
//!
//! Unlike a notification-observer model, the [Referee] lets each [Athlete] prepare its data
//! before a pause (load, save, pause, algorithm pause) takes effect:
//!
//! 1. an athlete waits for a pause request;
//! 2. a user asks the referee to pause and waits for every athlete's confirmation;
//! 3. each athlete prepares its data, confirms and waits for the resume;
//! 4. the user does its job (such as saving the game) and resumes.
//!
//! This module holds the referee's bookkeeping and every decision of the protocol as
//! functions from state and event to next state and action. Waiting on channels, broadcasting
//! the pause and resume signals and queueing concurrent pause requests is left to the caller,
//! which performs the returned action and reports the next event.

use vstd::prelude::*;
use std::collections::HashMap;
use vstd::std_specs::iter::IteratorSpec;

verus! {

broadcast use vstd::std_specs::hash::group_hash_axioms;

/// Why a pause is requested.
#[derive(Copy, Clone, Debug, PartialEq, Eq, Structural)]
pub enum PauseReason {
    /// No reason: no pause holds the referee.
    NoReason,
    Load,
    Pause,
    AlgoPause,
    Save,
}

/// What an athlete reports to the referee when it answers a pause request.
#[derive(Copy, Clone, Debug, PartialEq, Eq, Structural)]
pub enum ConfirmState {
    /// The athlete is ready and keeps running.
    Cont,
    /// The athlete leaves.
    Drop,
}

/// The stage the referee is in.
#[derive(Copy, Clone, Debug, PartialEq, Eq, Structural)]
pub enum RefereeState {
    /// No pause in progress.
    Idle,
    /// Pause requested, confirmations are being collected.
    PauseStage,
    /// Every athlete confirmed: the requester does its job until it resumes.
    SavegameStage,
}

/// What the caller must do to resume the athletes.
#[derive(Copy, Clone, Debug, PartialEq, Eq, Structural)]
pub enum ResumeAction {
    /// After a load every athlete leaves: wait until all of them are gone.
    WaitAthletesExit,
    /// Wake every athlete waiting for the resume signal.
    BroadcastResume,
}

/// The abstract state of a referee.
pub struct RefereeView {
    pub state: RefereeState,
    /// The reason of the pause in progress; `PauseReason::NoReason` when no pause holds the referee.
    pub reason: PauseReason,
    /// Athletes that registered while confirmations were being collected.
    pub new_athlete_cnt: nat,
    /// The identifier the next athlete receives.
    pub counter: nat,
    /// Registered athletes and their descriptions.
    pub roster: Map<usize, String>,
}

/// The referee's bookkeeping.
pub struct Referee {
    state: RefereeState,
    reason: PauseReason,
    new_athlete_cnt: usize,
    counter: usize,
    roster: HashMap<usize, String>,
}

/// The bookkeeping an athlete keeps.
pub struct Athlete {
    id: usize,
    forced_pause_request: Option<PauseReason>,
}

/// Progress of a pause request while confirmations are collected.
pub struct PauseProgress {
    /// The reason of this pause.
    pub reason: PauseReason,
    /// Athletes registered when the pause started.
    pub current: usize,
    /// Athletes that registered during the pause stage and were asked to confirm too.
    pub new_athletes: usize,
    /// Confirmations still awaited in this round.
    pub waiting: usize,
    /// Confirmations received so far.
    pub confirmed: usize,
    /// Confirmations that announced the athlete leaves.
    pub dropped: usize,
}

impl PauseProgress {
    /// Every confirmation is either received or awaited.
    pub open spec fn wf(&self) -> bool {
        &&& self.confirmed + self.waiting == self.current + self.new_athletes
        &&& self.current + self.new_athletes <= usize::MAX
        &&& self.dropped <= self.confirmed
    }

    /// Records the confirmation `state` of one athlete. Returns whether it is legal: after a
    /// load request every athlete must leave.
    pub fn confirm(&mut self, state: ConfirmState) -> (legal: bool)
        requires
            old(self).wf(),
            old(self).waiting > 0,
        ensures
            final(self).wf(),
            final(self).reason == old(self).reason,
            final(self).current == old(self).current,
            final(self).new_athletes == old(self).new_athletes,
            final(self).waiting == old(self).waiting - 1,
            final(self).confirmed == old(self).confirmed + 1,
            final(self).dropped == old(self).dropped + (if state == ConfirmState::Drop { 1int } else { 0int }),
            legal == !(old(self).reason == PauseReason::Load && state == ConfirmState::Cont),
            *final(self) == spec_confirm(*old(self), state),
    {
        self.waiting = self.waiting - 1;
        self.confirmed = self.confirmed + 1;
        if let ConfirmState::Drop = state {
            self.dropped = self.dropped + 1;
        }
        match self.reason {
            PauseReason::Load => match state {
                ConfirmState::Drop => true,
                ConfirmState::Cont => false,
            },
            _ => true,
        }
    }
}

impl Athlete {
    pub closed spec fn spec_id(&self) -> usize {
        self.id
    }

    pub closed spec fn spec_forced_pause_request(&self) -> Option<PauseReason> {
        self.forced_pause_request
    }

    pub fn get_id(&self) -> (id: usize)
        ensures
            id == self.spec_id(),
    {
        self.id
    }

    /// The pause request the athlete must answer before any broadcast one, if any: an athlete
    /// that registers while confirmations are collected is asked to confirm too. The request is
    /// handed out once; `None` means the athlete waits for the next broadcast request.
    pub fn wait_pause(&mut self) -> (forced: Option<PauseReason>)
        ensures
            forced == old(self).spec_forced_pause_request(),
            final(self).spec_forced_pause_request() == None::<PauseReason>,
            final(self).spec_id() == old(self).spec_id(),
    {
        self.forced_pause_request.take()
    }
}

/// The referee after `register`.
pub open spec fn spec_register(v: RefereeView, desc: String) -> RefereeView {
    RefereeView {
        new_athlete_cnt: if v.state == RefereeState::PauseStage {
            v.new_athlete_cnt + 1
        } else {
            v.new_athlete_cnt
        },
        counter: if v.counter == usize::MAX { 0 } else { v.counter + 1 },
        roster: v.roster.insert(v.counter as usize, desc),
        ..v
    }
}

/// The pause request forced on an athlete that registers in state `v`.
pub open spec fn spec_forced_request(v: RefereeView) -> Option<PauseReason> {
    if v.state == RefereeState::PauseStage {
        Some(v.reason)
    } else {
        None
    }
}

/// The referee after a pause request for `reason`, when no pause holds it.
pub open spec fn spec_begin_pause(v: RefereeView, reason: PauseReason) -> RefereeView {
    RefereeView { state: RefereeState::PauseStage, reason, ..v }
}

/// The referee after the end of a confirmation round: the new athletes are taken over and, when
/// there are none, the savegame stage starts.
pub open spec fn spec_end_round(v: RefereeView) -> RefereeView {
    RefereeView {
        state: if v.new_athlete_cnt == 0 { RefereeState::SavegameStage } else { v.state },
        new_athlete_cnt: 0,
        ..v
    }
}

/// The referee after `resume`.
pub open spec fn spec_resume(v: RefereeView) -> RefereeView {
    RefereeView { state: RefereeState::Idle, reason: PauseReason::NoReason, ..v }
}

/// What `resume` asks the caller to do for the pause `reason`.
pub open spec fn spec_resume_action(reason: PauseReason) -> ResumeAction {
    if reason == PauseReason::Load {
        ResumeAction::WaitAthletesExit
    } else {
        ResumeAction::BroadcastResume
    }
}

/// Only a load makes the athletes leave: `resume` has the caller wait for the athletes to
/// exit exactly after a load, the one pause in which no athlete may continue, and broadcasts the
/// resume after a save, a pause and an algorithm's pause.
pub proof fn lemma_only_load_makes_athletes_leave(reason: PauseReason)
    ensures
        spec_resume_action(reason) == ResumeAction::WaitAthletesExit <==> reason == PauseReason::Load,
        reason != PauseReason::Load ==> spec_resume_action(reason) == ResumeAction::BroadcastResume,
        spec_resume_action(PauseReason::Save) == ResumeAction::BroadcastResume,
        spec_resume_action(PauseReason::Pause) == ResumeAction::BroadcastResume,
        spec_resume_action(PauseReason::AlgoPause) == ResumeAction::BroadcastResume,
{
}

/// The protocol invariant: a pause holds the referee exactly when it is out of the idle stage,
/// and athletes are counted as newcomers only while confirmations are collected.
pub open spec fn protocol_inv(v: RefereeView) -> bool {
    &&& (v.state == RefereeState::Idle <==> v.reason == PauseReason::NoReason)
    &&& (v.state != RefereeState::PauseStage ==> v.new_athlete_cnt == 0)
}

/// Every identifier handed out so far is below the counter.
pub open spec fn ids_below_counter(v: RefereeView) -> bool {
    forall|id: usize| v.roster.contains_key(id) ==> id < v.counter
}

/// Every step of the protocol keeps the protocol invariant: registering and unregistering at any
/// time, a pause request for an actual reason when the referee is free, the end of a round of
/// confirmations, and the resume in the savegame stage.
pub proof fn lemma_protocol_inv_preserved(v: RefereeView, desc: String, id: usize, reason: PauseReason)
    requires
        protocol_inv(v),
    ensures
        protocol_inv(spec_register(v, desc)),
        protocol_inv(RefereeView { roster: v.roster.remove(id), ..v }),
        v.reason == PauseReason::NoReason && reason != PauseReason::NoReason ==> protocol_inv(
            spec_begin_pause(v, reason),
        ),
        v.state == RefereeState::PauseStage ==> protocol_inv(spec_end_round(v)),
        v.state == RefereeState::SavegameStage ==> protocol_inv(spec_resume(v)),
{
}

/// Identifiers are unique: while the counter has not wrapped around, a registering athlete gets
/// an identifier no registered athlete has, and all identifiers stay below the counter.
pub proof fn lemma_register_fresh_id(v: RefereeView, desc: String)
    requires
        ids_below_counter(v),
        v.counter < usize::MAX,
    ensures
        !v.roster.contains_key(v.counter as usize),
        ids_below_counter(spec_register(v, desc)),
{
}

/// A pause for an actual reason, during which no athlete joins, followed by the resume, leaves
/// a free referee as it was: same stage, same roster, same counter.
pub proof fn lemma_pause_resume_restores(v: RefereeView, reason: PauseReason)
    requires
        protocol_inv(v),
        v.reason == PauseReason::NoReason,
        reason != PauseReason::NoReason,
    ensures
        spec_end_round(spec_begin_pause(v, reason)).state == RefereeState::SavegameStage,
        spec_resume(spec_end_round(spec_begin_pause(v, reason))) == v,
{
}

/// When a pause completes (no confirmation awaited and no newcomer left), every athlete
/// registered at the start of the pause and every athlete that joined during it has confirmed.
pub proof fn lemma_pause_complete_all_confirmed(p: PauseProgress)
    requires
        p.wf(),
        p.waiting == 0,
    ensures
        p.confirmed == p.current + p.new_athletes,
{
}

/// What happens while a pause collects confirmations: an athlete registers, an athlete
/// confirms (an athlete that unregisters confirms that it leaves), or a round of confirmations
/// ends.
pub enum PauseEvent {
    Register(String),
    Confirm(ConfirmState),
    EndRound,
}

/// The progress of a pause for `reason` that starts in `v`: every registered athlete is asked.
pub open spec fn spec_start_progress(v: RefereeView, reason: PauseReason) -> PauseProgress {
    PauseProgress {
        reason,
        current: v.roster.len() as usize,
        new_athletes: 0,
        waiting: v.roster.len() as usize,
        confirmed: 0,
        dropped: 0,
    }
}

/// The progress after one confirmation `state`.
pub open spec fn spec_confirm(p: PauseProgress, state: ConfirmState) -> PauseProgress {
    PauseProgress {
        waiting: (p.waiting - 1) as usize,
        confirmed: (p.confirmed + 1) as usize,
        dropped: if state == ConfirmState::Drop { (p.dropped + 1) as usize } else { p.dropped },
        ..p
    }
}

/// The progress after the end of a round in `v`: the newcomers are awaited next.
pub open spec fn spec_collect(v: RefereeView, p: PauseProgress) -> PauseProgress {
    PauseProgress {
        waiting: v.new_athlete_cnt as usize,
        new_athletes: (p.new_athletes + v.new_athlete_cnt) as usize,
        ..p
    }
}

/// One event of a pause in progress, as the referee and the pause's progress take it; `None`
/// when the event cannot happen there: the pause is over, a confirmation nobody awaits, or a
/// round that ends with confirmations awaited.
pub open spec fn spec_pause_step(v: RefereeView, p: PauseProgress, e: PauseEvent) -> Option<(RefereeView, PauseProgress)> {
    if v.state != RefereeState::PauseStage {
        None
    } else {
        match e {
            PauseEvent::Register(desc) => if v.new_athlete_cnt < usize::MAX {
                Some((spec_register(v, desc), p))
            } else {
                None
            },
            PauseEvent::Confirm(state) => if p.wf() && p.waiting > 0 {
                Some((v, spec_confirm(p, state)))
            } else {
                None
            },
            PauseEvent::EndRound => if p.wf() && p.waiting == 0 && p.current + p.new_athletes + v.new_athlete_cnt
                <= usize::MAX {
                Some((spec_end_round(v), spec_collect(v, p)))
            } else {
                None
            },
        }
    }
}

/// The events `evs`, in order, from `v` and `p`.
pub open spec fn spec_pause_run(v: RefereeView, p: PauseProgress, evs: Seq<PauseEvent>) -> Option<(RefereeView, PauseProgress)>
    decreases evs.len(),
{
    if evs.len() == 0 {
        Some((v, p))
    } else {
        match spec_pause_run(v, p, evs.drop_last()) {
            Some((v1, p1)) => spec_pause_step(v1, p1, evs.last()),
            None => None,
        }
    }
}

/// The number of registrations among `evs`.
pub open spec fn count_registers(evs: Seq<PauseEvent>) -> nat
    decreases evs.len(),
{
    if evs.len() == 0 {
        0
    } else {
        count_registers(evs.drop_last()) + if evs.last() is Register { 1nat } else { 0nat }
    }
}

/// While confirmations are collected, every athlete registered when the pause started and
/// every one that joined since is either confirmed, awaited in this round, or awaited in the
/// next; once the pause is over, all of them have confirmed.
proof fn lemma_pause_run_counts(v0: RefereeView, reason: PauseReason, evs: Seq<PauseEvent>)
    requires
        protocol_inv(v0),
        v0.reason == PauseReason::NoReason,
        reason != PauseReason::NoReason,
        v0.roster.len() <= usize::MAX,
        spec_pause_run(spec_begin_pause(v0, reason), spec_start_progress(v0, reason), evs) is Some,
    ensures
        ({
            let (v, p) = spec_pause_run(spec_begin_pause(v0, reason), spec_start_progress(v0, reason), evs)->0;
            &&& p.wf()
            &&& p.current == v0.roster.len()
            &&& v.state == RefereeState::PauseStage ==> p.confirmed + p.waiting + v.new_athlete_cnt == v0.roster.len()
                + count_registers(evs)
            &&& v.state == RefereeState::PauseStage ==> p.new_athletes + v.new_athlete_cnt == count_registers(evs)
            &&& v.state != RefereeState::PauseStage ==> v.state == RefereeState::SavegameStage && p.waiting == 0
                && p.confirmed == v0.roster.len() + count_registers(evs)
        }),
    decreases evs.len(),
{
    if evs.len() > 0 {
        lemma_pause_run_counts(v0, reason, evs.drop_last());
    }
}

/// A pause completes only after exactly `n0 + k` confirmations: one from each of the `n0`
/// athletes registered when it started, and one from each of the `k` that registered while it
/// collected confirmations.
pub proof fn lemma_pause_completes_after_all_confirmations(v0: RefereeView, reason: PauseReason, evs: Seq<PauseEvent>)
    requires
        protocol_inv(v0),
        v0.reason == PauseReason::NoReason,
        reason != PauseReason::NoReason,
        v0.roster.len() <= usize::MAX,
        spec_pause_run(spec_begin_pause(v0, reason), spec_start_progress(v0, reason), evs) matches Some((v, p))
            && v.state == RefereeState::SavegameStage,
    ensures
        ({
            let (v, p) = spec_pause_run(spec_begin_pause(v0, reason), spec_start_progress(v0, reason), evs)->0;
            p.confirmed == v0.roster.len() + count_registers(evs)
        }),
{
    lemma_pause_run_counts(v0, reason, evs);
}

impl View for Referee {
    type V = RefereeView;

    closed spec fn view(&self) -> RefereeView {
        RefereeView {
            state: self.state,
            reason: self.reason,
            new_athlete_cnt: self.new_athlete_cnt as nat,
            counter: self.counter as nat,
            roster: self.roster@,
        }
    }
}

impl Referee {
    /// A referee with no athlete and no pause; the first athlete gets identifier 1.
    pub fn new() -> (r: Self)
        ensures
            r@.state == RefereeState::Idle,
            r@.reason == PauseReason::NoReason,
            r@.new_athlete_cnt == 0,
            r@.counter == 1,
            r@.roster == Map::<usize, String>::empty(),
            ids_below_counter(r@),
            protocol_inv(r@),
    {
        Referee {
            state: RefereeState::Idle,
            reason: PauseReason::NoReason,
            new_athlete_cnt: 0,
            counter: 1,
            roster: HashMap::new(),
        }
    }

    pub fn get_state(&self) -> (s: RefereeState)
        ensures
            s == self@.state,
    {
        self.state
    }

    /// The reason of the pause that holds the referee, `PauseReason::NoReason` if none does.
    pub fn get_reason(&self) -> (r: PauseReason)
        ensures
            r == self@.reason,
    {
        self.reason
    }

    pub fn get_new_athlete_cnt(&self) -> (n: usize)
        ensures
            n == self@.new_athlete_cnt,
    {
        self.new_athlete_cnt
    }

    /// Number of registered athletes.
    pub fn roster_len(&self) -> (n: usize)
        ensures
            n == self@.roster.len(),
    {
        self.roster.len()
    }

    /// Whether athlete `id` is registered.
    pub fn contains(&self, id: usize) -> (b: bool)
        ensures
            b == self@.roster.contains_key(id),
    {
        self.roster.contains_key(&id)
    }

    /// The description athlete `id` registered with.
    pub fn get_desc(&self, id: usize) -> (d: Option<&String>)
        ensures
            d == (if self@.roster.contains_key(id) { Some(&self@.roster[id]) } else { None }),
    {
        self.roster.get(&id)
    }

    /// Registers an athlete described by `desc`. An athlete that registers while the
    /// confirmations of a pause are collected must answer that pause too: it is handed the
    /// pause request, and the referee waits for its confirmation.
    pub fn register(&mut self, desc: String) -> (athlete: Athlete)
        requires
            old(self)@.state == RefereeState::PauseStage ==> old(self)@.new_athlete_cnt < usize::MAX,
        ensures
            final(self)@ == spec_register(old(self)@, desc),
            athlete.spec_id() == old(self)@.counter,
            athlete.spec_forced_pause_request() == spec_forced_request(old(self)@),
            protocol_inv(old(self)@) ==> protocol_inv(final(self)@),
            ids_below_counter(old(self)@) && old(self)@.counter < usize::MAX ==> {
                &&& !old(self)@.roster.contains_key(athlete.spec_id())
                &&& ids_below_counter(final(self)@)
            },
    {
        proof {
            if ids_below_counter(self@) && self@.counter < usize::MAX {
                lemma_register_fresh_id(self@, desc);
            }
        }
        let forced_pause_request = match self.state {
            RefereeState::Idle => None,
            RefereeState::PauseStage => {
                self.new_athlete_cnt = self.new_athlete_cnt + 1;
                Some(self.reason)
            },
            RefereeState::SavegameStage => None,
        };
        let id = self.counter;
        self.counter = self.counter.wrapping_add(1);
        self.roster.insert(id, desc);
        Athlete { id, forced_pause_request }
    }

    /// Removes athlete `id`. Returns whether the athlete must confirm that it leaves: it must
    /// when confirmations are being collected, since the referee counts on its answer.
    pub fn unregister(&mut self, id: usize) -> (confirm_drop: bool)
        ensures
            final(self)@ == (RefereeView { roster: old(self)@.roster.remove(id), ..old(self)@ }),
            confirm_drop == (old(self)@.state == RefereeState::PauseStage),
            protocol_inv(old(self)@) ==> protocol_inv(final(self)@),
            ids_below_counter(old(self)@) ==> ids_below_counter(final(self)@),
    {
        self.roster.remove(&id);
        match self.state {
            RefereeState::PauseStage => true,
            _ => false,
        }
    }

    /// Starts a pause for `reason`. Pause requests are served one at a time: while another pause
    /// holds the referee nothing changes and `None` is returned, and the caller waits for the
    /// running pause to resume before it asks again. Otherwise the pause stage starts, the
    /// caller broadcasts the pause request to the athletes and collects one confirmation from
    /// each registered athlete.
    pub fn pause_and_wait_confirmation(&mut self, reason: PauseReason) -> (progress: Option<
        PauseProgress,
    >)
        ensures
            protocol_inv(old(self)@) && reason != PauseReason::NoReason ==> protocol_inv(final(self)@),
            old(self)@.reason != PauseReason::NoReason ==> progress is None && final(self)@ == old(
                self,
            )@,
            old(self)@.reason == PauseReason::NoReason ==> {
                &&& final(self)@ == spec_begin_pause(old(self)@, reason)
                &&& progress == Some(spec_start_progress(old(self)@, reason))
                &&& progress matches Some(p) && p.wf() && p.reason == reason && p.current
                    == old(self)@.roster.len() && p.waiting == p.current && p.new_athletes == 0
                    && p.confirmed == 0 && p.dropped == 0
            },
    {
        match self.reason {
            PauseReason::NoReason => {},
            _ => {
                return None;
            },
        }
        self.reason = reason;
        self.state = RefereeState::PauseStage;
        let cur = self.roster.len();
        Some(
            PauseProgress {
                reason,
                current: cur,
                new_athletes: 0,
                waiting: cur,
                confirmed: 0,
                dropped: 0,
            },
        )
    }

    /// Ends a round of confirmations. Athletes that registered during the round were asked to
    /// confirm too: when there are some, another round waits for them and `None` is returned.
    /// When there are none, the savegame stage starts and the pause is complete: the result
    /// tells whether the requester gets a guard that resumes the athletes when it is done,
    /// which is the case for every reason but `PauseReason::Pause`.
    pub fn collect_new_athletes(&mut self, progress: &mut PauseProgress) -> (done: Option<bool>)
        requires
            old(progress).wf(),
            old(progress).waiting == 0,
            old(progress).current + old(progress).new_athletes + old(self)@.new_athlete_cnt
                <= usize::MAX,
        ensures
            protocol_inv(old(self)@) && old(self)@.state == RefereeState::PauseStage ==> protocol_inv(final(self)@),
            final(self)@ == spec_end_round(old(self)@),
            final(progress).wf(),
            final(progress).reason == old(progress).reason,
            final(progress).current == old(progress).current,
            final(progress).confirmed == old(progress).confirmed,
            final(progress).dropped == old(progress).dropped,
            final(progress).waiting == old(self)@.new_athlete_cnt,
            final(progress).new_athletes == old(progress).new_athletes + old(self)@.new_athlete_cnt,
            *final(progress) == spec_collect(old(self)@, *old(progress)),
            done == (if old(self)@.new_athlete_cnt == 0 {
                Some(old(progress).reason != PauseReason::Pause)
            } else {
                None
            }),
    {
        let i = self.new_athlete_cnt;
        self.new_athlete_cnt = 0;
        progress.waiting = i;
        progress.new_athletes = progress.new_athletes + i;
        if i == 0 {
            self.state = RefereeState::SavegameStage;
            match progress.reason {
                PauseReason::Pause => Some(false),
                _ => Some(true),
            }
        } else {
            None
        }
    }

    /// Ends the pause: the referee is free again and the next queued pause request may start.
    /// The result tells how the caller resumes the athletes.
    pub fn resume(&mut self) -> (action: ResumeAction)
        requires
            old(self)@.reason != PauseReason::NoReason,
        ensures
            protocol_inv(old(self)@) && old(self)@.state == RefereeState::SavegameStage ==> protocol_inv(final(self)@),
            final(self)@ == spec_resume(old(self)@),
            action == spec_resume_action(old(self)@.reason),
    {
        let action = match self.reason {
            PauseReason::Load => ResumeAction::WaitAthletesExit,
            _ => ResumeAction::BroadcastResume,
        };
        self.reason = PauseReason::NoReason;
        self.state = RefereeState::Idle;
        action
    }

    /// Identifiers of the registered athletes.
    pub fn get_athlets(&self) -> (ids: Vec<usize>)
        ensures
            ids@.to_set() == self@.roster.dom(),
            ids@.no_duplicates(),
    {
        let mut ids: Vec<usize> = Vec::new();
        let keys = self.roster.keys();
        proof {
            vstd::std_specs::hash::axiom_spec_keys_iter(&self.roster);
        }
        let ghost all = vstd::std_specs::hash::spec_keys_iter(&self.roster).remaining();
        for id in iter: keys
            invariant
                iter.seq() == all,
                ids@.len() == iter.index(),
                forall|j: int| 0 <= j < ids@.len() ==> ids@[j] == *all[j],
        {
            ids.push(*id);
        }
        assert(ids@ =~= all.unref());
        ids
    }
}

} // verus!
