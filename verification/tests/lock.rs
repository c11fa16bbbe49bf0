use yunfengzh_monolith::lock::{ConfirmState, PauseReason, Referee, RefereeState, ResumeAction};

#[test]
fn referee_starts_idle() {
    let referee = Referee::new();
    assert_eq!(referee.get_state(), RefereeState::Idle);
    assert_eq!(referee.get_reason(), PauseReason::NoReason);
    assert_eq!(referee.roster_len(), 0);
    assert_eq!(referee.get_new_athlete_cnt(), 0);
}

#[test]
fn register_hands_out_increasing_ids() {
    let mut referee = Referee::new();
    let a = referee.register("a".to_string());
    let b = referee.register("b".to_string());
    assert_eq!(a.get_id(), 1);
    assert_eq!(b.get_id(), 2);
    assert_eq!(referee.roster_len(), 2);
    assert_eq!(referee.get_desc(2), Some(&"b".to_string()));
    assert!(referee.unregister(1) == false);
    assert!(!referee.contains(1));
    let c = referee.register("c".to_string());
    assert_eq!(c.get_id(), 3);
}

// No athlete at all: the pause completes at once, in the savegame stage, and the resume frees
// the referee.
#[test]
fn referee_pausereason_save_empty() {
    let mut referee = Referee::new();
    let mut progress = referee.pause_and_wait_confirmation(PauseReason::Save).unwrap();
    assert_eq!(progress.waiting, 0);
    assert_eq!(referee.get_state(), RefereeState::PauseStage);
    assert_eq!(referee.collect_new_athletes(&mut progress), Some(true));
    assert_eq!(referee.get_state(), RefereeState::SavegameStage);
    assert_eq!(referee.roster_len(), 0);
    assert!(referee.get_athlets().is_empty());
    assert_eq!(referee.resume(), ResumeAction::BroadcastResume);
    assert_eq!(referee.get_state(), RefereeState::Idle);
    assert_eq!(referee.roster_len(), 0);
}

// Athlete a confirms, b leaves, c registers during the pause stage and leaves, d registers in
// the savegame stage.
#[test]
fn referee_pausereason_save() {
    let mut referee = Referee::new();
    let mut a = referee.register("a".to_string());
    assert_eq!(referee.get_state(), RefereeState::Idle);
    assert_eq!(referee.roster_len(), 1);
    let b = referee.register("a".to_string());
    assert_eq!(referee.roster_len(), 2);
    assert_eq!(a.wait_pause(), None);

    let mut progress = referee.pause_and_wait_confirmation(PauseReason::Save).unwrap();
    assert_eq!(progress.current, 2);
    assert_eq!(progress.waiting, 2);
    assert_eq!(referee.get_state(), RefereeState::PauseStage);

    // c registers while confirmations are collected: it must answer the pause too.
    let mut c = referee.register("c".to_string());
    assert_eq!(c.wait_pause(), Some(PauseReason::Save));
    assert_eq!(c.wait_pause(), None);
    assert_eq!(referee.get_state(), RefereeState::PauseStage);
    assert_eq!(referee.get_new_athlete_cnt(), 1);
    assert_eq!(referee.roster_len(), 3);

    // b leaves during the pause stage: it confirms that it drops.
    assert!(referee.unregister(b.get_id()));
    assert!(progress.confirm(ConfirmState::Drop));
    // a is ready.
    assert!(progress.confirm(ConfirmState::Cont));
    assert_eq!(progress.waiting, 0);

    // The first round ends: c is still awaited.
    assert_eq!(referee.collect_new_athletes(&mut progress), None);
    assert_eq!(progress.waiting, 1);
    assert_eq!(progress.new_athletes, 1);
    assert!(referee.unregister(c.get_id()));
    assert!(progress.confirm(ConfirmState::Drop));
    assert_eq!(referee.collect_new_athletes(&mut progress), Some(true));
    assert_eq!(progress.confirmed, 3);
    assert_eq!(progress.dropped, 2);

    assert_eq!(referee.get_state(), RefereeState::SavegameStage);
    assert_eq!(referee.roster_len(), 1);
    assert_eq!(referee.get_athlets(), vec![a.get_id()]);

    // d registers in the savegame stage: it is not asked to confirm.
    let mut d = referee.register("d".to_string());
    assert_eq!(d.wait_pause(), None);
    assert_eq!(referee.get_state(), RefereeState::SavegameStage);
    assert_eq!(referee.get_new_athlete_cnt(), 0);
    assert_eq!(referee.roster_len(), 2);
    assert!(!referee.unregister(d.get_id()));

    assert_eq!(referee.resume(), ResumeAction::BroadcastResume);
    assert!(!referee.unregister(a.get_id()));
    assert_eq!(referee.get_state(), RefereeState::Idle);
    assert_eq!(referee.roster_len(), 0);
}

// After a load every athlete leaves; a confirmation that keeps running is illegal.
#[test]
fn referee_pausereason_load() {
    let mut referee = Referee::new();
    let a = referee.register("a".to_string());
    assert_eq!(referee.roster_len(), 1);
    let mut progress = referee.pause_and_wait_confirmation(PauseReason::Load).unwrap();
    assert!(referee.unregister(a.get_id()));
    assert!(progress.confirm(ConfirmState::Drop));
    assert_eq!(referee.collect_new_athletes(&mut progress), Some(true));
    assert_eq!(referee.resume(), ResumeAction::WaitAthletesExit);
    assert_eq!(referee.get_state(), RefereeState::Idle);
    assert_eq!(referee.roster_len(), 0);
}

#[test]
fn load_confirmation_that_keeps_running_is_illegal() {
    let mut referee = Referee::new();
    referee.register("a".to_string());
    let mut progress = referee.pause_and_wait_confirmation(PauseReason::Load).unwrap();
    assert!(!progress.confirm(ConfirmState::Cont));
    assert_eq!(progress.confirmed, 1);
    assert_eq!(progress.dropped, 0);
}

#[test]
fn pause_gives_no_guard() {
    let mut referee = Referee::new();
    let mut progress = referee.pause_and_wait_confirmation(PauseReason::Pause).unwrap();
    assert_eq!(referee.collect_new_athletes(&mut progress), Some(false));
}

#[test]
fn second_pause_request_waits() {
    let mut referee = Referee::new();
    let _p = referee.pause_and_wait_confirmation(PauseReason::AlgoPause).unwrap();
    assert!(referee.pause_and_wait_confirmation(PauseReason::Save).is_none());
    assert_eq!(referee.get_reason(), PauseReason::AlgoPause);
    assert_eq!(referee.get_state(), RefereeState::PauseStage);
}

#[test]
fn pause_then_resume_restores_the_referee() {
    let mut referee = Referee::new();
    referee.register("a".to_string());
    let mut progress = referee.pause_and_wait_confirmation(PauseReason::Save).unwrap();
    assert!(progress.confirm(ConfirmState::Cont));
    assert_eq!(referee.collect_new_athletes(&mut progress), Some(true));
    referee.resume();
    assert_eq!(referee.get_state(), RefereeState::Idle);
    assert_eq!(referee.get_reason(), PauseReason::NoReason);
    assert_eq!(referee.roster_len(), 1);
    assert!(referee.contains(1));
    assert_eq!(referee.register("b".to_string()).get_id(), 2);
}

// One athlete at the start and two that join, one in each round: the pause completes after
// exactly three confirmations.
#[test]
fn pause_completes_after_every_athlete_confirms() {
    let mut referee = Referee::new();
    let _a = referee.register("a".to_string());
    let mut progress = referee.pause_and_wait_confirmation(PauseReason::AlgoPause).unwrap();
    let _b = referee.register("b".to_string());
    assert!(progress.confirm(ConfirmState::Cont));
    assert_eq!(referee.collect_new_athletes(&mut progress), None);
    let _c = referee.register("c".to_string());
    assert!(progress.confirm(ConfirmState::Cont));
    assert_eq!(referee.collect_new_athletes(&mut progress), None);
    assert_eq!(progress.waiting, 1);
    assert!(progress.confirm(ConfirmState::Cont));
    assert_eq!(referee.collect_new_athletes(&mut progress), Some(true));
    assert_eq!(progress.confirmed, 3);
    assert_eq!(progress.current + progress.new_athletes, 3);
}
