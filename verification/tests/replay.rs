use std::collections::VecDeque;
use yunfengzh_monolith::from_bevy::{GameEvent, RecordUnit, Tape, VTape};

fn tape(owner: usize, units: &[(GameEvent, u128)]) -> Tape {
    let data: VecDeque<RecordUnit> = units.iter().map(|(ge, ms)| RecordUnit::new(*ge, *ms)).collect();
    Tape { owner, data }
}

/// Runs the schedule to the end: returns each fired unit with the time waited before it.
fn drain(v: &mut VTape) -> Vec<(usize, GameEvent, u64)> {
    let mut out = Vec::new();
    while v.len() > 0 {
        let current = v.calculate_min();
        let (id, ge) = v.fire(current);
        out.push((id, ge, current.1));
    }
    out
}

#[test]
fn replaybackend_play_empty() {
    let v = VTape::new();
    assert_eq!(v.len(), 0);
    assert_eq!(v.calculate_min(), (usize::MAX, u64::MAX));
}

#[test]
fn replaybackend_play() {
    let mut v = VTape::new();
    let t0 = tape(0, &[(GameEvent::MoveLeft, 100), (GameEvent::MoveLeft, 200)]);
    v.add_tape(t0, v.calculate_min(), 0);
    let t1 = tape(1, &[(GameEvent::MoveRight, 110), (GameEvent::MoveRight, 180)]);
    v.add_tape(t1, v.calculate_min(), 0);
    let fired = drain(&mut v);
    assert_eq!(
        fired,
        vec![
            (0, GameEvent::MoveLeft, 100),
            (1, GameEvent::MoveRight, 10),
            (1, GameEvent::MoveRight, 180),
            (0, GameEvent::MoveLeft, 10),
        ]
    );
}

#[test]
fn replaybackend_play_intrude() {
    let mut v = VTape::new();
    let t0 = tape(0, &[(GameEvent::MoveLeft, 200), (GameEvent::MoveLeft, 200)]);
    v.add_tape(t0, v.calculate_min(), 0);
    // The second tape arrives 50 milliseconds later.
    let t1 = tape(1, &[(GameEvent::MoveRight, 100), (GameEvent::MoveRight, 180)]);
    v.add_tape(t1, v.calculate_min(), 50);
    let fired = drain(&mut v);
    assert_eq!(
        fired,
        vec![
            (1, GameEvent::MoveRight, 100),
            (0, GameEvent::MoveLeft, 50),
            (1, GameEvent::MoveRight, 130),
            (0, GameEvent::MoveLeft, 70),
        ]
    );
}

#[test]
fn equal_heads_fire_the_first_tape_first() {
    let mut v = VTape::new();
    v.add_tape(tape(3, &[(GameEvent::Jump, 40)]), v.calculate_min(), 0);
    v.add_tape(tape(4, &[(GameEvent::MoveUp, 40)]), v.calculate_min(), 0);
    assert_eq!(v.calculate_min(), (0, 40));
    assert_eq!(v.fire((0, 40)), (3, GameEvent::Jump));
    // The other tape's unit is now due at once: its wait is no timer period.
    assert_eq!(v.len(), 1);
    assert!(v.due_now());
}

#[test]
fn later_tape_does_not_shift_the_schedule() {
    let mut v = VTape::new();
    v.add_tape(tape(0, &[(GameEvent::MoveLeft, 100)]), v.calculate_min(), 0);
    // The new tape is due later than the current unit: nothing is shifted, even after 70 ms.
    v.add_tape(tape(1, &[(GameEvent::MoveRight, 150)]), v.calculate_min(), 70);
    assert_eq!(v.calculate_min(), (0, 100));
}

#[test]
fn elapsed_time_is_capped_by_the_current_unit() {
    let mut v = VTape::new();
    v.add_tape(tape(0, &[(GameEvent::MoveLeft, 30), (GameEvent::MoveLeft, 5)]), v.calculate_min(), 0);
    // 500 ms went by, but only the 30 ms before the current unit count.
    v.add_tape(tape(1, &[(GameEvent::MoveRight, 20)]), v.calculate_min(), 500);
    assert_eq!(v.len(), 2);
    assert!(v.due_now());
}

#[test]
fn remove_min_elem_drops_empty_tapes() {
    let mut v = VTape::new();
    v.add_tape(tape(0, &[(GameEvent::MoveLeft, 5)]), v.calculate_min(), 0);
    v.add_tape(tape(1, &[(GameEvent::MoveRight, 9), (GameEvent::Jump, 1)]), v.calculate_min(), 0);
    v.add_tape(tape(2, &[(GameEvent::MoveUp, 7)]), v.calculate_min(), 0);
    assert_eq!(v.remove_min_elem(0), (0, GameEvent::MoveLeft));
    assert_eq!(v.len(), 2);
    // The last tape took the place of the removed one.
    assert_eq!(v.calculate_min(), (0, 7));
    assert_eq!(v.remove_min_elem(1), (1, GameEvent::MoveRight));
    assert_eq!(v.len(), 2);
    v.update_elapsed_time(1);
    assert!(v.due_now());
}

// Two units recorded in the same millisecond: the second has a zero wait.
#[test]
fn unit_recorded_in_the_same_millisecond_has_a_zero_wait() {
    let mut v = VTape::new();
    v.add_tape(tape(2, &[(GameEvent::Jump, 30), (GameEvent::MoveUp, 0)]), v.calculate_min(), 0);
    assert_eq!(v.calculate_min(), (0, 30));
    let current = v.calculate_min();
    assert_eq!(v.fire(current), (2, GameEvent::Jump));
    assert!(v.due_now());
}

#[test]
fn nothing_is_due_at_once_while_every_wait_is_positive() {
    let mut v = VTape::new();
    assert!(!v.due_now());
    v.add_tape(tape(0, &[(GameEvent::MoveLeft, 10), (GameEvent::MoveLeft, 1)]), v.calculate_min(), 0);
    v.add_tape(tape(1, &[(GameEvent::MoveRight, 12)]), v.calculate_min(), 0);
    assert!(!v.due_now());
    assert_eq!(v.fire((0, 10)), (0, GameEvent::MoveLeft));
    assert!(!v.due_now());
    assert_eq!(v.calculate_min(), (0, 1));
}
