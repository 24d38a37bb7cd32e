//! Server lifecycle state machine tests: idle sleep, stop handling, and the
//! start admission test.

use lazymc::server::{monitor_tick, start_server, ServerState};
use lazymc::status::{OnlinePlayers, ServerStatus, ServerVersion};

const MIN_ONLINE: u32 = 60;
const SLEEP_AFTER: u32 = 30;

fn probe(online: i32, max: i32) -> ServerStatus {
    ServerStatus {
        version: ServerVersion { name: b"1.16.5".to_vec(), protocol: 754 },
        description: b"motd".to_vec(),
        players: OnlinePlayers { online, max },
    }
}

fn idle_online_state(now: u64) -> ServerState {
    let mut state = ServerState::new();
    state.set_online(true);
    state.set_status(probe(0, 20));
    state.update_last_active_time(now - (SLEEP_AFTER as u64) - 1);
    state
}

#[test]
fn should_sleep_after_idle_window() {
    let now: u64 = 10_000;
    let state = idle_online_state(now);
    assert!(state.should_sleep(now, SLEEP_AFTER));
}

#[test]
fn should_sleep_false_when_guarded() {
    let now: u64 = 10_000;

    let mut state = idle_online_state(now);
    state.set_starting(true);
    assert!(!state.should_sleep(now, SLEEP_AFTER));

    let mut state = idle_online_state(now);
    state.set_online(false);
    assert!(!state.should_sleep(now, SLEEP_AFTER));

    let mut state = idle_online_state(now);
    state.set_status(probe(2, 20));
    assert!(!state.should_sleep(now, SLEEP_AFTER));

    let mut state = idle_online_state(now);
    state.set_keep_online_until(now, Some(5));
    assert!(!state.should_sleep(now, SLEEP_AFTER));

    let mut state = idle_online_state(now);
    state.update_last_active_time(now - (SLEEP_AFTER as u64) + 1);
    assert!(!state.should_sleep(now, SLEEP_AFTER));

    let mut state = ServerState::new();
    state.set_online(true);
    assert!(!state.should_sleep(now, SLEEP_AFTER));
}

#[test]
fn stopping_suppresses_online_on_update() {
    let now: u64 = 500;
    let mut state = ServerState::new();
    state.set_pid(Some(42));
    assert!(state.kill_server(true));
    assert!(state.stopping());
    assert!(!state.online());
    state.update_status(now, MIN_ONLINE, Some(probe(0, 20)));
    assert!(state.stopping());
    assert!(!state.online());
}

#[test]
fn coming_online_refreshes_timers() {
    let now: u64 = 1_000;
    let mut state = ServerState::new();
    state.update_status(now, MIN_ONLINE, Some(probe(0, 20)));
    assert!(state.online());
    // last_active refreshed to now, so no sleep before the window passes
    assert!(!state.should_sleep(now + (SLEEP_AFTER as u64) - 1, SLEEP_AFTER));
    // keep-online window armed for MIN_ONLINE seconds
    assert!(!state.should_sleep(now + (MIN_ONLINE as u64), 0));
    assert!(state.should_sleep(now + (MIN_ONLINE as u64) + 1, 0));
}

#[test]
fn players_online_refresh_last_active() {
    let now: u64 = 1_000;
    let mut state = ServerState::new();
    state.update_status(now, 0, Some(probe(3, 20)));
    let later = now + 100;
    state.update_status(later, 0, Some(probe(3, 20)));
    // players were online at `later`, so the idle window counts from there
    assert!(!state.should_sleep(later + 50, 100));
    state.update_status(later, 0, Some(probe(0, 20)));
    assert!(state.should_sleep(later + 100, 100));
}

#[test]
fn kill_server_without_pid_returns_false() {
    let mut state = ServerState::new();
    assert!(!state.kill_server(true));
    assert!(!state.stopping());
}

#[test]
fn kill_server_with_failed_stop_changes_nothing() {
    let mut state = ServerState::new();
    state.set_pid(Some(7));
    state.set_online(true);
    assert!(!state.kill_server(false));
    assert!(state.online());
    assert!(!state.stopping());
}

#[test]
fn kill_server_with_pid_marks_stopping() {
    let mut state = ServerState::new();
    state.set_pid(Some(7));
    state.set_online(true);
    state.set_keep_online_until(100, Some(600));
    assert!(state.kill_server(true));
    assert!(state.stopping());
    assert!(!state.online());
    // the keep-online window is cleared: idle sleep may be reconsidered
    state.reset_after_exit();
    assert!(!state.stopping());
    assert!(!state.has_pid());
}

#[test]
fn start_server_spawns_exactly_once() {
    let now: u64 = 2_000;
    let mut state = ServerState::new();
    assert!(start_server(&mut state, now));
    assert!(state.starting());
    assert!(!start_server(&mut state, now + 1));
    assert!(!start_server(&mut state, now + 2));
}

#[test]
fn monitor_tick_drives_idle_sleep() {
    let now: u64 = 50_000;
    let mut state = idle_online_state(now);
    // a probe with zero players past the idle window asks for a stop
    assert!(monitor_tick(&mut state, now, 0, SLEEP_AFTER, Some(probe(0, 20))));
    // a failed probe marks the server offline and asks for nothing
    let mut state = idle_online_state(now);
    assert!(!monitor_tick(&mut state, now, 0, SLEEP_AFTER, None));
    assert!(!state.online());
    // the sticky status survives the offline transition
    assert!(state.clone_status().is_some());
}

#[test]
fn clone_status_copies_the_value() {
    let mut state = ServerState::new();
    assert!(state.clone_status().is_none());
    state.set_status(probe(1, 10));
    let copy = state.clone_status().unwrap();
    assert_eq!(copy.players.online, 1);
    assert_eq!(copy.players.max, 10);
    assert_eq!(copy.version.name, b"1.16.5".to_vec());
}
