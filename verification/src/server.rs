//! Server lifecycle state: online/starting/stopping flags, PID, the sticky
//! last-known status, and the idle-sleep timers.
//!
//! Time is modelled as seconds handed in by the caller (`now`), so every
//! decision here is a pure function of the state and its arguments.

use vstd::prelude::*;
use crate::status::ServerStatus;

verus! {

/// Process-wide server state.  The caller shares one value behind its own
/// synchronisation; every operation here is sequential.
pub struct ServerState {
    /// Last probe succeeded and no stop is in progress.
    pub online: bool,
    /// A start was requested and the process has not exited.
    pub starting: bool,
    /// A stop was requested; suppresses `online` regardless of probes.
    pub stopping: bool,
    /// Present iff a spawned child process has not yet been reaped.
    pub pid: Option<u32>,
    /// Last successful probe result; sticky across offline transitions.
    pub status: Option<ServerStatus>,
    /// Most recent moment (seconds) the server was seen active.
    pub last_active: Option<u64>,
    /// Idle sleep is suppressed until this moment (seconds).
    pub keep_online_until: Option<u64>,
}

/// The keep-online deadline that a refresh sets: `now + d` for a positive
/// duration, nothing otherwise.
pub open spec fn spec_keep_until(now: u64, duration: Option<u32>) -> Option<u64> {
    match duration {
        Some(d) => if d > 0 {
            Some((now + d) as u64)
        } else {
            None
        },
        None => None,
    }
}

/// Whether the keep-online window is still active at `now`.
pub open spec fn spec_keep_online(st: ServerState, now: u64) -> bool {
    match st.keep_online_until {
        Some(t) => t >= now,
        None => false,
    }
}

/// Whether the last known status reports at least one online player.
pub open spec fn spec_players_online(st: ServerState) -> bool {
    match st.status {
        Some(s) => s.players.online > 0,
        None => false,
    }
}

/// Seconds elapsed since `t`, saturating at zero.
pub open spec fn spec_elapsed(now: u64, t: u64) -> int {
    if now >= t {
        now - t
    } else {
        0
    }
}

/// The state after a probe result is folded in: `online` is recomputed, a
/// false-to-true `online` transition refreshes the activity timer and the
/// keep-online window, online players refresh the activity timer, and a
/// provided status replaces the sticky one.
pub open spec fn spec_update_status(
    pre: ServerState,
    now: u64,
    min_online_time: u32,
    status: Option<ServerStatus>,
) -> ServerState {
    let online = status is Some && !pre.stopping;
    let came_online = !pre.online && online;
    let active_players = match status {
        Some(s) => s.players.online > 0,
        None => false,
    };
    ServerState {
        online,
        starting: pre.starting,
        stopping: pre.stopping,
        pid: pre.pid,
        status: if status is Some {
            status
        } else {
            pre.status
        },
        last_active: if came_online || active_players {
            Some(now)
        } else {
            pre.last_active
        },
        keep_online_until: if came_online {
            spec_keep_until(now, Some(min_online_time))
        } else {
            pre.keep_online_until
        },
    }
}

/// Whether the server should now be put to sleep: the keep-online window has
/// passed, the server is online and not starting, no players are online, and
/// the server has been idle for at least `sleep_after` seconds.
pub open spec fn spec_should_sleep(st: ServerState, now: u64, sleep_after: u32) -> bool {
    &&& !spec_keep_online(st, now)
    &&& st.online
    &&& !st.starting
    &&& !spec_players_online(st)
    &&& match st.last_active {
        Some(t) => spec_elapsed(now, t) >= sleep_after,
        None => false,
    }
}

impl ServerState {
    /// A fresh state: offline, idle, nothing known.
    pub fn new() -> (r: Self)
        ensures
            !r.online,
            !r.starting,
            !r.stopping,
            r.pid is None,
            r.status is None,
            r.last_active is None,
            r.keep_online_until is None,
    {
        ServerState {
            online: false,
            starting: false,
            stopping: false,
            pid: None,
            status: None,
            last_active: None,
            keep_online_until: None,
        }
    }

    /// Whether the server is online.
    pub fn online(&self) -> (r: bool)
        ensures
            r == self.online,
    {
        self.online
    }

    /// Set whether the server is online.
    pub fn set_online(&mut self, online: bool)
        ensures
            *final(self) == (ServerState { online, ..*old(self) }),
    {
        self.online = online;
    }

    /// Whether the server is starting.
    pub fn starting(&self) -> (r: bool)
        ensures
            r == self.starting,
    {
        self.starting
    }

    /// Set whether the server is starting.
    pub fn set_starting(&mut self, starting: bool)
        ensures
            *final(self) == (ServerState { starting, ..*old(self) }),
    {
        self.starting = starting;
    }

    /// Whether a stop was requested.
    pub fn stopping(&self) -> (r: bool)
        ensures
            r == self.stopping,
    {
        self.stopping
    }

    /// Whether a spawned child is being tracked.
    pub fn has_pid(&self) -> (r: bool)
        ensures
            r == (self.pid is Some),
    {
        self.pid.is_some()
    }

    /// The tracked child PID, if any.
    pub fn pid(&self) -> (r: Option<u32>)
        ensures
            r == self.pid,
    {
        self.pid
    }

    /// Set the tracked child PID.
    pub fn set_pid(&mut self, pid: Option<u32>)
        ensures
            *final(self) == (ServerState { pid, ..*old(self) }),
    {
        self.pid = pid;
    }

    /// A copy of the last known server status.
    pub fn clone_status(&self) -> (r: Option<ServerStatus>)
        ensures
            r is Some <==> self.status is Some,
            match r {
                Some(a) => self.status matches Some(b) && a@ == b@,
                None => self.status is None,
            },
    {
        match &self.status {
            Some(s) => Some(s.duplicate()),
            None => None,
        }
    }

    /// Replace the sticky status with a newer one.
    pub fn set_status(&mut self, status: ServerStatus)
        ensures
            *final(self) == (ServerState { status: Some(status), ..*old(self) }),
    {
        self.status = Some(status);
    }

    /// Record that the server was active at `now`.
    pub fn update_last_active_time(&mut self, now: u64)
        ensures
            *final(self) == (ServerState { last_active: Some(now), ..*old(self) }),
    {
        self.last_active = Some(now);
    }

    /// Suppress idle sleep for `duration` seconds from `now`; a zero or
    /// absent duration clears the window.
    pub fn set_keep_online_until(&mut self, now: u64, duration: Option<u32>)
        requires
            now <= 0xFFFF_FFFF_0000_0000,
        ensures
            *final(self) == (ServerState {
                keep_online_until: spec_keep_until(now, duration),
                ..*old(self)
            }),
    {
        self.keep_online_until = match duration {
            Some(d) => if d > 0 {
                Some(now + d as u64)
            } else {
                None
            },
            None => None,
        };
    }

    /// Fold a probe result into the state (see [`spec_update_status`]).
    pub fn update_status(&mut self, now: u64, min_online_time: u32, status: Option<ServerStatus>)
        requires
            now <= 0xFFFF_FFFF_0000_0000,
        ensures
            *final(self) == spec_update_status(*old(self), now, min_online_time, status),
    {
        let was_online = self.online;
        let online = status.is_some() && !self.stopping;
        self.online = online;
        if !was_online && online {
            self.update_last_active_time(now);
            self.set_keep_online_until(now, Some(min_online_time));
        }
        match status {
            Some(s) => {
                if s.players.online > 0 {
                    self.update_last_active_time(now);
                }
                self.set_status(s);
            },
            None => {},
        }
    }

    /// Decide idle sleep (see [`spec_should_sleep`]).
    pub fn should_sleep(&self, now: u64, sleep_after: u32) -> (r: bool)
        ensures
            r == spec_should_sleep(*self, now, sleep_after),
    {
        let keep_online = match self.keep_online_until {
            Some(t) => t >= now,
            None => false,
        };
        if keep_online {
            return false;
        }
        if !self.online || self.starting {
            return false;
        }
        let players_online = match &self.status {
            Some(s) => s.players.online > 0,
            None => false,
        };
        if players_online {
            return false;
        }
        match self.last_active {
            Some(t) => {
                let elapsed = if now >= t {
                    now - t
                } else {
                    0
                };
                elapsed >= sleep_after as u64
            },
            None => false,
        }
    }

    /// Record the outcome of a stop attempt.  Returns true — and marks the
    /// state as stopping, offline and free of its keep-online window — iff a
    /// child is being tracked and the caller's stop attempt succeeded.
    pub fn kill_server(&mut self, stop_succeeded: bool) -> (r: bool)
        ensures
            r == (old(self).pid is Some && stop_succeeded),
            r ==> *final(self) == (ServerState {
                online: false,
                stopping: true,
                keep_online_until: None,
                ..*old(self)
            }),
            !r ==> *final(self) == *old(self),
    {
        if self.pid.is_none() {
            return false;
        }
        if !stop_succeeded {
            return false;
        }
        self.online = false;
        self.stopping = true;
        self.keep_online_until = None;
        true
    }

    /// Reset after the child process exited: nothing tracked, all flags down.
    pub fn reset_after_exit(&mut self)
        ensures
            *final(self) == (ServerState {
                online: false,
                starting: false,
                stopping: false,
                pid: None,
                ..*old(self)
            }),
    {
        self.pid = None;
        self.online = false;
        self.starting = false;
        self.stopping = false;
    }
}

/// Admission test for starting the backend: the first caller flips
/// `starting` and refreshes the activity timer, and only that caller is told
/// to spawn the process controller; later callers are refused.
pub fn start_server(state: &mut ServerState, now: u64) -> (spawn: bool)
    ensures
        spawn == !old(state).starting,
        spawn ==> *final(state) == (ServerState {
            starting: true,
            last_active: Some(now),
            ..*old(state)
        }),
        !spawn ==> *final(state) == *old(state),
{
    if state.starting {
        return false;
    }
    state.set_starting(true);
    state.update_last_active_time(now);
    true
}

/// One monitor tick: fold the probe result in, then decide idle sleep.
pub fn monitor_tick(
    state: &mut ServerState,
    now: u64,
    min_online_time: u32,
    sleep_after: u32,
    status: Option<ServerStatus>,
) -> (sleep: bool)
    requires
        now <= 0xFFFF_FFFF_0000_0000,
    ensures
        *final(state) == spec_update_status(*old(state), now, min_online_time, status),
        sleep == spec_should_sleep(*final(state), now, sleep_after),
{
    state.update_status(now, min_online_time, status);
    state.should_sleep(now, sleep_after)
}

/// Law: a stop request never leaves the server marked online — after any
/// `update_status`, `stopping` implies `!online`.
pub proof fn lemma_stopping_suppresses_online(
    pre: ServerState,
    now: u64,
    min_online_time: u32,
    status: Option<ServerStatus>,
)
    ensures
        spec_update_status(pre, now, min_online_time, status).stopping
            ==> !spec_update_status(pre, now, min_online_time, status).online,
{
}

/// Law: whenever `update_status` raises `online` from false to true, it
/// refreshes `last_active` to `now` and arms the keep-online window.
pub proof fn lemma_coming_online_refreshes_timers(
    pre: ServerState,
    now: u64,
    min_online_time: u32,
    status: Option<ServerStatus>,
)
    requires
        !pre.online,
        spec_update_status(pre, now, min_online_time, status).online,
    ensures
        spec_update_status(pre, now, min_online_time, status).last_active == Some(now),
        spec_update_status(pre, now, min_online_time, status).keep_online_until
            == spec_keep_until(now, Some(min_online_time)),
{
}

/// Law: `should_sleep` is false whenever the server is starting, or not
/// online, or players are online, or the keep-online window is active.
pub proof fn lemma_should_sleep_guard(st: ServerState, now: u64, sleep_after: u32)
    requires
        st.starting || !st.online || spec_players_online(st) || spec_keep_online(st, now),
    ensures
        !spec_should_sleep(st, now, sleep_after),
{
}

/// Law: for `min_online_time` seconds after the server comes online, idle
/// sleep stays suppressed, even with no players online the whole time.
pub proof fn lemma_min_online_guard(
    pre: ServerState,
    now: u64,
    min_online_time: u32,
    status: Option<ServerStatus>,
    later: u64,
    sleep_after: u32,
)
    requires
        now <= 0xFFFF_FFFF_0000_0000,
        !pre.online,
        min_online_time > 0,
        spec_update_status(pre, now, min_online_time, status).online,
        now <= later,
        later <= now + min_online_time,
    ensures
        !spec_should_sleep(spec_update_status(pre, now, min_online_time, status), later, sleep_after),
{
}

} // verus!
