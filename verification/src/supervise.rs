//! Supervision of the embedded node server: start/stop generations, the restart budget
//! and the state texts written for the UI.

use vstd::prelude::*;

use crate::text::{dec, push_dec, push_str};

verus! {

/// The server is starting (or restarting).
pub const STATE_STARTING: &'static str = "starting";

/// The server is running.
pub const STATE_RUNNING: &'static str = "running";

/// The server is stopped.
pub const STATE_STOPPED: &'static str = "stopped";

/// How many failed starts or exits the supervisor tolerates before giving up.
pub const MAX_RESTARTS: i32 = 5;

/// Milliseconds between restarts of the server on the device.
pub const RESTART_DELAY_MS: u64 = 3000;

/// Milliseconds between polls of a running child.
pub const POLL_INTERVAL_MS: u64 = 200;

/// Start/stop control shared by the UI and the supervising thread: each start opens a new
/// generation, and a supervisor keeps its child only while its generation is current.
#[derive(Clone, Copy, PartialEq, Eq, Debug)]
pub struct ProcessControl {
    pub generation: i32,
    pub running: bool,
}

impl ProcessControl {
    /// Nothing started yet.
    pub fn new() -> (c: ProcessControl)
        ensures
            c.generation == 0,
            !c.running,
    {
        ProcessControl { generation: 0, running: false }
    }

    /// Starts a supervisor unless one runs: the new generation, or `None` when already
    /// running (then nothing changes).
    pub fn start(&mut self) -> (g: Option<i32>)
        ensures
            (*final(self), g) == started(*old(self)),
    {
        if self.running {
            return None;
        }
        self.running = true;
        self.generation = self.generation.wrapping_add(1);
        Some(self.generation)
    }

    /// Stops the supervisor: a new generation, not running.
    pub fn stop(&mut self)
        ensures
            *final(self) == stopped(*old(self)),
    {
        self.generation = self.generation.wrapping_add(1);
        self.running = false;
    }

    /// Whether the supervisor of generation `g` may go on.
    pub fn is_current(&self, g: i32) -> (b: bool)
        ensures
            b == current(*self, g),
    {
        self.running && self.generation == g
    }

    /// The supervisor gave up or failed: not running, same generation.
    pub fn give_up(&mut self)
        ensures
            final(self).generation == old(self).generation,
            !final(self).running,
    {
        self.running = false;
    }
}

/// A start: a new generation when nothing runs, else no change and no generation.
pub open spec fn started(c: ProcessControl) -> (ProcessControl, Option<i32>) {
    if c.running {
        (c, None)
    } else {
        let g = c.generation.wrapping_add(1);
        (ProcessControl { generation: g, running: true }, Some(g))
    }
}

/// A stop: a new generation, not running.
pub open spec fn stopped(c: ProcessControl) -> ProcessControl {
    ProcessControl { generation: c.generation.wrapping_add(1), running: false }
}

/// Whether the supervisor of generation `g` may go on.
pub open spec fn current(c: ProcessControl, g: i32) -> bool {
    c.running && c.generation == g
}

/// Law: a start while a supervisor runs changes nothing, so there is never more than one.
pub proof fn law_start_is_idempotent(c: ProcessControl)
    ensures
        started(started(c).0) == (started(c).0, None::<i32>),
{
}

/// Law: after a stop, no generation is current, so every supervisor ends at its next poll.
pub proof fn law_stop_ends_every_generation(c: ProcessControl, g: i32)
    ensures
        !current(stopped(c), g),
{
}

/// Law: a start after a stop opens a generation that is not the stopped supervisor's, so
/// the old supervisor cannot take over again.
pub proof fn law_restart_is_new_generation(c: ProcessControl, g: i32)
    requires
        current(c, g),
    ensures
        started(stopped(c)).1 matches Some(h) && h != g && current(started(stopped(c)).0, h)
            && !current(started(stopped(c)).0, g),
{
    let a = c.generation;
    assert(a.wrapping_add(1).wrapping_add(1) != a) by (bit_vector);
}

/// Count of failed starts and exits of one supervisor.
#[derive(Clone, Copy, PartialEq, Eq, Debug)]
pub struct Restarts {
    pub count: i32,
}

impl Restarts {
    /// No failure yet.
    pub fn new() -> (r: Restarts)
        ensures
            r.count == 0,
    {
        Restarts { count: 0 }
    }

    /// Records one failure; `true` when the supervisor must give up.
    pub fn record(&mut self) -> (give_up: bool)
        requires
            0 <= old(self).count < MAX_RESTARTS,
        ensures
            (*final(self), give_up) == recorded(*old(self)),
    {
        self.count = self.count + 1;
        self.count >= MAX_RESTARTS
    }
}

/// The count after one more failure, and whether the supervisor then gives up.
pub open spec fn recorded(r: Restarts) -> (Restarts, bool) {
    (Restarts { count: (r.count + 1) as i32 }, r.count + 1 >= MAX_RESTARTS)
}

/// Law: a supervisor gives up at its fifth failure and at no earlier one.
pub proof fn law_gives_up_at_the_fifth_failure(r: Restarts)
    requires
        0 <= r.count < MAX_RESTARTS,
    ensures
        recorded(r).1 <==> r.count == 4,
        recorded(r).0.count == r.count + 1,
{
}

/// The state text after an exit: `exited:<code>`, or `exited:signal` without a code.
pub open spec fn exit_state_spec(code: Option<i32>) -> Seq<char> {
    match code {
        Some(c) => "exited:"@ + signed_dec(c as int),
        None => "exited:signal"@,
    }
}

/// Decimal rendering of a signed number.
pub open spec fn signed_dec(n: int) -> Seq<char> {
    if n < 0 {
        "-"@ + dec((-n) as nat)
    } else {
        dec(n as nat)
    }
}

/// Appends the decimal rendering of a signed 32-bit number.
pub fn push_signed(s: &mut String, n: i32)
    ensures
        final(s)@ == old(s)@ + signed_dec(n as int),
{
    if n < 0 {
        push_str(s, "-");
        let m: u64 = (0i64 - (n as i64)) as u64;
        push_dec(s, m);
        assert(final(s)@ =~= old(s)@ + signed_dec(n as int));
    } else {
        push_dec(s, n as u64);
    }
}

/// The state text after the child exited with `code` (`None`: killed by a signal).
pub fn exit_state(code: Option<i32>) -> (s: String)
    ensures
        s@ == exit_state_spec(code),
{
    let mut s = String::new();
    match code {
        Some(c) => {
            push_str(&mut s, "exited:");
            push_signed(&mut s, c);
        },
        None => push_str(&mut s, "exited:signal"),
    }
    assert(s@ =~= exit_state_spec(code));
    s
}

/// The state text of a failure: `failed:<reason>`.
pub fn failure_state(reason: &str) -> (s: String)
    ensures
        s@ == "failed:"@ + reason@,
{
    let mut s = String::new();
    push_str(&mut s, "failed:");
    push_str(&mut s, reason);
    assert(s@ =~= "failed:"@ + reason@);
    s
}

/// What a supervisor does after its child ended.
pub struct AfterExit {
    /// State texts to write, in order.
    pub states: Vec<String>,
    /// Whether to give up (else wait and restart).
    pub give_up: bool,
}

/// The supervisor's decision after its child exited with `code`: record the failure,
/// write the exit state and, at the limit, `failed:too-many-restarts` and give up.
pub fn after_exit(restarts: &mut Restarts, code: Option<i32>) -> (a: AfterExit)
    requires
        0 <= old(restarts).count < MAX_RESTARTS,
    ensures
        (*final(restarts), a.give_up) == recorded(*old(restarts)),
        a.give_up ==> a.states@.len() == 2 && a.states@[0]@ == exit_state_spec(code)
            && a.states@[1]@ == "failed:too-many-restarts"@,
        !a.give_up ==> a.states@.len() == 1 && a.states@[0]@ == exit_state_spec(code),
{
    let give_up = restarts.record();
    let mut states: Vec<String> = Vec::new();
    states.push(exit_state(code));
    if give_up {
        states.push(failure_state("too-many-restarts"));
        proof {
            reveal_strlit("too-many-restarts");
            reveal_strlit("failed:too-many-restarts");
            reveal_strlit("failed:");
        }
        assert(states@[1]@ =~= "failed:too-many-restarts"@);
    }
    AfterExit { states, give_up }
}

} // verus!
