//! What runs next to the bus: one lap applies the queued commands, steps the bus
//! when it is due, and publishes what changed. Waiting, clocks and pipes are the
//! caller's.

use vstd::prelude::*;
use vstd::string::*;
use crate::bus::BusCore;
use crate::bus_command::BusCommand;
use crate::bus_run::BusAction;
use crate::bus_types::{Recorder, WriteKind, WriteLine};
use crate::bus_view::{Published, Snapshot};

verus! {

/// The longest wait when no deadline is pending: a stopped bus still answers commands
/// promptly.
pub const IDLE_SLEEP_US: u64 = 10_000;

/// The frontend's continuously tuned stepping policy.
#[derive(Clone, Copy, Debug)]
pub struct BusKnobs {
    pub stride: u64,
    pub tolerance: u64,
    pub cycles: u64,
}

impl BusKnobs {
    pub fn new() -> (k: BusKnobs)
        ensures
            k == (BusKnobs { stride: 0, tolerance: 0, cycles: 0 }),
    {
        BusKnobs { stride: 0, tolerance: 0, cycles: 0 }
    }

    /// Turns all three knobs.
    pub fn set(&mut self, stride_us: u64, tol_pct: u64, grace: u64)
        ensures
            *final(self) == (BusKnobs { stride: stride_us, tolerance: tol_pct, cycles: grace }),
    {
        self.stride = stride_us;
        self.tolerance = tol_pct;
        self.cycles = grace;
    }

    /// The requested sampling period of the signal history.
    pub fn stride_us(&self) -> (r: u64)
        ensures
            r == self.stride,
    {
        self.stride
    }

    /// How far a period may stray, in percent.
    pub fn tol_pct(&self) -> (r: u64)
        ensures
            r == self.tolerance,
    {
        self.tolerance
    }

    /// How many periods of silence count as a dropped message.
    pub fn grace(&self) -> (r: u64)
        ensures
            r == self.cycles,
    {
        self.cycles
    }
}

/// How long a lap waits for a command: until the deadline, and never longer than the
/// idle wait.
pub open spec fn wait_time(deadline: Option<u64>, now: u64) -> u64 {
    match deadline {
        Some(d) => if d <= now {
            0
        } else if d - now < IDLE_SLEEP_US {
            (d - now) as u64
        } else {
            IDLE_SLEEP_US
        },
        None => IDLE_SLEEP_US,
    }
}

pub fn wait_us(deadline: Option<u64>, now: u64) -> (r: u64)
    ensures
        r == wait_time(deadline, now),
{
    match deadline {
        Some(d) => if d <= now {
            0
        } else if d - now < IDLE_SLEEP_US {
            d - now
        } else {
            IDLE_SLEEP_US
        },
        None => IDLE_SLEEP_US,
    }
}

/// What a lap does after its commands: step the bus (and tell it first when the pause
/// that just ended began), answer with a publish, or nothing.
#[derive(Clone, Copy, Debug, PartialEq, Eq, Structural)]
pub enum Lap {
    Step { resumed_from: Option<u64> },
    Publish,
    Idle,
}

/// The lap of a bus. A running bus steps and publishes. A paused one remembers when the
/// pause began and, like a stopped one, only answers the commands that ran.
pub open spec fn lap_of(measuring: bool, paused: bool, any: bool, paused_at: Option<u64>) -> Lap {
    if measuring && !paused {
        Lap::Step { resumed_from: paused_at }
    } else if any {
        Lap::Publish
    } else {
        Lap::Idle
    }
}

/// Decides a lap and keeps the start of a running pause.
pub fn next_lap(
    measuring: bool,
    paused: bool,
    any: bool,
    paused_at: &mut Option<u64>,
    now: u64,
) -> (lap: Lap)
    ensures
        lap == lap_of(measuring, paused, any, *old(paused_at)),
        *final(paused_at) == (if measuring && !paused {
            None
        } else if measuring && *old(paused_at) is None {
            Some(now)
        } else {
            *old(paused_at)
        }),
{
    if measuring && !paused {
        let from: Option<u64> = *paused_at;
        *paused_at = None;
        return Lap::Step { resumed_from: from };
    }
    if measuring && paused_at.is_none() {
        *paused_at = Some(now);
    }
    if any {
        Lap::Publish
    } else {
        Lap::Idle
    }
}

/// The core as a runnable unit: the bus, what was published of it, and the status text
/// that rides the next publish.
pub struct CoreLoop {
    pub core: BusCore,
    pub published: Published,
    pub pending_status: Option<String>,
}

/// The status line of an internal fault.
pub open spec fn fault_status(what: Seq<char>) -> Seq<char> {
    "[core] 内部错误（panic）："@ + what + "——测量已停止；请保存现场并反馈复现步骤"@
}

impl CoreLoop {
    pub fn new(core: BusCore) -> (l: CoreLoop)
        ensures
            l.core == core,
            l.pending_status is None,
            l.published.nodes@.len() == 0,
            l.published.blocks@.len() == 0,
            l.published.write@.len() == 0,
    {
        CoreLoop { core, published: Published::new(), pending_status: None }
    }

    /// One command applied: what it tells is news for the next publish, and a line of
    /// the Write window.
    pub open spec fn is_applied(
        self,
        after: CoreLoop,
        cmd: BusCommand,
        actions: Seq<BusAction>,
    ) -> bool {
        exists|mid: BusCore, told: Seq<char>|
            {
                &&& #[trigger] self.core.is_handled(mid, cmd, Seq::empty(), told, actions)
                &&& after.published == self.published
                &&& if told.len() == 0 {
                    after.core == mid && after.pending_status == self.pending_status
                } else {
                    &&& after.pending_status is Some
                    &&& (after.pending_status->0)@ == told
                    &&& is_told(mid, after.core, told)
                }
            }
    }

    /// Applies one command. Returns the outside work that it asks for, and whether it
    /// restarted the run's clock.
    pub fn apply(&mut self, cmd: BusCommand) -> (r: (Vec<BusAction>, bool))
        requires
            old(self).core.wf(),
            old(self).core.accepts(cmd),
        ensures
            final(self).core.wf(),
            old(self).is_applied(*final(self), cmd, r.0@),
            r.1 == cmd is StartVirtual,
    {
        let clock_reset: bool = matches!(cmd, BusCommand::StartVirtual { .. });
        let mut status: String = String::new();
        proof {
            reveal_strlit("");
        }
        assert(status@ =~= Seq::empty());
        let ghost before = self.core;
        let actions: Vec<BusAction> = self.core.handle(cmd, &mut status);
        let ghost mid = self.core;
        let ghost told = status@;
        assert(before.is_handled(mid, cmd, Seq::empty(), told, actions@));
        assert(told.len() == 0 ==> told =~= ""@);
        if !crate::text::same_text(status.as_str(), "") {
            let line: String = status.clone();
            self.core.write_push(WriteKind::Info, line);
            self.pending_status = Some(status);
            assert(is_told(mid, self.core, told));
        }
        (actions, clock_reset)
    }

    /// Publishes the core: what changed is rebuilt, and the pending status rides along
    /// once.
    pub fn publish(&mut self, replay: Option<(u64, u64)>) -> (s: Snapshot)
        requires
            old(self).core.wf(),
        ensures
            final(self).core.wf(),
            final(self).pending_status is None,
            final(self).core == (BusCore {
                nodes_dirty: false,
                write_dirty: false,
                loads_dirty: false,
                ..old(self).core
            }),
            old(self).core.are_nodes_published(
                BusCore { nodes_dirty: false, ..old(self).core },
                old(self).published,
                Published { write: old(self).published.write, ..final(self).published },
            ),
            old(self).core.write_dirty ==> final(self).published.write@ == old(
                self,
            ).core.write_log@,
            !old(self).core.write_dirty ==> final(self).published.write == old(
                self,
            ).published.write,
            final(self).core.is_shown(
                s,
                final(self).published,
                replay,
                old(self).pending_status,
            ),
    {
        self.core.loads_dirty = false;
        self.core.publish_nodes(&mut self.published);
        self.core.publish_write(&mut self.published);
        let mut status: Option<String> = None;
        std::mem::swap(&mut status, &mut self.pending_status);
        self.core.snapshot(&self.published, replay, status)
    }

    /// A fault inside the core stops the measurement loudly and closes the recording;
    /// the loop keeps answering commands.
    pub fn halt_after_internal_error(&mut self, what: &str) -> (actions: Vec<BusAction>)
        requires
            old(self).core.wf(),
        ensures
            final(self).core.wf(),
            final(self).pending_status is Some,
            (final(self).pending_status->0)@ == fault_status(what@),
            final(self).core == (BusCore {
                measuring: false,
                recorder: Recorder { recording: false, ..old(self).core.recorder },
                ..old(self).core
            }),
            final(self).published == old(self).published,
            actions@ == seq![BusAction::CloseRecorder],
    {
        let mut line: String = "[core] 内部错误（panic）：".to_owned();
        line.append(what);
        line.append("——测量已停止；请保存现场并反馈复现步骤");
        self.pending_status = Some(line);
        self.core.measuring = false;
        self.core.recorder.recording = false;
        let mut actions: Vec<BusAction> = Vec::new();
        actions.push(BusAction::CloseRecorder);
        assert(actions@ =~= seq![BusAction::CloseRecorder]);
        actions
    }
}

/// A line of the bus's own news was added to the Write lines.
pub open spec fn is_told(before: BusCore, after: BusCore, told: Seq<char>) -> bool {
    exists|w: WriteLine|
        #[trigger] before.is_written(after, w) && w.kind == WriteKind::Info && w.text@ == told
}

/// A lap never waits past its deadline nor longer than the idle wait.
pub proof fn law_laps_are_prompt(deadline: Option<u64>, now: u64)
    ensures
        wait_time(deadline, now) <= IDLE_SLEEP_US,
        deadline matches Some(d) ==> now + wait_time(deadline, now) <= d || d <= now
            && wait_time(deadline, now) == 0,
{
}

/// The first lap after a pause tells the bus when the pause began, and the second does
/// not: a pause is told once.
pub proof fn law_a_pause_is_told_once(at: u64)
    ensures
        lap_of(true, false, false, Some(at)) == (Lap::Step { resumed_from: Some(at) }),
        lap_of(true, false, false, None) == (Lap::Step { resumed_from: None::<u64> }),
        lap_of(true, true, false, Some(at)) == Lap::Idle,
{
}

} // verus!
