//! The order of a step. The source gives its frames, the generator sends its due slots,
//! blocks and adapters add theirs, the scripts' timers fire; then every queued frame is
//! judged by the rules, taken in and handed to the scripts, and what the rules and the
//! scripts queue in turn is walked through in the same step.

use vstd::prelude::*;
use vstd::string::*;
use crate::aggregate::Interval;
use crate::app::Mode;
use crate::bus::BusCore;
use crate::bus_ingest;
use crate::bus_run;
use crate::bus_run::BusAction;
use crate::bus_scripts;
use crate::bus_scripts::{NodeEvent, NodeTurn};
use crate::bus_step::FrameWork;
use crate::can::frame::CanFrame;
use crate::trace::FrRow;
use crate::triggers::TriggerAction;

verus! {

/// What a step waits for.
#[derive(Clone, Copy, Debug, PartialEq, Eq, Structural)]
pub enum Phase {
    /// The values of the generator's due slots.
    Slots,
    /// What the adapters received.
    Wire,
    /// What the scripts' timers did.
    Timers,
    /// The next frame of the walk, or its end.
    Walk,
    /// The actions of the rules that the frame fired.
    Acting,
    /// What the scripts did with the frame.
    Dispatch,
    /// The actions of the rules that the sweep fired.
    Sweeping,
    /// Whether the source has come to its end.
    Closing,
    /// Nothing: the step is over.
    Done,
}

/// A step under way.
pub struct StepRun {
    pub phase: Phase,
    pub now_us: u64,
    pub stride: u64,
    /// Neither the source nor a send-now request gave a frame.
    pub source_empty: bool,
    /// A FlexRay frame arrived.
    pub fr_landed: bool,
    /// The rules that watch for silence and variables were judged.
    pub swept: bool,
    /// How many of the step's frames were walked through.
    pub taken: usize,
    /// When the pending actions fired.
    pub at_us: u64,
    pub pending: Vec<TriggerAction>,
}

impl StepRun {
    /// The step and the core belong together. A step that closes has walked through
    /// every frame that was queued.
    pub open spec fn fits(self, core: BusCore) -> bool {
        &&& core.wf()
        &&& core.buf_fits()
        &&& self.taken <= core.buf@.len()
        &&& self.phase == Phase::Slots || self.phase == Phase::Wire || self.phase == Phase::Timers
            ==> self.taken == 0 && !self.swept
        &&& self.phase == Phase::Acting || self.phase == Phase::Dispatch ==> self.taken
            < core.buf@.len()
        &&& self.phase != Phase::Acting && self.phase != Phase::Sweeping ==> self.pending@.len()
            == 0
        &&& self.phase == Phase::Closing || self.phase == Phase::Done ==> self.taken
            == core.buf@.len() && self.swept
    }

    /// A step that has just begun.
    pub open spec fn is_fresh(self, now_us: u64, stride: u64) -> bool {
        &&& self.phase == Phase::Slots
        &&& self.now_us == now_us
        &&& self.stride == stride
        &&& !self.fr_landed
        &&& !self.swept
        &&& self.taken == 0
        &&& self.pending@.len() == 0
    }

    /// The walk goes on behind the actions of the sweep.
    pub fn end_sweep(&mut self)
        requires
            old(self).phase == Phase::Sweeping,
            old(self).pending@.len() == 0,
        ensures
            *final(self) == (StepRun { phase: Phase::Walk, ..*old(self) }),
    {
        self.phase = Phase::Walk;
    }
}

/// The FlexRay frames are taken in one after the other.
pub open spec fn are_rows(
    rows: Seq<FrRow>,
    steps: Seq<BusCore>,
    intervals: Seq<Option<Interval>>,
) -> bool {
    &&& steps.len() == rows.len() + 1
    &&& intervals.len() == rows.len()
    &&& forall|k: int|
        #![trigger rows[k]]
        0 <= k < rows.len() ==> steps[k].is_fr_ingested(steps[k + 1], rows[k], intervals[k])
}

/// The core after a list of FlexRay frames.
pub open spec fn are_rows_ingested(
    before: BusCore,
    after: BusCore,
    rows: Seq<FrRow>,
    intervals: Seq<Option<Interval>>,
) -> bool {
    exists|steps: Seq<BusCore>|
        #[trigger] are_rows(rows, steps, intervals) && steps[0] == before && steps.last() == after
}

/// The frames that were queued stay where they are; more may follow.
pub open spec fn extends(before: Seq<CanFrame>, after: Seq<CanFrame>) -> bool {
    &&& before.len() <= after.len()
    &&& after.subrange(0, before.len() as int) == before
}

proof fn lemma_events_keep_the_queue(
    events: Seq<NodeEvent>,
    steps: Seq<BusCore>,
    notes: Seq<Option<(u64, Seq<char>)>>,
    n: int,
)
    requires
        bus_scripts::are_events_taken(events, steps, notes),
        0 <= n <= events.len(),
    ensures
        steps[n].buf == steps[0].buf,
    decreases n,
{
    if n > 0 {
        lemma_events_keep_the_queue(events, steps, notes, n - 1);
        assert(bus_scripts::is_event_taken(
            steps[n - 1],
            events[n - 1],
            steps[n - 1 + 1],
            notes[n - 1],
        ));
    }
}

proof fn lemma_turns_keep_the_queue(
    core: BusCore,
    after: BusCore,
    turns: Seq<NodeTurn>,
    told: Seq<(u64, Seq<char>)>,
)
    requires
        core.are_turns_taken(after, turns, told),
    ensures
        after.buf == core.buf,
{
    let (steps, notes) = choose|steps: Seq<BusCore>, notes: Seq<Option<(u64, Seq<char>)>>|
        {
            &&& #[trigger] bus_scripts::are_events_taken(
                bus_scripts::events_of(core.nodes@, turns),
                steps,
                notes,
            )
            &&& steps[0].buf == core.buf
            &&& steps.last() == after
        };
    lemma_events_keep_the_queue(
        bus_scripts::events_of(core.nodes@, turns),
        steps,
        notes,
        steps.len() - 1,
    );
}

proof fn lemma_a_reaction_extends(
    core: BusCore,
    after: BusCore,
    action: TriggerAction,
    at_us: u64,
    raws: Seq<Option<u64>>,
    mirror: Seq<(String, Option<u64>)>,
    opened: Result<String, String>,
    first: Seq<CanFrame>,
    status_before: Seq<char>,
    status: Seq<char>,
)
    requires
        core.is_acted(
            after,
            action,
            at_us,
            raws,
            mirror,
            opened,
            first,
            status_before,
            status,
        ),
    ensures
        extends(core.buf@, after.buf@),
{
    assert(core.buf@.subrange(0, core.buf@.len() as int) =~= core.buf@);
    if let TriggerAction::Send { ch, id } = action {
        if after.buf@.len() == core.buf@.len() + 1 {
            assert(after.buf@.subrange(0, core.buf@.len() as int) =~= after.buf@.drop_last());
        }
    }
}

impl BusCore {
    /// Begins a step; see `open_step`.
    pub fn begin_step(
        &mut self,
        polled: Vec<CanFrame>,
        now_us: u64,
        stride: u64,
        raws: &Vec<Vec<Option<u64>>>,
    ) -> (run: StepRun)
        requires
            old(self).wf(),
            bus_run::frames_fit(polled@),
            raws@.len() == old(self).injected@.len(),
        ensures
            run.fits(*final(self)),
            run.is_fresh(now_us, stride),
            old(self).is_step_opened(
                *final(self),
                polled,
                now_us,
                stride,
                raws@,
                run.source_empty,
            ),
    {
        let source_empty: bool = self.open_step(polled, now_us, stride, raws);
        StepRun {
            phase: Phase::Slots,
            now_us,
            stride,
            source_empty,
            fr_landed: false,
            swept: false,
            taken: 0,
            at_us: 0,
            pending: Vec::new(),
        }
    }

    /// Sends every due slot of the generator. `raws` holds the values of each slot.
    pub fn send_slots(&mut self, run: &mut StepRun, raws: &Vec<Vec<Vec<Option<u64>>>>)
        requires
            old(run).fits(*old(self)),
            old(run).phase == Phase::Slots,
            old(self).covers_slots(raws@),
        ensures
            final(run).fits(*final(self)),
            *final(run) == (StepRun { phase: Phase::Wire, ..*old(run) }),
            old(self).is_emitted(*final(self), raws@),
    {
        self.emit_due(raws);
        run.phase = Phase::Wire;
    }

    /// The FlexRay frames that count: what an adapter heard stays out of a replay.
    pub open spec fn heard_rows(self, replayed: Seq<FrRow>, watched: Seq<FrRow>) -> Seq<FrRow> {
        if self.mode == Mode::Replay {
            replayed
        } else {
            replayed + watched
        }
    }

    /// The traffic of blocks and adapters has joined the step.
    pub open spec fn is_wire_taken(
        self,
        after: BusCore,
        frames: Seq<CanFrame>,
        rows: Seq<FrRow>,
        intervals: Seq<Option<Interval>>,
    ) -> bool {
        exists|polled: BusCore, joined: BusCore|
            {
                &&& #[trigger] self.are_blocks_polled(polled)
                &&& joined.buf@ == (if self.mode == Mode::Replay {
                    polled.buf@
                } else {
                    polled.buf@ + frames
                })
                &&& joined == (BusCore { buf: joined.buf, ..polled })
                &&& #[trigger] are_rows_ingested(joined, after, rows, intervals)
            }
    }

    fn ingest_rows(&mut self, rows: Vec<FrRow>) -> (intervals: Vec<Option<Interval>>)
        requires
            old(self).wf(),
        ensures
            final(self).wf(),
            final(self).buf == old(self).buf,
            are_rows_ingested(*old(self), *final(self), rows@, intervals@),
    {
        let mut intervals: Vec<Option<Interval>> = Vec::new();
        let ghost all = rows@;
        let ghost mut steps: Seq<BusCore> = seq![*self];
        for row in it: rows
            invariant
                it.seq() == all,
                self.wf(),
                self.buf == old(self).buf,
                steps.len() == it.index() + 1,
                intervals@.len() == it.index(),
                steps[0] == *old(self),
                steps[it.index() as int] == *self,
                forall|k: int|
                    #![trigger all[k]]
                    0 <= k < it.index() ==> steps[k].is_fr_ingested(
                        steps[k + 1],
                        all[k],
                        intervals@[k],
                    ),
        {
            let ghost held = steps;
            let ghost kept = intervals@;
            let ghost shown = row;
            let r: Option<Interval> = self.ingest_fr_row(row);
            intervals.push(r);
            proof {
                steps = steps.push(*self);
                assert(shown == all[it.index() as int]);
                assert forall|k: int|
                    #![trigger all[k]]
                    0 <= k < it.index() + 1 implies steps[k].is_fr_ingested(
                    steps[k + 1],
                    all[k],
                    intervals@[k],
                ) by {
                    if k < it.index() {
                        assert(steps[k] == held[k] && steps[k + 1] == held[k + 1]);
                        assert(intervals@[k] == kept[k]);
                    }
                }
            }
        }
        assert(are_rows(all, steps, intervals@));
        intervals
    }

    /// Lets the replay blocks send what is due, and takes what the adapters received and
    /// the FlexRay frames that the log replayed and the adapters heard. Returns the
    /// interval that each FlexRay frame closes.
    pub fn take_wire(
        &mut self,
        run: &mut StepRun,
        frames: &Vec<CanFrame>,
        replayed: Vec<FrRow>,
        watched: Vec<FrRow>,
    ) -> (intervals: Vec<Option<Interval>>)
        requires
            old(run).fits(*old(self)),
            old(run).phase == Phase::Wire,
            bus_run::frames_fit(frames@),
        ensures
            final(run).fits(*final(self)),
            *final(run) == (StepRun {
                phase: Phase::Timers,
                fr_landed: old(run).fr_landed || old(self).heard_rows(
                    replayed@,
                    watched@,
                ).len() > 0,
                ..*old(run)
            }),
            old(self).is_wire_taken(
                *final(self),
                frames@,
                old(self).heard_rows(replayed@, watched@),
                intervals@,
            ),
    {
        let ghost heard = self.heard_rows(replayed@, watched@);
        self.poll_blocks();
        let ghost polled = *self;
        self.take_received(frames);
        let ghost joined = *self;
        let mut rows: Vec<FrRow> = replayed;
        match self.mode {
            Mode::Replay => {},
            Mode::Virtual => {
                let mut more: Vec<FrRow> = watched;
                rows.append(&mut more);
            },
        }
        assert(rows@ =~= heard);
        if rows.len() > 0 {
            run.fr_landed = true;
        }
        let intervals: Vec<Option<Interval>> = self.ingest_rows(rows);
        run.phase = Phase::Timers;
        assert(old(self).are_blocks_polled(polled));
        assert(are_rows_ingested(joined, *self, heard, intervals@));
        intervals
    }

    /// The scripts' frames of one stamp are queued, then the rest of what they did is
    /// taken.
    pub open spec fn is_scripted(
        self,
        after: BusCore,
        turns: Seq<NodeTurn>,
        t_us: u64,
        frames: Seq<CanFrame>,
        told: Seq<(u64, Seq<char>)>,
    ) -> bool {
        &&& bus_scripts::are_built(
            bus_scripts::asked_frames(self.channels@, self.nodes@, turns, turns.len() as int),
            t_us,
            frames,
        )
        &&& exists|queued: BusCore|
            {
                &&& queued.buf@ == self.buf@ + frames
                &&& queued == (BusCore { buf: queued.buf, ..self })
                &&& #[trigger] queued.are_turns_taken(after, turns, told)
            }
    }

    fn take_scripts(&mut self, turns: &Vec<NodeTurn>, t_us: u64) -> (r: (
        Vec<CanFrame>,
        Vec<(u64, String)>,
    ))
        requires
            old(self).wf(),
            old(self).buf_fits(),
            turns@.len() == old(self).nodes@.len(),
        ensures
            final(self).wf(),
            final(self).buf_fits(),
            final(self).buf@ == old(self).buf@ + r.0@,
            old(self).is_scripted(
                *final(self),
                turns@,
                t_us,
                r.0@,
                bus_scripts::note_views(r.1@),
            ),
    {
        let ghost before = *self;
        let frames: Vec<CanFrame> = self.scripted_frames(turns, t_us);
        let total: usize = frames.len();
        assert(before.buf@ =~= before.buf@ + frames@.subrange(0, 0));
        for i in 0..total
            invariant
                total == frames@.len(),
                before.buf_fits(),
                forall|k: int| 0 <= k < frames@.len() ==> (#[trigger] frames@[k]).wf(),
                self.wf(),
                *self == (BusCore { buf: self.buf, ..before }),
                self.buf@ == before.buf@ + frames@.subrange(0, i as int),
        {
            self.buf.push(frames[i]);
            assert(self.buf@ =~= before.buf@ + frames@.subrange(0, i + 1));
        }
        assert(frames@.subrange(0, total as int) =~= frames@);
        let ghost queued = *self;
        let told: Vec<(u64, String)> = self.take_node_turns(turns);
        proof {
            lemma_turns_keep_the_queue(
                queued,
                *self,
                turns@,
                bus_scripts::note_views(told@),
            );
            assert forall|k: int| 0 <= k < self.buf@.len() implies (
            #[trigger] self.buf@[k]).wf() by {
                if k < before.buf@.len() {
                    assert(before.buf@[k].wf());
                } else {
                    assert(frames@[k - before.buf@.len()].wf());
                }
            }
        }
        (frames, told)
    }

    /// Takes what the scripts' timers did. Their frames join the step at the simulated
    /// time. Returns those frames, which also go out on the wire, and what the writers of
    /// undefined variables are told.
    pub fn take_timers(&mut self, run: &mut StepRun, turns: &Vec<NodeTurn>) -> (r: (
        Vec<CanFrame>,
        Vec<(u64, String)>,
    ))
        requires
            old(run).fits(*old(self)),
            old(run).phase == Phase::Timers,
            turns@.len() == old(self).nodes@.len(),
        ensures
            final(run).fits(*final(self)),
            *final(run) == (StepRun { phase: Phase::Walk, ..*old(run) }),
            final(self).buf@ == old(self).buf@ + r.0@,
            old(self).is_scripted(
                *final(self),
                turns@,
                old(self).sim_t_us,
                r.0@,
                bus_scripts::note_views(r.1@),
            ),
    {
        let sim: u64 = self.sim_t_us;
        run.phase = Phase::Walk;
        self.take_scripts(turns, sim)
    }

    /// The frame that the walk has come to, if one is left.
    pub fn next_frame(&self, run: &StepRun) -> (r: Option<CanFrame>)
        requires
            run.fits(*self),
            run.phase == Phase::Walk,
        ensures
            r == (if run.taken < self.buf@.len() {
                Some(self.buf@[run.taken as int])
            } else {
                None
            }),
    {
        if run.taken < self.buf.len() {
            Some(self.buf[run.taken])
        } else {
            None
        }
    }

    /// The rules judge the frame before anything else consumes it, so that a rule which
    /// starts a recording captures the very frame that fired it.
    pub fn judge_frame(&mut self, run: &mut StepRun, crossed: &Vec<bool>)
        requires
            old(run).fits(*old(self)),
            old(run).phase == Phase::Walk,
            old(run).taken < old(self).buf@.len(),
        ensures
            final(run).fits(*final(self)),
            ({
                let f = old(self).buf@[old(run).taken as int];
                let levels = old(self).frame_levels(f, crossed@);
                &&& final(self).triggers@ == bus_ingest::judged_rules(
                    old(self).triggers@,
                    levels,
                    f.t_us,
                )
                &&& *final(self) == (BusCore { triggers: final(self).triggers, ..*old(self) })
                &&& final(run).pending@ == bus_ingest::fired(
                    old(self).triggers@,
                    levels,
                    old(self).triggers@.len() as int,
                )
                &&& *final(run) == (StepRun {
                    phase: Phase::Acting,
                    at_us: f.t_us,
                    pending: final(run).pending,
                    ..*old(run)
                })
            }),
    {
        let f: CanFrame = self.buf[run.taken];
        assert(f.wf());
        run.pending = self.eval_triggers(&f, crossed);
        run.at_us = f.t_us;
        run.phase = Phase::Acting;
    }

    /// Runs the first of the pending actions. What it queues joins the walk. Returns the
    /// frames that a recording opens with.
    pub fn act_next(
        &mut self,
        run: &mut StepRun,
        raws: &Vec<Option<u64>>,
        mirror: &Vec<(String, Option<u64>)>,
        opened: Result<String, String>,
        status: &mut String,
    ) -> (first: Vec<CanFrame>)
        requires
            old(run).fits(*old(self)),
            old(run).phase == Phase::Acting || old(run).phase == Phase::Sweeping,
            old(run).pending@.len() > 0,
        ensures
            final(run).fits(*final(self)),
            final(run).pending@ == old(run).pending@.remove(0),
            *final(run) == (StepRun { pending: final(run).pending, ..*old(run) }),
            extends(old(self).buf@, final(self).buf@),
            old(self).is_acted(
                *final(self),
                old(run).pending@[0],
                old(run).at_us,
                raws@,
                mirror@,
                opened,
                first@,
                old(status)@,
                final(status)@,
            ),
    {
        let ghost shown = opened;
        let action: TriggerAction = run.pending.remove(0);
        let at: u64 = run.at_us;
        let first: Vec<CanFrame> = self.run_action(action, at, raws, mirror, opened, status);
        proof {
            lemma_a_reaction_extends(
                *old(self),
                *self,
                action,
                at,
                raws@,
                mirror@,
                shown,
                first@,
                old(status)@,
                status@,
            );
        }
        first
    }

    /// Takes the frame in, once its rules have acted.
    pub fn take_next(&mut self, run: &mut StepRun, status: &mut String) -> (work: FrameWork)
        requires
            old(run).fits(*old(self)),
            old(run).phase == Phase::Acting,
            old(run).pending@.len() == 0,
        ensures
            final(run).fits(*final(self)),
            *final(run) == (StepRun { phase: Phase::Dispatch, ..*old(run) }),
            final(self).buf == old(self).buf,
            old(self).is_frame_taken(
                *final(self),
                old(self).buf@[old(run).taken as int],
                old(run).stride,
                work,
                old(status)@,
                final(status)@,
            ),
    {
        let f: CanFrame = self.buf[run.taken];
        assert(f.wf());
        run.phase = Phase::Dispatch;
        let stride: u64 = run.stride;
        self.take_frame(f, stride, status)
    }

    /// Takes what the scripts did with the frame: what they sent joins the walk, stamped
    /// like the frame that they answered. The walk then moves on.
    pub fn take_dispatch(&mut self, run: &mut StepRun, turns: &Vec<NodeTurn>) -> (r: (
        Vec<CanFrame>,
        Vec<(u64, String)>,
    ))
        requires
            old(run).fits(*old(self)),
            old(run).phase == Phase::Dispatch,
            turns@.len() == old(self).nodes@.len(),
        ensures
            final(run).fits(*final(self)),
            *final(run) == (StepRun {
                phase: Phase::Walk,
                taken: (old(run).taken + 1) as usize,
                ..*old(run)
            }),
            final(self).buf@ == old(self).buf@ + r.0@,
            old(self).is_scripted(
                *final(self),
                turns@,
                old(self).buf@[old(run).taken as int].t_us,
                r.0@,
                bus_scripts::note_views(r.1@),
            ),
    {
        let total: usize = self.buf.len();
        assert(run.taken < total);
        let t_us: u64 = self.buf[run.taken].t_us;
        run.taken = run.taken + 1;
        run.phase = Phase::Walk;
        self.take_scripts(turns, t_us)
    }

    /// Judges, once a step, the rules that watch for silence and for system variables.
    pub fn sweep_rules(&mut self, run: &mut StepRun, grace: u64, crossed: &Vec<bool>)
        requires
            old(run).fits(*old(self)),
            old(run).phase == Phase::Walk,
            old(run).taken == old(self).buf@.len(),
            !old(run).swept,
        ensures
            final(run).fits(*final(self)),
            ({
                let levels = old(self).sweep_levels(old(run).now_us, grace, crossed@);
                &&& final(self).triggers@ == bus_ingest::judged_rules(
                    old(self).triggers@,
                    levels,
                    old(run).now_us,
                )
                &&& *final(self) == (BusCore { triggers: final(self).triggers, ..*old(self) })
                &&& final(run).pending@ == bus_ingest::fired(
                    old(self).triggers@,
                    levels,
                    old(self).triggers@.len() as int,
                )
                &&& *final(run) == (StepRun {
                    phase: Phase::Sweeping,
                    swept: true,
                    at_us: old(run).now_us,
                    pending: final(run).pending,
                    ..*old(run)
                })
            }),
    {
        let now_us: u64 = run.now_us;
        run.pending = self.eval_timeout_triggers(now_us, grace, crossed);
        run.at_us = now_us;
        run.swept = true;
        run.phase = Phase::Sweeping;
    }

    /// Ends the walk, once nothing is left to walk through: what arrived is published and
    /// the databases' promises are checked.
    pub fn close_walk(&mut self, run: &mut StepRun, tol_pct: u64, grace: u64)
        requires
            old(run).fits(*old(self)),
            old(run).phase == Phase::Walk,
            old(run).taken == old(self).buf@.len(),
            old(run).swept,
        ensures
            final(run).fits(*final(self)),
            *final(run) == (StepRun { phase: Phase::Closing, ..*old(run) }),
            old(self).is_step_closed(
                *final(self),
                old(run).taken > 0 || old(run).fr_landed,
                tol_pct,
                grace,
            ),
    {
        let landed: bool = run.taken > 0 || run.fr_landed;
        self.close_step(landed, tol_pct, grace);
        run.phase = Phase::Closing;
    }

    /// Ends the step. A replay whose log is over ends with it; `duration` is the log's
    /// length in seconds, in words. Returns what is left to do outside then.
    pub fn finish_step(
        &mut self,
        run: &mut StepRun,
        source_done: bool,
        duration: &str,
        status: &mut String,
    ) -> (r: Option<Vec<BusAction>>)
        requires
            old(run).fits(*old(self)),
            old(run).phase == Phase::Closing,
        ensures
            final(run).fits(*final(self)),
            *final(run) == (StepRun { phase: Phase::Done, ..*old(run) }),
            r is Some == old(self).is_replay_done(old(run).source_empty, source_done),
            r matches Some(actions) ==> {
                &&& actions@ == seq![BusAction::CloseRecorder]
                &&& *final(self) == (BusCore { measuring: false, ..*old(self) })
                &&& final(status)@ == "replay finished at "@ + duration@ + "s"@
            },
            r is None ==> *final(self) == *old(self) && final(status)@ == old(status)@,
    {
        run.phase = Phase::Done;
        if self.replay_done(run.source_empty, source_done) {
            Some(self.finish_replay(duration, status))
        } else {
            None
        }
    }
}

/// A step that is over has walked through every frame that was queued, whoever queued
/// it: the source, the generator, a block, an adapter, a rule or a script.
pub proof fn law_no_queued_frame_is_left(core: BusCore, run: StepRun)
    requires
        run.fits(core),
        run.phase == Phase::Closing || run.phase == Phase::Done,
    ensures
        run.taken == core.buf@.len(),
        run.swept,
        run.pending@.len() == 0,
{
}

/// A frame that a reaction queues stands behind everything that was queued before it, so
/// the walk comes to it in the same step.
pub proof fn law_reactions_join_their_step(
    core: BusCore,
    after: BusCore,
    ch: u8,
    id: u32,
    at_us: u64,
    raws: Seq<Option<u64>>,
    mirror: Seq<(String, Option<u64>)>,
    run: StepRun,
)
    requires
        run.fits(core),
        core.is_sent(after, ch, id, at_us, raws, mirror),
        crate::bus::entry_index(core.tx_list@, ch, id, 0) >= 0,
    ensures
        extends(core.buf@, after.buf@),
        run.taken < after.buf@.len(),
        after.buf@.last().t_us == at_us,
{
    assert(after.buf@.subrange(0, core.buf@.len() as int) =~= after.buf@.drop_last());
}

} // verus!
