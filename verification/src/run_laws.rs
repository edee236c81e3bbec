//! What a run promises from its start to its end: clocks, schedules, recordings, scans of a
//! log and the spans that are read back from it.

use vstd::prelude::*;
use crate::aggregate::MessageAgg;
use crate::app::Mode;
use crate::bus::BusCore;
use crate::bus_run;
use crate::bus_run::{BusAction, LogRead, OpenedLog};
use crate::bus_types::ScriptNode;
use crate::can::frame::CanFrame;
use crate::channel::Channel;
use crate::generator::TxMsg;
use crate::observers::Reading;

verus! {

/// A running simulation's clock moves by what the wall clock moved; a replay's is left to
/// its log. A freeze is told as the span that it took, and not counted.
pub proof fn law_the_clock_follows_the_wall(
    before: BusCore,
    after: BusCore,
    now_us: u64,
    shift: Option<u64>,
)
    requires
        before.is_advanced(after, now_us, shift),
        before.sim_prev_us <= now_us,
        before.sim_t_us + now_us <= u64::MAX,
    ensures
        after.sim_prev_us == now_us,
        after.paused_at_us is None,
        before.mode == Mode::Replay ==> after.sim_t_us == before.sim_t_us,
        before.mode == Mode::Virtual && before.paused_at_us is None ==> after.sim_t_us
            == before.sim_t_us + (now_us - before.sim_prev_us),
        before.paused_at_us is None ==> shift is None,
        before.paused_at_us matches Some(t) && t <= now_us ==> shift == Some(
            (now_us - before.paused_at_us->0) as u64,
        ),
        before.paused_at_us is Some ==> after.sim_t_us == before.sim_t_us,
        after.trace == before.trace,
        after.tx_list == before.tx_list,
        after.measuring == before.measuring,
{
}

/// The start of a node is among the actions just where a node of that number is enabled.
pub proof fn law_enabled_nodes_start(nodes: Seq<ScriptNode>, n: int, k: int)
    requires
        0 <= k < n <= nodes.len(),
    ensures
        nodes[k].enabled ==> bus_run::node_starts(nodes, n).contains(
            BusAction::StartNode(nodes[k].id),
        ),
        forall|a: int|
            0 <= a < bus_run::node_starts(nodes, n).len() ==> exists|j: int|
                0 <= j < n && (#[trigger] nodes[j]).enabled && BusAction::StartNode(nodes[j].id) == (
                #[trigger] bus_run::node_starts(nodes, n)[a]),
    decreases n,
{
    let now = bus_run::node_starts(nodes, n);
    let before = bus_run::node_starts(nodes, n - 1);
    if k < n - 1 {
        law_enabled_nodes_start(nodes, n - 1, k);
        if nodes[k].enabled {
            let a = choose|a: int|
                0 <= a < before.len() && before[a] == BusAction::StartNode(nodes[k].id);
            assert(now[a] == before[a]);
        }
    } else {
        if n > 1 {
            law_enabled_nodes_start(nodes, n - 1, 0);
        }
        if nodes[k].enabled {
            assert(now[now.len() - 1] == BusAction::StartNode(nodes[k].id));
        }
    }
    assert forall|a: int| 0 <= a < now.len() implies exists|j: int|
        0 <= j < n && (#[trigger] nodes[j]).enabled && BusAction::StartNode(nodes[j].id) == (
        #[trigger] now[a]) by {
        if a < before.len() {
            assert(now[a] == before[a]);
            let j = choose|j: int|
                0 <= j < n - 1 && (#[trigger] nodes[j]).enabled && BusAction::StartNode(
                    nodes[j].id,
                ) == before[a];
            assert(nodes[j].enabled);
        } else {
            assert(nodes[n - 1].enabled);
        }
    }
}

/// A run begins at time zero with empty records. Every entry keeps its bytes, period and
/// switch and is due at once; every system variable holds its declared value; buses, rules
/// and recording settings stay.
pub proof fn law_a_begun_run_keeps_the_setup(before: BusCore, after: BusCore, i: int)
    requires
        before.is_begun(after),
    ensures
        after.measuring,
        after.sim_t_us == 0,
        after.frame_counter == 0,
        after.trace@.len() == 0,
        after.published_trace@.len() == 0,
        after.aggs.items@.len() == 0,
        after.injected@.len() == 0,
        !after.trace_paused,
        !after.scan_done,
        after.channels == before.channels,
        after.triggers == before.triggers,
        after.recorder == before.recorder,
        after.mode == before.mode,
        after.tx_list@.len() == before.tx_list@.len(),
        0 <= i < before.tx_list@.len() ==> {
            let a = after.tx_list@[i];
            let b = before.tx_list@[i];
            &&& a.next_t_us == 0
            &&& a.id == b.id
            &&& a.channel == b.channel
            &&& a.extended == b.extended
            &&& a.data == b.data
            &&& a.len == b.len
            &&& a.flags == b.flags
            &&& a.cycle_us == b.cycle_us
            &&& a.active == b.active
            &&& a.srcs == b.srcs
        },
        after.sysvars@.len() == before.sysvars@.len(),
        0 <= i < before.sysvars@.len() ==> after.sysvars@[i].def == before.sysvars@[i].def
            && after.sysvars@[i].value == before.sysvars@[i].def.init,
        after.replay_blocks@.len() == before.replay_blocks@.len(),
        0 <= i < before.replay_blocks@.len() ==> {
            let a = after.replay_blocks@[i];
            &&& a.cursor == 0
            &&& a.anchor_us == 0
            &&& a.queue == before.replay_blocks@[i].queue
            &&& a.enabled == before.replay_blocks@[i].enabled
            &&& a.channel == before.replay_blocks@[i].channel
        },
        after.nodes@.len() == before.nodes@.len(),
        0 <= i < before.nodes@.len() ==> after.nodes@[i].id == before.nodes@[i].id
            && after.nodes@[i].enabled == before.nodes@[i].enabled,
{
    let reset = choose|reset: BusCore|
        {
            &&& #[trigger] before.is_run_reset(reset)
            &&& after.measuring
            &&& bus_run::are_armed(
                before.nodes@,
                after.nodes@,
                crate::bus_types::var_keys(reset.sysvars@),
            )
            &&& after.nodes_dirty
            &&& after == (BusCore {
                measuring: true,
                nodes: after.nodes,
                nodes_dirty: true,
                ..reset
            })
        };
    assert(before.is_run_reset(reset));
    if 0 <= i < before.nodes@.len() {
        assert(after.nodes@[i].id == before.nodes@[i].id);
    }
}

/// A virtual run is a simulation that measures, with the recording switch as it stood and
/// each enabled node told to start.
pub proof fn law_a_virtual_run_simulates(
    before: BusCore,
    after: BusCore,
    logs: Seq<LogRead>,
    opened: Result<String, String>,
    status: Seq<char>,
    actions: Seq<BusAction>,
    k: int,
)
    requires
        before.is_virtual_started(after, logs, opened, status, actions),
    ensures
        after.mode == Mode::Virtual,
        after.run_mode == Mode::Virtual,
        after.measuring,
        after.sim_t_us == 0,
        after.recorder.recording == before.recorder.recording,
        after.channels == before.channels,
        before.recorder.recording && opened is Ok ==> after.recorder.last_record == opened->Ok_0,
        actions.len() >= 2,
        actions[0] == BusAction::CloseRecorder,
        actions[1] == BusAction::VirtualSource,
        0 <= k < before.nodes@.len() && before.nodes@[k].enabled ==> actions.contains(
            BusAction::StartNode(before.nodes@[k].id),
        ),
{
    let picked = BusCore { mode: Mode::Virtual, run_mode: Mode::Virtual, ..before };
    let begun = choose|begun: BusCore|
        {
            &&& #[trigger] picked.is_begun(begun)
            &&& bus_run::are_reloaded(
                begun.replay_blocks@,
                after.replay_blocks@,
                before.channels@,
                logs,
                0,
            )
            &&& after == (BusCore {
                replay_blocks: after.replay_blocks,
                recorder: after.recorder,
                ..begun
            })
        };
    assert(picked.is_begun(begun));
    law_a_begun_run_keeps_the_setup(picked, begun, 0);
    let starts = bus_run::node_starts(before.nodes@, before.nodes@.len() as int);
    let head = seq![BusAction::CloseRecorder, BusAction::VirtualSource];
    assert((head + starts)[0] == head[0] && (head + starts)[1] == head[1]);
    if 0 <= k < before.nodes@.len() && before.nodes@[k].enabled {
        law_enabled_nodes_start(before.nodes@, before.nodes@.len() as int, k);
        let a = choose|a: int|
            0 <= a < starts.len() && starts[a] == BusAction::StartNode(before.nodes@[k].id);
        assert((head + starts)[2 + a] == starts[a]);
    }
}

/// A log that cannot be opened changes nothing. One that can is replayed from the start:
/// recording is off, and the ids of the log are those the generators leave to it.
pub proof fn law_a_replay_follows_its_log(
    before: BusCore,
    after: BusCore,
    path: Seq<char>,
    speed: Seq<char>,
    opened: Result<OpenedLog, String>,
    status: Seq<char>,
    actions: Seq<BusAction>,
)
    requires
        before.is_replay_started(after, path, speed, opened, status, actions),
    ensures
        opened is Err ==> after == before && actions.len() == 0,
        opened matches Ok(log) ==> {
            &&& after.mode == Mode::Replay
            &&& after.run_mode == Mode::Replay
            &&& after.measuring
            &&& !after.recorder.recording
            &&& after.recorder.ids == before.recorder.ids
            &&& after.replay_ids == log.ids
            &&& after.channels == before.channels
            &&& after.sim_t_us == 0
            &&& after.trace@.len() == 0
            &&& actions.len() >= 2
            &&& actions[0] == BusAction::CloseRecorder
            &&& actions[1] == BusAction::ReplaySource
        },
{
    if let Ok(log) = opened {
        let picked = BusCore {
            replay_ids: log.ids,
            recorder: crate::bus_types::Recorder { recording: false, ..before.recorder },
            mode: Mode::Replay,
            run_mode: Mode::Replay,
            ..before
        };
        assert(picked.is_begun(after));
        law_a_begun_run_keeps_the_setup(picked, after, 0);
        let reset = choose|reset: BusCore|
            {
                &&& #[trigger] picked.is_run_reset(reset)
                &&& after == (BusCore {
                    measuring: true,
                    nodes: after.nodes,
                    nodes_dirty: true,
                    ..reset
                })
            };
        assert(picked.is_run_reset(reset));
    }
}

/// The recording switch turns: a running recording stops and its file is closed; an idle
/// bus takes note; a measuring bus records where the file could be opened, and not where it
/// could not. No post-roll is left.
pub proof fn law_the_record_switch_turns(
    before: BusCore,
    after: BusCore,
    opened: Result<String, String>,
    was: Seq<char>,
    status: Seq<char>,
    actions: Seq<BusAction>,
)
    requires
        before.is_record_toggled(after, opened, was, status, actions),
    ensures
        after.post_roll is None,
        before.recorder.recording ==> !after.recorder.recording && actions.len() == 1 && actions[0]
            == BusAction::CloseRecorder,
        !before.recorder.recording ==> actions.len() == 0,
        !before.recorder.recording && !before.measuring ==> after.recorder.recording,
        !before.recorder.recording && before.measuring ==> after.recorder.recording == opened is Ok,
        after.measuring == before.measuring,
        after.pre_buffer == before.pre_buffer,
        after.recorder.ids == before.recorder.ids,
{
}

/// Folding frames in counts each of them, and leaves setup and clock alone.
proof fn lemma_ingests(
    start: BusCore,
    frames: Seq<CanFrame>,
    stride: u64,
    steps: Seq<BusCore>,
    n: int,
)
    requires
        bus_run::are_ingests(start, frames, stride, steps),
        0 <= n <= frames.len(),
        start.frame_counter + frames.len() <= u64::MAX,
    ensures
        steps[n].frame_counter == start.frame_counter + n,
        steps[n].mode == start.mode,
        steps[n].channels == start.channels,
        steps[n].tx_list == start.tx_list,
        steps[n].replay_ids == start.replay_ids,
        n > 0 && start.trace_limit > 0 ==> steps[n].trace@.last() == frames[n - 1],
        steps[n].trace_limit == start.trace_limit,
    decreases n,
{
    if n > 0 {
        lemma_ingests(start, frames, stride, steps, n - 1);
        assert(bus_run::takes_in(steps[n - 1], steps[n], frames[n - 1], stride));
        let r = choose|r: Option<crate::aggregate::Interval>| #[trigger]
            steps[n - 1].is_ingested(steps[n], frames[n - 1], stride, r);
        if start.trace_limit > 0 {
            crate::trace::law_ring_keeps_the_newest(
                steps[n - 1].trace@,
                frames[n - 1],
                start.trace_limit as int,
            );
        }
    }
}

/// A scan takes in every frame of the log once, ends with the last one in the trace, and
/// parks the bus: it measures no more, and the log counts as scanned.
pub proof fn law_a_scan_takes_in_every_frame(
    before: BusCore,
    after: BusCore,
    frames: Seq<CanFrame>,
    tol_pct: u64,
    grace: u64,
    status: Seq<char>,
)
    requires
        before.is_parked(after, frames, tol_pct, grace, status),
        before.frame_counter + frames.len() <= u64::MAX,
        before.trace_limit > 0,
    ensures
        after.frame_counter == before.frame_counter + frames.len(),
        frames.len() > 0 ==> after.trace@.last() == frames.last(),
        after.published_trace@ == after.trace@,
        !after.measuring,
        after.scan_done,
        after.channels == before.channels,
        after.tx_list == before.tx_list,
        forall|i: int|
            0 <= i < after.aggs.items@.len() ==> (#[trigger] after.aggs.items@[i]).1.last_t_us
                <= after.sim_t_us,
        after.aggs.items@.len() > 0 ==> exists|i: int|
            0 <= i < after.aggs.items@.len() && (#[trigger] after.aggs.items@[i]).1.last_t_us
                == after.sim_t_us,
{
    let full = choose|full: BusCore|
        {
            &&& #[trigger] bus_run::all_ingested(before, full, frames, before.applied_stride_us)
            &&& after.sim_t_us == bus_run::latest_stamp(
                full.aggs.items@,
                full.aggs.items@.len() as int,
            )
            &&& after.published_trace@ == full.trace@
            &&& after == (BusCore {
                sim_t_us: after.sim_t_us,
                monitor: after.monitor,
                published_trace: after.published_trace,
                published_fr: after.published_fr,
                measuring: false,
                scan_done: true,
                ..full
            })
        };
    assert(bus_run::all_ingested(before, full, frames, before.applied_stride_us));
    let steps = choose|steps: Seq<BusCore>| #[trigger]
        bus_run::are_ingests(before, frames, before.applied_stride_us, steps) && full
            == steps.last();
    lemma_ingests(before, frames, before.applied_stride_us, steps, frames.len() as int);
    lemma_latest(full.aggs.items@, full.aggs.items@.len() as int);
}

proof fn lemma_latest(items: Seq<(u64, MessageAgg)>, n: int)
    requires
        0 <= n <= items.len(),
    ensures
        forall|i: int|
            0 <= i < n ==> (#[trigger] items[i]).1.last_t_us <= bus_run::latest_stamp(items, n),
        n > 0 ==> exists|i: int|
            0 <= i < n && (#[trigger] items[i]).1.last_t_us == bus_run::latest_stamp(items, n),
    decreases n,
{
    if n > 0 {
        lemma_latest(items, n - 1);
        if items[n - 1].1.last_t_us > bus_run::latest_stamp(items, n - 1) {
            assert(items[n - 1].1.last_t_us == bus_run::latest_stamp(items, n));
        } else if n > 1 {
            let i = choose|i: int|
                0 <= i < n - 1 && (#[trigger] items[i]).1.last_t_us == bus_run::latest_stamp(
                    items,
                    n - 1,
                );
            assert(items[i].1.last_t_us == bus_run::latest_stamp(items, n));
        } else {
            assert(items[0].1.last_t_us == bus_run::latest_stamp(items, n));
        }
    }
}

/// A span of a log holds the frames whose times lie in it, both ends included, in the order
/// of the log, and no others.
pub proof fn law_a_span_holds_its_frames(frames: Seq<CanFrame>, from: u64, to: u64, n: int, k: int)
    requires
        0 <= k < n <= frames.len(),
    ensures
        from <= frames[k].t_us && frames[k].t_us <= to ==> bus_run::in_span(
            frames,
            from,
            to,
            n,
        ).contains(frames[k]),
        forall|a: int|
            0 <= a < bus_run::in_span(frames, from, to, n).len() ==> {
                let f = #[trigger] bus_run::in_span(frames, from, to, n)[a];
                from <= f.t_us && f.t_us <= to && frames.contains(f)
            },
        bus_run::in_span(frames, from, to, n).len() <= n,
        (forall|i: int| 0 <= i < n ==> from <= (#[trigger] frames[i]).t_us && frames[i].t_us <= to)
            ==> bus_run::in_span(frames, from, to, n) == frames.subrange(0, n),
    decreases n,
{
    let now = bus_run::in_span(frames, from, to, n);
    let before = bus_run::in_span(frames, from, to, n - 1);
    if n > 1 {
        let j = if k < n - 1 {
            k
        } else {
            0
        };
        law_a_span_holds_its_frames(frames, from, to, n - 1, j);
    } else {
        assert(before.len() == 0);
        assert(frames.subrange(0, 0) =~= before);
    }
    if from <= frames[k].t_us && frames[k].t_us <= to {
        if k == n - 1 {
            assert(now[now.len() - 1] == frames[k]);
        } else {
            let a = choose|a: int| 0 <= a < before.len() && before[a] == frames[k];
            assert(now[a] == frames[k]);
        }
    }
    assert forall|a: int| 0 <= a < now.len() implies {
        let f = #[trigger] now[a];
        from <= f.t_us && f.t_us <= to && frames.contains(f)
    } by {
        if a < before.len() {
            assert(now[a] == before[a]);
        } else {
            assert(now[a] == frames[n - 1]);
        }
    }
    if forall|i: int|
        0 <= i < n ==> from <= (#[trigger] frames[i]).t_us && frames[i].t_us <= to {
        assert(from <= frames[n - 1].t_us && frames[n - 1].t_us <= to);
        assert(frames.subrange(0, n) =~= frames.subrange(0, n - 1).push(frames[n - 1]));
    }
}

/// A covered span never shrinks by a scan that touches it: what was covered before stays
/// covered, and so is what was scanned. A scan apart from it takes its place.
pub proof fn law_covers_grow_together(cover: Option<(u64, u64)>, from: u64, to: u64)
    requires
        from <= to,
        cover matches Some(c) ==> c.0 <= c.1,
    ensures
        bus_run::covered(cover, from, to) matches Some(d) && d.0 <= from && to <= d.1,
        match (cover, bus_run::covered(cover, from, to)) {
            (Some(c), Some(d)) => from <= c.1 && c.0 <= to ==> d.0 <= c.0 && c.1 <= d.1 && (d.0
                == from || d.0 == c.0) && (d.1 == to || d.1 == c.1),
            (_, d) => d is Some,
        },
        cover matches Some(c) && (to < c.0 || c.1 < from) ==> bus_run::covered(cover, from, to)
            == Some((from, to)),
        cover is None ==> bus_run::covered(cover, from, to) == Some((from, to)),
{
}

/// Thinned points are a stride or more apart, the first point is kept, and points that are
/// all a stride apart are all kept.
pub proof fn law_thinned_points_are_a_stride_apart(
    points: Seq<(u64, Reading)>,
    stride: u64,
    n: int,
)
    requires
        0 <= n <= points.len(),
    ensures
        forall|a: int|
            0 < a < bus_run::thinned(points, stride, n).len() ==> (#[trigger] bus_run::thinned(
                points,
                stride,
                n,
            )[a]).0 >= bus_run::thinned(points, stride, n)[a - 1].0 + stride,
        n > 0 ==> bus_run::thinned(points, stride, n).len() > 0 && bus_run::thinned(
            points,
            stride,
            n,
        )[0] == points[0],
        forall|a: int|
            0 <= a < bus_run::thinned(points, stride, n).len() ==> points.contains(
                #[trigger] bus_run::thinned(points, stride, n)[a],
            ),
        (forall|i: int|
            #![trigger points[i]]
            0 < i < n ==> points[i].0 >= points[i - 1].0 + stride) ==> bus_run::thinned(
            points,
            stride,
            n,
        ) == points.subrange(0, n),
    decreases n,
{
    let now = bus_run::thinned(points, stride, n);
    if n > 0 {
        let before = bus_run::thinned(points, stride, n - 1);
        law_thinned_points_are_a_stride_apart(points, stride, n - 1);
        assert forall|a: int| 0 < a < now.len() implies (#[trigger] now[a]).0 >= now[a - 1].0
            + stride by {
            if a < before.len() {
                assert(now[a] == before[a] && now[a - 1] == before[a - 1]);
            }
        }
        assert forall|a: int| 0 <= a < now.len() implies points.contains(#[trigger] now[a]) by {
            if a < before.len() {
                assert(now[a] == before[a]);
            } else {
                assert(now[a] == points[n - 1]);
            }
        }
        if forall|i: int|
            #![trigger points[i]]
            0 < i < n ==> points[i].0 >= points[i - 1].0 + stride {
            assert(points.subrange(0, n) =~= points.subrange(0, n - 1).push(points[n - 1]));
            if n > 1 {
                assert(points[n - 1].0 >= points[n - 2].0 + stride);
                assert(before.last() == points[n - 2]);
            }
        }
    } else {
        assert(points.subrange(0, 0) =~= now);
    }
}

proof fn lemma_next_slot(channels: Seq<Channel>, list: Seq<TxMsg>, n: int, k: int)
    requires
        0 <= k < n <= list.len(),
        bus_run::is_due_by_timer(channels, list[k]),
    ensures
        bus_run::next_slot(channels, list, n) matches Some(t) && t <= list[k].next_t_us,
    decreases n,
{
    if k < n - 1 {
        lemma_next_slot(channels, list, n - 1, k);
    }
}

proof fn lemma_soonest(times: Seq<u64>, n: int, k: int)
    requires
        0 <= k < n <= times.len(),
    ensures
        bus_run::soonest(times, n) matches Some(t) && t <= times[k],
    decreases n,
{
    if k < n - 1 {
        lemma_soonest(times, n - 1, k);
    }
}

/// A stopped or frozen bus waits for nothing. A running one wakes no later than any node's
/// timer, than a simulated entry's next slot, and in a replay than the next frame of the
/// log.
pub proof fn law_the_bus_wakes_in_time(
    core: BusCore,
    now_us: u64,
    source_due: Option<u64>,
    node_dues: Seq<u64>,
    k: int,
)
    ensures
        !core.measuring || core.trace_paused ==> core.deadline(now_us, source_due, node_dues)
            is None,
        core.measuring && !core.trace_paused && 0 <= k < node_dues.len() ==> (core.deadline(
            now_us,
            source_due,
            node_dues,
        ) matches Some(t) && t <= node_dues[k]),
        core.measuring && !core.trace_paused && core.mode == Mode::Replay && source_due is Some ==> (
        core.deadline(now_us, source_due, node_dues) matches Some(t) && t <= source_due->0),
        core.measuring && !core.trace_paused && core.mode == Mode::Virtual && 0 <= k
            < core.tx_list@.len() && core.tx_list@[k].active && core.tx_list@[k].cycle_us > 0
            && core.tx_list@[k].node@.len() == 0 && now_us + core.tx_list@[k].next_t_us
            <= u64::MAX ==> (core.deadline(now_us, source_due, node_dues) matches Some(t) && t
            <= now_us + (if core.tx_list@[k].next_t_us > core.sim_t_us {
            core.tx_list@[k].next_t_us - core.sim_t_us
        } else {
            0
        })),
{
    if 0 <= k < node_dues.len() {
        lemma_soonest(node_dues, node_dues.len() as int, k);
    }
    if 0 <= k < core.tx_list@.len() && bus_run::is_due_by_timer(core.channels@, core.tx_list@[k]) {
        lemma_next_slot(core.channels@, core.tx_list@, core.tx_list@.len() as int, k);
    }
}

/// A bus with nothing scheduled has no deadline: no timer of a node, no entry on a timer,
/// no frame of a log.
pub proof fn law_nothing_scheduled_is_no_deadline(core: BusCore, now_us: u64)
    requires
        forall|i: int|
            0 <= i < core.tx_list@.len() ==> !(#[trigger] core.tx_list@[i]).active
                || core.tx_list@[i].cycle_us == 0,
    ensures
        core.deadline(now_us, None, Seq::empty()) is None,
{
    lemma_no_slot(core.channels@, core.tx_list@, core.tx_list@.len() as int);
}

proof fn lemma_no_slot(channels: Seq<Channel>, list: Seq<TxMsg>, n: int)
    requires
        0 <= n <= list.len(),
        forall|i: int|
            0 <= i < list.len() ==> !(#[trigger] list[i]).active || list[i].cycle_us == 0,
    ensures
        bus_run::next_slot(channels, list, n) is None,
    decreases n,
{
    if n > 0 {
        lemma_no_slot(channels, list, n - 1);
        assert(!list[n - 1].active || list[n - 1].cycle_us == 0);
    }
}

} // verus!
