//! A step of the bus from its opening to its close, and what single frames, rows and lines
//! leave behind: loads, watched signals, FlexRay slots, the Write window. Also conditions
//! of multiplexed signals and integers that pass through a double.

use vstd::prelude::*;
use crate::aggregate;
use crate::aggregate::Interval;
use crate::app::Mode;
use crate::block;
use crate::bus::BusCore;
use crate::bus_ingest;
use crate::bus_step;
use crate::bus_types;
use crate::bus_types::{WriteKind, WriteLine};
use crate::can::frame::{CanFrame, Direction};
use crate::dbc;
use crate::dbc_source::{DbSignal, ExtendedMux, MuxMark};
use crate::decode;
use crate::generator;
use crate::monitor;
use crate::mux;
use crate::mux::{MuxCondition, SignalGate};
use crate::observers::Reading;
use crate::text;
use crate::trace::FrRow;
use crate::watch_laws;

verus! {

/// A frame is noted in the load of its own bus, with that bus's bitrates, and of no other.
pub proof fn law_loads_are_noted_on_their_bus(
    before: BusCore,
    after: BusCore,
    f: CanFrame,
    stride: u64,
    r: Option<Interval>,
    j: int,
)
    requires
        before.is_ingested(after, f, stride, r),
        f.channel < before.bus_loads@.len(),
        f.channel < before.channels@.len(),
    ensures
        after.bus_loads@.len() == before.bus_loads@.len(),
        ({
            let c = f.channel as int;
            let notes = after.bus_loads@[c].notes@;
            &&& notes.len() == before.bus_loads@[c].notes@.len() + 1
            &&& notes.last().frame == f
            &&& notes.last().arb_kbps == before.channels@[c].bitrate_kbps
            &&& notes.last().data_kbps == before.channels@[c].fd_data_kbps
            &&& notes.drop_last() == before.bus_loads@[c].notes@
        }),
        0 <= j < before.bus_loads@.len() && j != f.channel ==> after.bus_loads@[j]
            == before.bus_loads@[j],
{
    let c = f.channel as int;
    assert(after.bus_loads@[c].notes@.drop_last() =~= before.bus_loads@[c].notes@);
}

/// A watched signal shows what the frame that carries it reads, from the frame on. One that
/// the frame does not carry, or that is on another bus, stays as it was.
pub proof fn law_frames_reach_the_watched_signals(
    before: BusCore,
    after: BusCore,
    f: CanFrame,
    stride: u64,
    r: Option<Interval>,
    k: int,
    j: int,
)
    requires
        before.is_ingested(after, f, stride, r),
        !f.flags.has(crate::can::frame::FrameFlags(8)),
        0 <= k < before.obs@.subs.len(),
    ensures
        after.obs@.subs.len() == before.obs@.subs.len(),
        ({
            let d = bus_ingest::decoded_on(before.channels@, f);
            let was = before.obs@.subs[k];
            let now = after.obs@.subs[k];
            &&& was.key.ch != f.channel || was.key.id != f.id || was.key.ext != f.extended ==> now
                == was
            &&& 0 <= j < d.len() && was.key.ch == f.channel && was.key.id == f.id && was.key.ext
                == f.extended && was.key.signal == d[j].name@ && (forall|i: int|
                0 <= i < d.len() && i != j ==> (#[trigger] d[i]).name@ != d[j].name@) && (forall|
                i: int,
            |
                0 <= i < k ==> (#[trigger] before.obs@.subs[i]).key != was.key) ==> now.latest == (
            Reading::Decoded { value: d[j].value, factor: d[j].factor, offset: d[j].offset })
                && now.last_raw == d[j].raw && now.last_update_us == f.t_us
        }),
{
    let d = bus_ingest::decoded_on(before.channels@, f);
    let subs = before.obs@.subs;
    watch_laws::law_frames_touch_their_own_signals(subs, f, d, stride, d.len() as int, k);
    if 0 <= j < d.len() && subs[k].key.ch == f.channel && subs[k].key.id == f.id
        && subs[k].key.ext == f.extended && subs[k].key.signal == d[j].name@ && (forall|i: int|
        0 <= i < d.len() && i != j ==> (#[trigger] d[i]).name@ != d[j].name@) && (forall|i: int|
        0 <= i < k ==> (#[trigger] subs[i]).key != subs[k].key) {
        watch_laws::law_watched_signals_follow_the_frame(
            subs,
            f,
            d,
            stride,
            d.len() as int,
            k,
            j,
        );
    }
}

/// A FlexRay row stands last in its trace, stamped by the clock where it has no stamp of its
/// own, and is what its slot then shows, counted once more. Other slots stay.
pub proof fn law_a_row_is_taken_in(
    before: BusCore,
    after: BusCore,
    row: FrRow,
    r: Option<Interval>,
    other: u64,
)
    requires
        before.is_fr_ingested(after, row, r),
        before.trace_limit > 0,
    ensures
        ({
            let t = if row.t_us == 0 {
                before.sim_t_us
            } else {
                row.t_us
            };
            let slot = row.slot as u64;
            &&& after.fr_trace@.len() > 0
            &&& after.fr_trace@.last().t_us == t
            &&& after.fr_trace@.last().slot == row.slot
            &&& after.fr_trace@.last().payload == row.payload
            &&& after.fr_aggs@.dom().contains(slot)
            &&& after.fr_aggs@[slot].last_t_us == t
            &&& after.fr_aggs@[slot].payload@ == row.payload@
            &&& before.fr_aggs@.dom().contains(slot) && before.fr_aggs@[slot].count < u64::MAX
                ==> after.fr_aggs@[slot].count == before.fr_aggs@[slot].count + 1
            &&& !before.fr_aggs@.dom().contains(slot) ==> after.fr_aggs@[slot].count == 1
            &&& other != slot && before.fr_aggs@.dom().contains(other)
                ==> after.fr_aggs@.dom().contains(other) && after.fr_aggs@[other]
                == before.fr_aggs@[other]
        }),
        after.trace == before.trace,
        after.aggs == before.aggs,
{
}

/// The Write window keeps the newest lines, a thousand at most: a new line stands last, and
/// the oldest leaves once the window is full.
pub proof fn law_the_write_window_keeps_the_newest(before: BusCore, after: BusCore, line: WriteLine)
    requires
        before.is_written(after, line),
        before.write_log@.len() <= 1000,
    ensures
        after.write_log@.len() <= 1000,
        after.write_log@.last() == line,
        before.write_log@.len() < 1000 ==> after.write_log@.len() == before.write_log@.len() + 1
            && after.write_log@.drop_last() == before.write_log@,
        before.write_log@.len() == 1000 ==> forall|i: int|
            0 <= i < 999 ==> #[trigger] after.write_log@[i] == before.write_log@[i + 1],
        after.trace == before.trace,
        after.measuring == before.measuring,
{
    if before.write_log@.len() < 1000 {
        assert(after.write_log@.drop_last() =~= before.write_log@);
    }
}

/// A line that begins with the tag of an error is an error, one with the tag of a check, a
/// timer, a variable, a compile or a start a warning, and a plain one is the script's own.
pub proof fn law_lines_are_told_by_their_tag(rest: Seq<char>, line: Seq<char>)
    ensures
        bus_types::line_kind("[error]"@ + rest) == WriteKind::Error,
        bus_types::line_kind("[check]"@ + rest) == WriteKind::Warning,
        bus_types::line_kind("[timer]"@ + rest) == WriteKind::Warning,
        bus_types::line_kind("[sysvar]"@ + rest) == WriteKind::Warning,
        bus_types::line_kind("[compile]"@ + rest) == WriteKind::Warning,
        bus_types::line_kind("[start]"@ + rest) == WriteKind::Warning,
        line.len() > 0 && line[0] != '[' ==> bus_types::line_kind(line) == WriteKind::Script,
{
    reveal_strlit("[error]");
    reveal_strlit("[check]");
    reveal_strlit("[timer]");
    reveal_strlit("[sysvar]");
    reveal_strlit("[compile]");
    reveal_strlit("[start]");
    lemma_starts("[error]"@, rest);
    lemma_starts("[check]"@, rest);
    lemma_starts("[timer]"@, rest);
    lemma_starts("[sysvar]"@, rest);
    lemma_starts("[compile]"@, rest);
    lemma_starts("[start]"@, rest);
    lemma_no_start("[check]"@ + rest, "[error]"@, 1);
    lemma_no_start("[timer]"@ + rest, "[error]"@, 1);
    lemma_no_start("[sysvar]"@ + rest, "[error]"@, 1);
    lemma_no_start("[compile]"@ + rest, "[error]"@, 1);
    lemma_no_start("[start]"@ + rest, "[error]"@, 1);
    if line.len() > 0 && line[0] != '[' {
        lemma_no_start(line, "[error]"@, 0);
        lemma_no_start(line, "[check]"@, 0);
        lemma_no_start(line, "[timer]"@, 0);
        lemma_no_start(line, "[sysvar]"@, 0);
        lemma_no_start(line, "[compile]"@, 0);
        lemma_no_start(line, "[start]"@, 0);
    }
}

proof fn lemma_starts(pat: Seq<char>, rest: Seq<char>)
    ensures
        text::stands_at(pat + rest, pat, 0),
{
    assert((pat + rest).subrange(0, pat.len() as int) =~= pat);
}

proof fn lemma_no_start(s: Seq<char>, pat: Seq<char>, i: int)
    requires
        0 <= i < pat.len(),
        i < s.len(),
        s[i] != pat[i],
    ensures
        !text::stands_at(s, pat, 0),
{
    if text::stands_at(s, pat, 0) {
        assert(s.subrange(0, pat.len() as int)[i] == s[i]);
    }
}

/// A time of day counts its seconds and the whole microseconds of the running one.
pub proof fn law_times_of_day_are_in_microseconds(seconds: u32, nanos: u32)
    requires
        nanos < 1_000_000_000,
    ensures
        bus_types::day_us(seconds, nanos) / 1_000_000 == seconds,
        bus_types::day_us(seconds, nanos) * 1000 <= seconds * 1_000_000_000 + nanos,
        seconds * 1_000_000_000 + nanos < (bus_types::day_us(seconds, nanos) + 1) * 1000,
{
}

/// A frame that is sent at once bears its entry's identifier and the given time, and joins
/// the step last. An entry without sources sends its base bytes as they are. The entry
/// remembers what went out and keeps its schedule.
pub proof fn law_a_frame_is_sent_at_once(
    before: BusCore,
    after: BusCore,
    ch: u8,
    id: u32,
    at_us: u64,
    raws: Seq<Option<u64>>,
    k: int,
)
    requires
        before.is_sent(after, ch, id, at_us, raws, Seq::empty()),
        crate::command_laws::is_entry_of(before.tx_list@, ch, id, k),
    ensures
        after.buf@.len() == before.buf@.len() + 1,
        ({
            let f = after.buf@.last();
            let was = before.tx_list@[k];
            let now = after.tx_list@[k];
            &&& f.id == id
            &&& f.channel == ch
            &&& f.extended == was.extended
            &&& f.t_us == at_us
            &&& f.dir == Direction::Tx
            &&& now.last_sent@ == f.data@
            &&& now.last_len == f.len
            &&& now.next_t_us == was.next_t_us
            &&& now.active == was.active
            &&& now.data == was.data
            &&& was.srcs@.len() == 0 ==> f.data@ == was.data@
            &&& was.srcs@.len() == 0 && was.len <= 8 ==> f.len == was.len && f.flags == was.flags
        }),
{
    crate::bus_ingest_laws::lemma_entry_index(before.tx_list@, ch, id, 0);
    let i = crate::bus::entry_index(before.tx_list@, ch, id, 0);
    assert(before.tx_list@[k].channel == ch && before.tx_list@[k].id == id);
    if i < 0 {
        assert(before.tx_list@[k].channel != ch || before.tx_list@[k].id != id);
    }
    if i < k {
        assert(before.tx_list@[i].channel != ch || before.tx_list@[i].id != id);
    }
    assert(i == k);
    let was = before.tx_list@[k];
    let table = crate::channel::table_on(before.channels@, was.channel);
    let sent = bus_ingest::Outgoing {
        data: after.tx_list@[k].last_sent@,
        len: after.tx_list@[k].last_len,
        flags: after.buf@.last().flags,
    };
    let steps = choose|steps: Seq<bus_ingest::Outgoing>|
        {
            &&& #[trigger] bus_ingest::are_mirrors(table, was.id, Seq::empty(), steps)
            &&& generator::is_payload(
                table,
                was,
                raws,
                steps[0].data,
                steps[0].len,
                steps[0].flags,
            )
            &&& sent == steps.last()
        };
    assert(steps.len() == 1);
    assert(steps.last() == steps[0]);
    if was.srcs@.len() == 0 {
        if let Some(t) = table {
            if generator::knows(t, was.id) {
                let laid = choose|laid: Seq<Seq<u8>>| #[trigger]
                    generator::are_steps(t, was.id, was.srcs@, raws, was.data@, laid) && sent.data
                        == laid.last();
                assert(laid.len() == 1);
            }
        }
    }
}

/// The source's frames are the first of a step that has no requests, and the log's clock is
/// the stamp of the newest of them; a simulation's clock is not touched.
pub proof fn law_a_step_opens_with_its_source(
    before: BusCore,
    after: BusCore,
    polled: Vec<CanFrame>,
    now_us: u64,
    stride: u64,
    raws: Seq<Vec<Option<u64>>>,
    source_empty: bool,
)
    requires
        before.is_step_opened(after, polled, now_us, stride, raws, source_empty),
        before.injected@.len() == 0,
    ensures
        after.buf@ == polled@,
        source_empty == (polled@.len() == 0),
        after.injected@.len() == 0,
        before.mode == Mode::Replay && polled@.len() > 0 ==> after.sim_t_us == polled@.last().t_us,
        before.mode == Mode::Replay && polled@.len() == 0 ==> after.sim_t_us == before.sim_t_us,
        before.mode == Mode::Virtual ==> after.sim_t_us == before.sim_t_us,
        after.applied_stride_us == stride,
        stride != before.applied_stride_us ==> after.sample_cover is None,
        stride == before.applied_stride_us ==> after.sample_cover == before.sample_cover,
        after.tx_list == before.tx_list,
        after.trace == before.trace,
{
    let (start, last) = choose|start: BusCore, last: BusCore|
        {
            &&& #[trigger] bus_step::are_all_sent(start, last, before.injected@, now_us, raws)
            &&& start.injected@.len() == 0
            &&& start == (BusCore {
                loads_dirty: true,
                buf: polled,
                injected: start.injected,
                ..before
            })
            &&& source_empty == (last.buf@.len() == 0)
            &&& after == (BusCore {
                sample_cover: if stride != before.applied_stride_us {
                    None
                } else {
                    before.sample_cover
                },
                applied_stride_us: stride,
                sim_t_us: if before.mode == Mode::Replay && last.buf@.len() > 0 {
                    last.buf@.last().t_us
                } else {
                    before.sim_t_us
                },
                ..last
            })
        };
    let steps = choose|steps: Seq<BusCore>|
        #[trigger] bus_step::are_sends(before.injected@, now_us, raws, steps) && steps[0] == start
            && steps.last() == last;
    assert(steps.len() == 1);
    assert(start == last);
}

/// A step that brought something publishes its trace; one that did not publishes nothing.
/// Closing a step changes no trace, tally or entry.
pub proof fn law_a_step_closes_by_publishing(
    before: BusCore,
    after: BusCore,
    landed: bool,
    tol_pct: u64,
    grace: u64,
)
    requires
        before.is_step_closed(after, landed, tol_pct, grace),
    ensures
        landed ==> after.published_trace@ == before.trace@ && after.published_fr@
            == before.fr_trace@,
        !landed ==> after.published_trace == before.published_trace,
        after.trace == before.trace,
        after.aggs == before.aggs,
        after.tx_list == before.tx_list,
        after.sim_t_us == before.sim_t_us,
{
}

/// In a simulation the blocks' frames come behind those of the step, and blocks that are off
/// add nothing.
pub proof fn law_blocks_join_behind(before: BusCore, after: BusCore, k: int)
    requires
        before.are_blocks_polled(after),
        before.mode == Mode::Virtual,
    ensures
        before.buf@.len() <= after.buf@.len(),
        after.buf@.subrange(0, before.buf@.len() as int) == before.buf@,
        (forall|i: int|
            0 <= i < before.replay_blocks@.len() ==> !(#[trigger] before.replay_blocks@[i]).enabled)
            ==> after.buf@ == before.buf@,
        after.replay_blocks@.len() == before.replay_blocks@.len(),
        0 <= k < before.replay_blocks@.len() ==> after.replay_blocks@[k].queue
            == before.replay_blocks@[k].queue && after.replay_blocks@[k].enabled
            == before.replay_blocks@[k].enabled,
        after.sim_t_us == before.sim_t_us,
        after.tx_list == before.tx_list,
{
    assert(after.buf@.subrange(0, before.buf@.len() as int) =~= before.buf@);
    if forall|i: int|
        0 <= i < before.replay_blocks@.len() ==> !(#[trigger] before.replay_blocks@[i]).enabled {
        lemma_no_blocks(before.replay_blocks@, before.sim_t_us, before.replay_blocks@.len() as int);
        assert(after.buf@ =~= before.buf@);
    }
}

proof fn lemma_no_blocks(blocks: Seq<block::ReplayBlock>, now: u64, n: int)
    requires
        0 <= n <= blocks.len(),
        forall|i: int| 0 <= i < blocks.len() ==> !(#[trigger] blocks[i]).enabled,
    ensures
        bus_step::block_frames(blocks, now, n).len() == 0,
    decreases n,
{
    if n > 0 {
        lemma_no_blocks(blocks, now, n - 1);
        assert(!blocks[n - 1].enabled);
    }
}

proof fn lemma_step(n: nat)
    ensures
        decode::double_step(n) >= 1,
        n >= 0x20_0000_0000_0000 ==> 0x10_0000_0000_0000 * decode::double_step(n) <= n,
    decreases n,
{
    if n >= 0x20_0000_0000_0000 {
        lemma_step(n / 2);
        if n / 2 < 0x20_0000_0000_0000 {
            assert(decode::double_step(n / 2) == 1);
        }
    }
}

/// An integer that passes through a double changes by no more than one part in 2^53, and
/// keeps its sign.
pub proof fn law_a_double_is_nearly_the_integer(v: int)
    requires
        -0x7fff_ffff_ffff_f000 < v < 0x7fff_ffff_ffff_f000,
    ensures
        v >= 0 ==> decode::through_double(v) >= 0,
        v <= 0 ==> decode::through_double(v) <= 0,
        decode::through_double(-v) == -decode::through_double(v),
        ({
            let off = decode::through_double(v) - v;
            let size = if v < 0 {
                -v
            } else {
                v
            };
            0x20_0000_0000_0000 * off <= size && -0x20_0000_0000_0000 * off <= size
        }),
{
    let n: nat = if v < 0 {
        (-v) as nat
    } else {
        v as nat
    };
    lemma_step(n);
    let step = decode::double_step(n) as int;
    let whole = n as int / step;
    let rest = n as int % step;
    vstd::arithmetic::div_mod::lemma_fundamental_div_mod(n as int, step);
    vstd::arithmetic::div_mod::lemma_mod_bound(n as int, step);
    assert(step * (whole + 1) == step * whole + step) by (nonlinear_arith);
    let d = decode::nearest_double(n) as int;
    assert(2 * (d - n) <= step && 2 * (n - d) <= step);
    if n < 0x20_0000_0000_0000 {
        assert(step == 1);
        assert(d == n);
    }
    assert(step * whole >= 0) by (nonlinear_arith)
        requires
            step >= 1,
            whole >= 0,
    ;
}

/// A signal that no line and no marker gates has no conditions.
pub proof fn law_unmarked_signals_are_not_gated(
    gating: Seq<MuxCondition>,
    lines: Seq<ExtendedMux>,
    id: u32,
    signals: Seq<DbSignal>,
    k: int,
)
    requires
        dbc::is_gated(gating, lines, id, signals, k),
        0 <= k < signals.len(),
        signals[k].mark == MuxMark::Plain || signals[k].mark == MuxMark::Switch,
        forall|e: int|
            0 <= e < lines.len() ==> dbc::key_id((#[trigger] lines[e]).id) != id
                || lines[e].signal@ != signals[k].layout.name@,
    ensures
        gating.len() == 0,
{
    let gates = choose|gates: Seq<SignalGate>| #[trigger]
        dbc::are_gates(gates, lines, id, signals) && mux::is_merged(gates, gates[k].when@, gating);
    assert(dbc::is_own(gates[k].when@, lines, id, signals, k));
    let own = gates[k].when@;
    assert(!dbc::has_extended(lines, id, signals[k].layout.name@)) by {
        if dbc::has_extended(lines, id, signals[k].layout.name@) {
            let e = choose|e: int|
                0 <= e < lines.len() && #[trigger] dbc::states_gate(
                    lines[e],
                    id,
                    signals[k].layout.name@,
                );
            assert(lines[e].signal@ == signals[k].layout.name@);
        }
    }
    assert forall|w: Seq<char>| !#[trigger] mux::has_switch(own, w) by {
        assert(mux::has_switch(own, w) == dbc::gated_on(lines, id, signals, k, w));
    }
    if gating.len() > 0 {
        let w = gating[0].switch@;
        assert(mux::has_switch(gating, w));
        assert(mux::reaches(gates, own, w));
        let n = choose|n: nat| #[trigger] mux::reaches_in(gates, own, n, w);
        lemma_reaches_nothing(gates, own, n, w);
    }
}

proof fn lemma_reaches_nothing(gates: Seq<SignalGate>, own: Seq<MuxCondition>, n: nat, w: Seq<char>)
    requires
        forall|v: Seq<char>| !#[trigger] mux::has_switch(own, v),
    ensures
        !mux::reaches_in(gates, own, n, w),
    decreases n,
{
    if n > 0 && mux::reaches_in(gates, own, n, w) {
        let v = choose|v: Seq<char>|
            mux::reaches_in(gates, own, (n - 1) as nat, v) && #[trigger] mux::has_switch(
                mux::conditions_of(gates, v),
                w,
            );
        lemma_reaches_nothing(gates, own, (n - 1) as nat, v);
    }
}

/// A signal that is marked with a group, and that no line speaks of, is gated on the
/// message's switch with just that group: the switch is the first signal marked as one.
pub proof fn law_marked_signals_follow_the_switch(
    gating: Seq<MuxCondition>,
    lines: Seq<ExtendedMux>,
    id: u32,
    signals: Seq<DbSignal>,
    k: int,
    g: u64,
    j: int,
)
    requires
        dbc::is_gated(gating, lines, id, signals, k),
        0 <= k < signals.len(),
        signals[k].mark == MuxMark::Group(g),
        forall|e: int|
            0 <= e < lines.len() ==> dbc::key_id((#[trigger] lines[e]).id) != id
                || lines[e].signal@ != signals[k].layout.name@,
        0 <= j < signals.len(),
        signals[j].mark == MuxMark::Switch,
        forall|i: int| 0 <= i < j ==> (#[trigger] signals[i]).mark != MuxMark::Switch,
    ensures
        mux::has_switch(gating, signals[j].layout.name@),
        mux::has_range(gating, signals[j].layout.name@, (g, g)),
{
    let gates = choose|gates: Seq<SignalGate>| #[trigger]
        dbc::are_gates(gates, lines, id, signals) && mux::is_merged(gates, gates[k].when@, gating);
    assert(dbc::is_own(gates[k].when@, lines, id, signals, k));
    let own = gates[k].when@;
    let w = signals[j].layout.name@;
    lemma_top(signals, j);
    assert(!dbc::has_extended(lines, id, signals[k].layout.name@)) by {
        if dbc::has_extended(lines, id, signals[k].layout.name@) {
            let e = choose|e: int|
                0 <= e < lines.len() && #[trigger] dbc::states_gate(
                    lines[e],
                    id,
                    signals[k].layout.name@,
                );
            assert(lines[e].signal@ == signals[k].layout.name@);
        }
    }
    assert(mux::has_switch(own, w) == dbc::gated_on(lines, id, signals, k, w));
    assert(mux::has_range(own, w, (g, g)) == dbc::shown_by(lines, id, signals, k, w, (g, g)));
    assert(mux::reaches_in(gates, own, 0, w));
    assert(mux::reaches(gates, own, w));
    assert(mux::has_switch(gating, w) == mux::reaches(gates, own, w));
    assert(mux::has_range(gating, w, (g, g)) == (mux::has_range(own, w, (g, g))
        || mux::inherits_range(gates, own, w, (g, g))));
}

proof fn lemma_top(signals: Seq<DbSignal>, j: int)
    requires
        0 <= j < signals.len(),
        signals[j].mark == MuxMark::Switch,
        forall|i: int| 0 <= i < j ==> (#[trigger] signals[i]).mark != MuxMark::Switch,
    ensures
        dbc::top_switch(signals) == Some(signals[j].layout.name@),
    decreases signals.len(),
{
    if j > 0 {
        let rest = signals.drop_first();
        assert(signals[0].mark != MuxMark::Switch);
        assert(rest[j - 1] == signals[j]);
        assert forall|i: int| 0 <= i < j - 1 implies (#[trigger] rest[i]).mark
            != MuxMark::Switch by {
            assert(rest[i] == signals[i + 1]);
        }
        lemma_top(rest, j - 1);
    }
}

/// A signal inherits the condition of its switch: where its own conditions name a switch that
/// is itself gated on another one, the other one gates the signal too, with the same ranges.
pub proof fn law_conditions_are_inherited(
    gates: Seq<SignalGate>,
    start: Seq<MuxCondition>,
    merged: Seq<MuxCondition>,
    w: Seq<char>,
    up: Seq<char>,
    r: (u64, u64),
    j: int,
)
    requires
        mux::is_merged(gates, start, merged),
        mux::has_switch(start, w),
        0 <= j < gates.len(),
        gates[j].name@ == w,
        forall|i: int| j < i < gates.len() ==> (#[trigger] gates[i]).name@ != w,
    ensures
        mux::has_switch(merged, w),
        mux::has_switch(gates[j].when@, up) ==> mux::has_switch(merged, up),
        mux::has_range(gates[j].when@, up, r) ==> mux::has_range(merged, up, r),
        mux::has_range(start, w, r) ==> mux::has_range(merged, w, r),
{
    lemma_owner(gates, w, j);
    assert(mux::conditions_of(gates, w) == gates[j].when@);
    assert(mux::reaches_in(gates, start, 0, w));
    assert(mux::reaches(gates, start, w));
    assert(mux::has_switch(merged, w) == mux::reaches(gates, start, w));
    if mux::has_switch(gates[j].when@, up) {
        assert(mux::reaches_in(gates, start, 0, w) && mux::has_switch(
            mux::conditions_of(gates, w),
            up,
        ));
        assert(mux::reaches_in(gates, start, 1, up));
        assert(mux::reaches(gates, start, up));
        assert(mux::has_switch(merged, up) == mux::reaches(gates, start, up));
    }
    if mux::has_range(gates[j].when@, up, r) {
        assert(mux::reaches(gates, start, w) && mux::has_range(
            mux::conditions_of(gates, w),
            up,
            r,
        ));
        assert(mux::inherits_range(gates, start, up, r));
    }
    assert(mux::has_range(merged, up, r) == (mux::has_range(start, up, r) || mux::inherits_range(
        gates,
        start,
        up,
        r,
    )));
    assert(mux::has_range(merged, w, r) == (mux::has_range(start, w, r) || mux::inherits_range(
        gates,
        start,
        w,
        r,
    )));
}

proof fn lemma_owner(gates: Seq<SignalGate>, w: Seq<char>, j: int)
    requires
        0 <= j < gates.len(),
        gates[j].name@ == w,
        forall|i: int| j < i < gates.len() ==> (#[trigger] gates[i]).name@ != w,
    ensures
        mux::owner(gates, w) == j,
    decreases gates.len(),
{
    if j < gates.len() - 1 {
        let rest = gates.drop_last();
        assert(gates[gates.len() - 1].name@ != w);
        assert forall|i: int| j < i < rest.len() implies (#[trigger] rest[i]).name@ != w by {
            assert(rest[i] == gates[i]);
        }
        lemma_owner(rest, w, j);
    }
}

/// An interval is the time between a message's last two frames. The first frame closes none,
/// and neither does one that is not later; the one that the second frame closes is marked as
/// the first.
pub proof fn law_an_interval_lies_between_two_frames(count: u64, last: u64, t: u64)
    ensures
        count == 0 ==> aggregate::closed_interval(count, last, t) is None,
        t <= last ==> aggregate::closed_interval(count, last, t) is None,
        count > 0 && t > last ==> (aggregate::closed_interval(count, last, t) matches Some(i)
            && i.dt_us == t - last && i.first == (count == 1)),
{
}

/// A step's interval runs from the stamp that the step before left to the message's last
/// frame; a step without a new frame has none.
pub proof fn law_a_step_interval_needs_a_new_frame(seen: Map<u64, u64>, k: u64, last: u64)
    ensures
        !seen.dom().contains(k) ==> monitor::step_interval(seen, k, last) is None,
        seen.dom().contains(k) && last <= seen[k] ==> monitor::step_interval(seen, k, last) is None,
        seen.dom().contains(k) && last > seen[k] ==> monitor::step_interval(seen, k, last) == Some(
            (last - seen[k]) as u64,
        ),
{
}

/// A step notes the stamp of every message's last frame under its own key, and so the next
/// step without a new frame of it has no interval.
pub proof fn law_stamps_are_noted(
    seen: Map<u64, u64>,
    items: Seq<(u64, aggregate::MessageAgg)>,
    n: int,
    k: int,
)
    requires
        0 <= k < n <= items.len(),
        forall|i: int|
            k < i < n ==> !((#[trigger] items[i]).1.channel == items[k].1.channel && items[i].1.id
                == items[k].1.id && items[i].1.extended == items[k].1.extended),
    ensures
        ({
            let a = items[k].1;
            let key = crate::table::message_key(a.channel, a.id, a.extended);
            let after = monitor::noted(seen, items, n);
            &&& after.dom().contains(key)
            &&& after[key] == a.last_t_us
            &&& monitor::step_interval(after, key, a.last_t_us) is None
        }),
    decreases n,
{
    if k < n - 1 {
        law_stamps_are_noted(seen, items, n - 1, k);
        let a = items[k].1;
        let b = items[n - 1].1;
        assert(!(b.channel == a.channel && b.id == a.id && b.extended == a.extended));
        crate::table::law_keys_order_as_their_messages(
            (a.channel, a.id, a.extended),
            (b.channel, b.id, b.extended),
        );
    }
}

/// Tallies keep all that they hold but the number of their bus when buses close ranks.
pub proof fn law_tallies_keep_their_figures(items: Seq<(u64, aggregate::MessageAgg)>, k: int)
    requires
        0 <= k < items.len(),
    ensures
        ({
            let r = aggregate::renumbered(items);
            &&& r.len() == items.len()
            &&& r[k].0 == items[k].0
            &&& r[k].1.channel == (items[k].0 / crate::table::BUS_UNIT) as u8
            &&& r[k].1.id == items[k].1.id
            &&& r[k].1.extended == items[k].1.extended
            &&& r[k].1.count == items[k].1.count
            &&& r[k].1.last_t_us == items[k].1.last_t_us
            &&& r[k].1.data == items[k].1.data
            &&& r[k].1.len == items[k].1.len
            &&& r[k].1.dir == items[k].1.dir
            &&& r[k].1.flags == items[k].1.flags
        }),
{
}

/// A block's load fails without a file, with a log that could not be read, and where no
/// frame is left; else it gives the frames of the log, all of them where nothing is filtered.
pub proof fn law_a_load_gives_the_logs_frames(
    path: Seq<char>,
    ids: Seq<(u32, bool)>,
    table: Option<dbc::SymbolTable>,
    log: Result<Vec<CanFrame>, String>,
)
    ensures
        text::trimmed(path).len() == 0 ==> block::loaded(path, None, ids, table, log) is Err,
        text::trimmed(path).len() > 0 && log is Err ==> block::loaded(path, None, ids, table, log)
            == Err::<Seq<CanFrame>, Seq<char>>(log->Err_0@),
        log is Ok && log->Ok_0@.len() == 0 ==> block::loaded(path, None, ids, table, log) is Err,
        text::trimmed(path).len() > 0 && log is Ok && log->Ok_0@.len() > 0 && ids.len() == 0
            ==> block::loaded(path, None, ids, table, log) == Ok::<Seq<CanFrame>, Seq<char>>(
            log->Ok_0@,
        ),
{
    if log is Ok && ids.len() == 0 {
        let frames = log->Ok_0@;
        assert(ids =~= Seq::<(u32, bool)>::empty());
        lemma_kept_all(frames, frames.len() as int);
        assert(frames.subrange(0, frames.len() as int) =~= frames);
    }
}

proof fn lemma_kept_all(frames: Seq<CanFrame>, n: int)
    requires
        0 <= n <= frames.len(),
    ensures
        block::kept(frames, None, Seq::empty(), n) == frames.subrange(0, n),
    decreases n,
{
    if n > 0 {
        lemma_kept_all(frames, n - 1);
        assert(frames.subrange(0, n) =~= frames.subrange(0, n - 1).push(frames[n - 1]));
    } else {
        assert(frames.subrange(0, 0) =~= block::kept(frames, None, Seq::empty(), 0));
    }
}

} // verus!
