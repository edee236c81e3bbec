//! What arrives on the bus and what the rules make of it: laws on single frames, rules
//! and actions.

use vstd::prelude::*;
use crate::aggregate;
use crate::aggregate::Interval;
use crate::bus::BusCore;
use crate::bus_ingest;
use crate::can::frame::{CanFrame, Direction, FrameFlags};
use crate::channel;
use crate::table;
use crate::triggers::{Trigger, TriggerAction, TriggerCond};

verus! {

/// The frame is an error frame.
pub open spec fn is_error(f: CanFrame) -> bool {
    f.flags.has(FrameFlags(8))
}

/// A frame that arrives is counted once and stands last in the trace. A data frame is what
/// its message's tally then shows, counted once more, and no other tally changes; an error
/// frame changes no tally and no watched signal.
pub proof fn law_an_arriving_frame_is_taken_in(
    before: BusCore,
    after: BusCore,
    f: CanFrame,
    stride: u64,
    r: Option<Interval>,
    other: u64,
)
    requires
        before.is_ingested(after, f, stride, r),
        before.frame_counter < u64::MAX,
        before.trace_limit > 0,
        forall|k: u64| #[trigger]
            before.aggs@.dom().contains(k) ==> k == table::message_key(
                before.aggs@[k].channel,
                before.aggs@[k].id,
                before.aggs@[k].extended,
            ) && before.aggs@[k].count < u64::MAX,
    ensures
        after.frame_counter == before.frame_counter + 1,
        after.trace@.last() == f,
        after.trace@.len() <= before.trace_limit || after.trace@.len() == before.trace@.len() + 1,
        is_error(f) ==> after.aggs == before.aggs && after.obs == before.obs,
        !is_error(f) ==> {
            let k = table::message_key(f.channel, f.id, f.extended);
            &&& after.aggs@.dom().contains(k)
            &&& after.aggs@[k].frame_spec() == f
            &&& after.aggs@[k].payload_spec() == f.payload_spec()
            &&& after.aggs@[k].count == (if before.aggs@.dom().contains(k) {
                before.aggs@[k].count + 1
            } else {
                1
            })
            &&& other != k ==> after.aggs@.dom().contains(other) == before.aggs@.dom().contains(
                other,
            ) && (before.aggs@.dom().contains(other) ==> after.aggs@[other]
                == before.aggs@[other])
        },
        after.tx_list == before.tx_list,
        after.triggers == before.triggers,
        after.channels == before.channels,
        after.sim_t_us == before.sim_t_us,
{
    let k = table::message_key(f.channel, f.id, f.extended);
    if before.aggs@.dom().contains(k) {
        let a = before.aggs@[k];
        table::lemma_key_parts(f.channel, f.id, f.extended, 0);
        table::lemma_key_parts(a.channel, a.id, a.extended, 0);
    }
    crate::trace::law_ring_keeps_the_newest(before.trace@, f, before.trace_limit as int);
}

/// A rule and what it gives after it was judged on an edge: its count goes up by one, its
/// time is that of the edge, and its action is due.
pub open spec fn is_edge(t: Trigger, after: Trigger, at_us: u64) -> bool {
    &&& after.level
    &&& t.fired < u64::MAX ==> after.fired == t.fired + 1
    &&& after.last_fire_t_us == at_us
    &&& after.cond == t.cond
    &&& after.action == t.action
    &&& after.enabled == t.enabled
}

/// A disabled rule sleeps: no frame and no sweep changes it, and it gives no action.
pub proof fn law_disabled_rules_sleep(
    core: BusCore,
    f: CanFrame,
    now_us: u64,
    grace: u64,
    crossed: Seq<bool>,
    i: int,
)
    requires
        0 <= i < core.triggers@.len(),
        !core.triggers@[i].enabled,
    ensures
        ({
            let rules = core.triggers@;
            let levels = core.frame_levels(f, crossed);
            &&& bus_ingest::judged_rules(rules, levels, f.t_us)[i] == rules[i]
            &&& bus_ingest::fired(rules, levels, i + 1) == bus_ingest::fired(rules, levels, i)
        }),
        ({
            let rules = core.triggers@;
            let levels = core.sweep_levels(now_us, grace, crossed);
            &&& bus_ingest::judged_rules(rules, levels, now_us)[i] == rules[i]
            &&& bus_ingest::fired(rules, levels, i + 1) == bus_ingest::fired(rules, levels, i)
        }),
{
}

/// An action is due where a rule's level rises, and nowhere else; the actions come in the
/// order of their rules.
pub proof fn law_actions_come_from_rising_levels(
    rules: Seq<Trigger>,
    levels: Seq<Option<bool>>,
    t_us: u64,
    i: int,
)
    requires
        0 <= i < rules.len(),
        levels.len() == rules.len(),
    ensures
        bus_ingest::fired(rules, levels, 0).len() == 0,
        ({
            let was = rules[i];
            let now = bus_ingest::judged_rules(rules, levels, t_us)[i];
            if !was.level && now.level {
                &&& is_edge(was, now, t_us)
                &&& bus_ingest::fired(rules, levels, i + 1) == bus_ingest::fired(
                    rules,
                    levels,
                    i,
                ).push(was.action)
            } else {
                &&& now == (Trigger { level: now.level, ..was })
                &&& bus_ingest::fired(rules, levels, i + 1) == bus_ingest::fired(rules, levels, i)
            }
        }),
        bus_ingest::judged_rules(rules, levels, t_us).len() == rules.len(),
{
}

/// A rule on an identifier rises with the first data frame of that identifier on its bus,
/// and stays up; a rule on error frames with the first error frame of its bus. Any other
/// frame leaves them.
pub proof fn law_appearances_raise_their_rules(
    core: BusCore,
    f: CanFrame,
    crossed: Seq<bool>,
    i: int,
)
    requires
        0 <= i < core.triggers@.len(),
        core.triggers@[i].enabled,
    ensures
        ({
            let was = core.triggers@[i];
            let now = bus_ingest::judged_rules(
                core.triggers@,
                core.frame_levels(f, crossed),
                f.t_us,
            )[i];
            &&& was.cond matches TriggerCond::IdPresent { ch, id } ==> if f.channel == ch && f.id
                == id && !is_error(f) {
                now.level
            } else {
                now == was
            }
            &&& was.cond matches TriggerCond::ErrorFrame { ch } ==> if f.channel == ch && is_error(
                f,
            ) {
                now.level
            } else {
                now == was
            }
            &&& was.cond is CycleTimeout || was.cond is SysVar ==> now == was
        }),
{
}

/// A rule on a signal follows the side of the threshold that a frame's value stands on,
/// where the frame is a data frame of the rule's message and carries the signal; any other
/// frame leaves it.
pub proof fn law_crossings_follow_the_signal(
    core: BusCore,
    f: CanFrame,
    crossed: Seq<bool>,
    i: int,
)
    requires
        0 <= i < core.triggers@.len(),
        i < crossed.len(),
        core.triggers@[i].enabled,
        core.triggers@[i].cond is SignalCross,
    ensures
        ({
            let was = core.triggers@[i];
            let now = bus_ingest::judged_rules(
                core.triggers@,
                core.frame_levels(f, crossed),
                f.t_us,
            )[i];
            was.cond matches TriggerCond::SignalCross { ch, id, ext, signal, .. } && {
                let decoded = channel::table_on(core.channels@, ch);
                let carried = f.channel == ch && f.id == id && f.extended == ext && !is_error(f)
                    && decoded is Some && exists|k: int|
                    0 <= k < bus_ingest::decoded_on(core.channels@, f).len() && (
                    #[trigger] bus_ingest::decoded_on(core.channels@, f)[k]).name@ == signal@;
                if carried {
                    now.level == crossed[i]
                } else {
                    now == was
                }
            }
        }),
{
}

/// A rule on silence holds in a sweep where a frame of its message was seen and the time
/// since exceeds the grace's declared periods; a rule on a variable holds where the variable
/// stands on the far side. The other rules are left by a sweep.
pub proof fn law_sweeps_raise_silent_rules(
    core: BusCore,
    now_us: u64,
    grace: u64,
    crossed: Seq<bool>,
    i: int,
)
    requires
        0 <= i < core.triggers@.len(),
        i < crossed.len(),
        core.triggers@[i].enabled,
    ensures
        ({
            let was = core.triggers@[i];
            let now = bus_ingest::judged_rules(
                core.triggers@,
                core.sweep_levels(now_us, grace, crossed),
                now_us,
            )[i];
            &&& was.cond matches TriggerCond::CycleTimeout { ch, id } ==> {
                let std = table::message_key(ch, id, false);
                let ext = table::message_key(ch, id, true);
                let aggs = core.aggs@;
                let seen = aggs.dom().contains(std) || aggs.dom().contains(ext);
                let last = if aggs.dom().contains(std) {
                    aggs[std].last_t_us
                } else {
                    aggs[ext].last_t_us
                };
                let db = channel::table_on(core.channels@, ch);
                let declared = db is Some && db->0.messages@.dom().contains(id)
                    && db->0.messages@[id].cycle_us is Some;
                let period = db->0.messages@[id].cycle_us->0;
                now.level == (seen && declared && period > 0 && now_us > last + period * grace)
            }
            &&& was.cond is SysVar ==> now.level == crossed[i]
            &&& was.cond is SignalCross || was.cond is IdPresent || was.cond is ErrorFrame ==> now
                == was
        }),
{
    match core.triggers@[i].cond {
        TriggerCond::CycleTimeout { ch, id } => {
            match bus_ingest::either_agg(core.aggs@, ch, id) {
                Some(a) => match bus_ingest::cycle_on(core.channels@, ch, id) {
                    Some(d) => {
                        crate::monitor::law_silence_convicts_after_the_grace(
                            now_us,
                            a.last_t_us,
                            d,
                            grace,
                        );
                    },
                    None => {},
                },
                None => {},
            }
        },
        _ => {},
    }
}

/// What each action does. Starting a recording, on a running bus that does not record,
/// records from the frames held back on. Stopping one lets the rest of it run out. A marker
/// is set at the time of the edge. Clearing the trace empties it and leaves the tallies. A
/// frame that is sent joins the step at the time of the edge, under its entry's identifier.
/// A file that cannot be opened leaves the bus as it is.
pub proof fn law_actions_do_what_they_say(
    before: BusCore,
    after: BusCore,
    action: TriggerAction,
    at_us: u64,
    raws: Seq<Option<u64>>,
    mirror: Seq<(String, Option<u64>)>,
    opened: Result<String, String>,
    first: Seq<CanFrame>,
    status_before: Seq<char>,
    status: Seq<char>,
)
    requires
        before.is_acted(
            after,
            action,
            at_us,
            raws,
            mirror,
            opened,
            first,
            status_before,
            status,
        ),
    ensures
        action is StartRecording && before.measuring && !before.recorder.recording ==> match opened {
            Ok(path) => {
                &&& after.recorder.recording
                &&& after.recorder.last_record@ == path@
                &&& first == before.pre_buffer@
                &&& after.pre_buffer@.len() == 0
                &&& after.post_roll is None
            },
            Err(_) => after == before && first.len() == 0,
        },
        action is StartRecording && (!before.measuring || before.recorder.recording) ==> after
            == before && first.len() == 0,
        action is StopRecording && before.recorder.recording ==> after.recorder.recording
            && after.post_roll == Some(before.post_frames),
        action is StopRecording && !before.recorder.recording ==> after == before,
        action is InsertMarker ==> after.markers@.len() > 0 && before.marker_cap > 0
            ==> after.markers@.last() == at_us,
        action is InsertMarker && before.markers@.len() < before.marker_cap ==> after.markers@
            == before.markers@.push(at_us),
        action is ClearTrace ==> after.trace@.len() == 0 && after.fr_trace@.len() == 0
            && after.aggs == before.aggs && after.frame_counter == before.frame_counter && after.buf
            == before.buf && after.triggers@.len() == before.triggers@.len(),
        action matches TriggerAction::Send { ch, id } ==> {
            let k = crate::bus::entry_index(before.tx_list@, ch, id, 0);
            if k < 0 {
                after == before
            } else {
                &&& after.buf@.len() == before.buf@.len() + 1
                &&& after.buf@.subrange(0, before.buf@.len() as int) == before.buf@
                &&& after.buf@.last().t_us == at_us
                &&& after.buf@.last().id == before.tx_list@[k].id
                &&& after.buf@.last().channel == before.tx_list@[k].channel
                &&& after.buf@.last().extended == before.tx_list@[k].extended
                &&& after.buf@.last().dir == Direction::Tx
                &&& after.tx_list@[k].last_sent@ == after.buf@.last().data@
                &&& after.tx_list@[k].last_len == after.buf@.last().len
                &&& after.tx_list@[k].data == before.tx_list@[k].data
                &&& after.tx_list@[k].cycle_us == before.tx_list@[k].cycle_us
                &&& after.tx_list@[k].active == before.tx_list@[k].active
            }
        },
        !(action is Send) ==> after.buf == before.buf && after.tx_list == before.tx_list,
        !(action is ClearTrace) ==> after.trace == before.trace && after.triggers
            == before.triggers,
        !(action is InsertMarker) ==> after.markers == before.markers,
        !(action is StartRecording) ==> first.len() == 0 && after.recorder == before.recorder,
        after.aggs == before.aggs,
        after.measuring == before.measuring,
{
    match action {
        TriggerAction::Send { ch, id } => {
            let k = crate::bus::entry_index(before.tx_list@, ch, id, 0);
            if k >= 0 {
                assert(after.buf@.subrange(0, before.buf@.len() as int)
                    =~= after.buf@.drop_last());
                lemma_entry_index(before.tx_list@, ch, id, 0);
            }
        },
        TriggerAction::InsertMarker => {
            let all = before.markers@.push(at_us);
            if before.markers@.len() + 1 > before.marker_cap && before.markers@.len() > 0 {
                assert(all.drop_first().last() == at_us);
            }
        },
        _ => {},
    }
}

/// An entry that is found is one of the list, and the first of its message.
pub proof fn lemma_entry_index(list: Seq<crate::generator::TxMsg>, ch: u8, id: u32, from: int)
    requires
        0 <= from,
    ensures
        ({
            let k = crate::bus::entry_index(list, ch, id, from);
            &&& k < list.len()
            &&& k >= 0 ==> from <= k && list[k].channel == ch && list[k].id == id
            &&& k >= 0 ==> forall|j: int|
                from <= j < k ==> (#[trigger] list[j]).channel != ch || list[j].id != id
            &&& k < 0 ==> forall|j: int|
                from <= j < list.len() ==> (#[trigger] list[j]).channel != ch || list[j].id != id
        }),
    decreases list.len() - from,
{
    if from < list.len() {
        lemma_entry_index(list, ch, id, from + 1);
    }
}

/// A script's frame carries the script's bytes in their order, up to what a frame can hold,
/// and zeros behind them; its length covers them.
pub proof fn law_scripted_frames_carry_their_bytes(
    channel: u8,
    id: u32,
    force_extended: bool,
    data: Seq<u8>,
    t_us: u64,
    f: CanFrame,
    i: int,
)
    requires
        bus_ingest::scripted_frame(channel, id, force_extended, data, t_us, f),
        0 <= i < 64,
    ensures
        i < data.len() ==> f.data@[i] == data[i],
        i >= data.len() ==> f.data@[i] == 0,
        data.len() <= 8 ==> f.len == data.len(),
        data.len() <= 64 ==> f.len >= data.len(),
        data.len() > 64 ==> f.len == 64,
        f.id == id && f.channel == channel && f.t_us == t_us && f.dir == Direction::Tx,
        id > 0x7FF ==> f.extended,
        force_extended ==> f.extended,
        id <= 0x7FF && !force_extended ==> !f.extended,
{
    if data.len() <= 64 {
        crate::can::frame::law_dlc_covers(data.len() as u8);
    } else {
        crate::can::frame::law_dlc_round_trip(15);
    }
}

} // verus!
