//! What the windows and reports show of the bus, what the transport does, and what scripts
//! put on the wire.

use vstd::prelude::*;
use crate::aggregate::MessageAgg;
use crate::app;
use crate::app::{App, Mode, Play, Start};
use crate::app_entries;
use crate::app_text;
use crate::bus::BusCore;
use crate::bus_scripts;
use crate::bus_scripts::NodeTurn;
use crate::bus_types::ScriptNode;
use crate::bus_view;
use crate::bus_view::{Published, Snapshot};
use crate::can::frame::{CanFrame, Direction};
use crate::channel;
use crate::channel::Channel;
use crate::cli_report;
use crate::cli_report::StopReason;
use crate::core_loop;
use crate::core_loop::Lap;
use crate::dbc::DecodedSignal;
use crate::bus_ingest;
use crate::export;
use crate::generator::TxMsg;
use crate::text;
use crate::workspace;
use crate::workspace::{MsgWin, SigScope, TraceWin};

verus! {

/// A trace window shows no frame of another bus than its own, none in a direction that it
/// filters out, and where it asks for it none without a name.
pub proof fn law_a_trace_window_filters(channels: Seq<Channel>, w: TraceWin, f: CanFrame, b: u8)
    ensures
        app_text::shows_frame(channels, w, f) && w.scope == SigScope::Bus(b) ==> f.channel == b,
        app_text::shows_frame(channels, w, f) && w.scope == SigScope::Manual ==> w.manual@.contains(
            (f.channel, f.id),
        ),
        app_text::shows_frame(channels, w, f) && w.dir == 1 ==> f.dir == Direction::Rx,
        app_text::shows_frame(channels, w, f) && w.dir == 2 ==> f.dir == Direction::Tx,
        app_text::shows_frame(channels, w, f) && w.dbc_only ==> channel::table_on(
            channels,
            f.channel,
        ) is Some && channel::table_on(channels, f.channel)->0.messages@.contains_key(f.id),
        text::lower_text(text::trimmed(w.filter@)).len() == 0 && w.dir == 0 && !w.dbc_only && (
        w.scope == SigScope::All || w.scope == SigScope::Bus(f.channel))
            ==> app_text::shows_frame(channels, w, f),
{
}

/// A named message is shown by its name and any other by a dash.
pub proof fn law_messages_go_by_their_names(channels: Seq<Channel>, ch: u8, id: u32)
    ensures
        ch >= channels.len() ==> app_text::shown_name(channels, ch, id) == "-"@,
        channel::table_on(channels, ch) matches Some(t) && t.messages@.contains_key(id)
            ==> app_text::shown_name(channels, ch, id) == channel::table_on(
            channels,
            ch,
        )->0.messages@[id].name@,
        ch < channels.len() ==> channel::bus_name(channels, ch) == channels[ch as int].name@,
{
}

/// The rows of a messages window are the tallies that it shows, in their order.
pub proof fn law_message_rows_are_what_is_shown(
    channels: Seq<Channel>,
    items: Seq<(u64, MessageAgg)>,
    w: MsgWin,
    n: int,
    k: int,
)
    requires
        0 <= k < n <= items.len(),
    ensures
        app_text::shows_message(channels, w, items[k].1.channel, items[k].1.id)
            ==> app_text::msg_rows(channels, items, w, n).contains(items[k].1),
        forall|a: int|
            0 <= a < app_text::msg_rows(channels, items, w, n).len() ==> app_text::shows_message(
                channels,
                w,
                (#[trigger] app_text::msg_rows(channels, items, w, n)[a]).channel,
                app_text::msg_rows(channels, items, w, n)[a].id,
            ),
        app_text::msg_rows(channels, items, w, n).len() <= n,
    decreases n,
{
    let now = app_text::msg_rows(channels, items, w, n);
    let before = app_text::msg_rows(channels, items, w, n - 1);
    if n > 1 {
        law_message_rows_are_what_is_shown(
            channels,
            items,
            w,
            n - 1,
            if k < n - 1 {
                k
            } else {
                0
            },
        );
    }
    if app_text::shows_message(channels, w, items[k].1.channel, items[k].1.id) {
        if k < n - 1 {
            let a = choose|a: int| 0 <= a < before.len() && before[a] == items[k].1;
            assert(now[a] == items[k].1);
        } else {
            assert(now[now.len() - 1] == items[k].1);
        }
    }
    assert forall|a: int| 0 <= a < now.len() implies app_text::shows_message(
        channels,
        w,
        (#[trigger] now[a]).channel,
        now[a].id,
    ) by {
        if a < before.len() {
            assert(now[a] == before[a]);
        }
    }
}

/// The rows of a statistics window are the tallies in its scope.
pub proof fn law_statistics_rows_are_in_scope(
    items: Seq<(u64, MessageAgg)>,
    scope: SigScope,
    manual: Seq<(u8, u32)>,
    n: int,
    k: int,
)
    requires
        0 <= k < n <= items.len(),
    ensures
        scope == SigScope::All || scope == SigScope::Bus(items[k].1.channel)
            ==> app_text::stats_rows(items, scope, manual, n).contains(items[k].1),
        forall|a: int|
            0 <= a < app_text::stats_rows(items, scope, manual, n).len() ==> {
                let c = (#[trigger] app_text::stats_rows(items, scope, manual, n)[a]).channel;
                scope matches SigScope::Bus(b) ==> c == b
            },
    decreases n,
{
    let now = app_text::stats_rows(items, scope, manual, n);
    let before = app_text::stats_rows(items, scope, manual, n - 1);
    if n > 1 {
        law_statistics_rows_are_in_scope(
            items,
            scope,
            manual,
            n - 1,
            if k < n - 1 {
                k
            } else {
                0
            },
        );
    }
    if scope == SigScope::All || scope == SigScope::Bus(items[k].1.channel) {
        if k < n - 1 {
            let a = choose|a: int| 0 <= a < before.len() && before[a] == items[k].1;
            assert(now[a] == items[k].1);
        } else {
            assert(now[now.len() - 1] == items[k].1);
        }
    }
    assert forall|a: int| 0 <= a < now.len() implies {
        let c = (#[trigger] now[a]).channel;
        scope matches SigScope::Bus(b) ==> c == b
    } by {
        if a < before.len() {
            assert(now[a] == before[a]);
        }
    }
}

/// The sum over rows counts every frame of every row, up to the largest number.
pub proof fn law_frames_are_summed(rows: Seq<MessageAgg>, n: int, k: int)
    requires
        0 <= k < n <= rows.len(),
    ensures
        rows[k].count <= app_text::frames_of(rows, n) <= u64::MAX,
        app_text::frames_of(rows, n - 1) + rows[n - 1].count <= u64::MAX ==> app_text::frames_of(
            rows,
            n,
        ) == app_text::frames_of(rows, n - 1) + rows[n - 1].count,
    decreases n,
{
    lemma_frames_nonneg(rows, n - 1);
    if k < n - 1 {
        law_frames_are_summed(rows, n - 1, k);
    }
}

proof fn lemma_frames_nonneg(rows: Seq<MessageAgg>, n: int)
    ensures
        0 <= app_text::frames_of(rows, n) <= u64::MAX,
    decreases n,
{
    if n > 0 {
        lemma_frames_nonneg(rows, n - 1);
    }
}

/// An identifier prints as three hexadecimal digits or more, and as eight and an `x` where
/// it is extended.
pub proof fn law_identifiers_print_by_their_kind(id: u32, extended: bool)
    ensures
        !extended ==> app_text::id_text(id, false).len() >= 3 && text::unsigned_value(
            app_text::id_text(id, false),
            16,
            u32::MAX as nat,
        ) == Some(id as nat),
        extended ==> app_text::id_text(id, true).len() >= 9 && app_text::id_text(id, true).last()
            == 'x',
{
    reveal_strlit("x");
    crate::text_laws::law_padding_keeps_the_number(id as nat, 3, u32::MAX as nat);
    crate::text_laws::law_padding_keeps_the_number(id as nat, 8, u32::MAX as nat);
}

/// A snapshot shows the bus as it is: its counters, clock, switches, entries, rules and
/// tallies.
pub proof fn law_a_snapshot_is_the_bus(
    core: BusCore,
    s: Snapshot,
    p: Published,
    replay: Option<(u64, u64)>,
    status: Option<String>,
    k: int,
)
    requires
        core.is_shown(s, p, replay, status),
    ensures
        s.frame_counter == core.frame_counter,
        s.sim_t_us == core.sim_t_us,
        s.measuring == core.measuring,
        s.trace_paused == core.trace_paused,
        s.recording == core.recorder.recording,
        s.mode == core.mode,
        s.run_mode == core.run_mode,
        s.trace == core.published_trace,
        s.trace_len == core.trace@.len(),
        s.triggers@ == core.triggers@,
        s.markers@ == core.markers@,
        s.status == status,
        s.replay == replay,
        s.real_bus == core.hw.live,
        s.tx@.len() == core.tx_list@.len(),
        0 <= k < core.tx_list@.len() ==> {
            let v = s.tx@[k];
            let t = core.tx_list@[k];
            &&& v.id == t.id
            &&& v.channel == t.channel
            &&& v.active == t.active
            &&& v.cycle_us == t.cycle_us
            &&& v.name == t.name
            &&& v.fd == (t.flags.0 & 1 == 1)
            &&& v.data_text == t.data_text
        },
        s.aggs@.len() == core.aggs.items@.len(),
        0 <= k < core.aggs.items@.len() ==> s.aggs@[k] == core.aggs.items@[k].1,
        s.channels@.len() == core.channels@.len(),
        0 <= k < core.channels@.len() ==> s.channels@[k].name == core.channels@[k].name
            && s.channels@[k].bitrate_kbps == core.channels@[k].bitrate_kbps && s.channels@[k].dbc
            == core.channels@[k].dbc,
        s.sysvars@.len() == core.sysvars@.len(),
        0 <= k < core.sysvars@.len() ==> s.sysvars@[k].def == core.sysvars@[k].def
            && s.sysvars@[k].value == core.sysvars@[k].value,
        s.subs@.len() == core.obs.subs@.len(),
        0 <= k < core.obs.subs@.len() ==> s.subs@[k].key == core.obs.subs@[k].key
            && s.subs@[k].latest == core.obs.subs@[k].latest && s.subs@[k].history@
            == core.obs.subs@[k].history@,
{
    if 0 <= k < core.tx_list@.len() {
        assert(bus_view::shows_entry(s.tx@[k], core.tx_list@[k], core));
        let f = core.tx_list@[k].flags.0;
        assert(f & 1 == 1 || f & 1 == 0) by (bit_vector);
    }
    if 0 <= k < core.channels@.len() {
        assert(bus_view::shows_channel(s.channels@[k], core.channels@[k]));
    }
    if 0 <= k < core.obs.subs@.len() {
        assert(bus_view::shows_sub(s.subs@[k], core.obs.subs@[k]));
    }
}

/// A bus's database is loaded anew just where a file that could be read is not the one that
/// was loaded.
pub proof fn law_only_changed_files_reload(
    c: Channel,
    files: Seq<Result<crate::dbc_merge::FileText, String>>,
    k: int,
)
    requires
        c.dbc_paths@.len() == c.dbc_sums@.len(),
        files.len() == c.dbc_paths@.len(),
    ensures
        0 <= k < files.len() && text::trimmed(c.dbc_paths@[k]@).len() > 0 && files[k] is Ok
            && files[k]->Ok_0.sum != c.dbc_sums@[k] ==> bus_view::is_changed(c, files),
        (forall|i: int|
            0 <= i < files.len() ==> files[i] is Err || (#[trigger] files[i])->Ok_0.sum
                == c.dbc_sums@[i]) ==> !bus_view::is_changed(c, files),
{
    if 0 <= k < files.len() && text::trimmed(c.dbc_paths@[k]@).len() > 0 && files[k] is Ok
        && files[k]->Ok_0.sum != c.dbc_sums@[k] {
        assert(bus_view::is_file_changed(c, files, k));
    }
}

/// What scripts may read of a bus: every signal of the last frame of every message there,
/// and nothing of another bus.
pub proof fn law_scripts_read_their_own_bus(
    channels: Seq<Channel>,
    items: Seq<(u64, MessageAgg)>,
    ch: u8,
    n: int,
    k: int,
    j: int,
)
    requires
        0 <= k < n <= items.len(),
        items[k].1.channel == ch,
        0 <= j < bus_ingest::decoded_on(channels, items[k].1.frame_spec()).len(),
    ensures
        bus_view::script_signals(channels, items, ch, n).contains(
            (
                items[k].1.id,
                bus_ingest::decoded_on(channels, items[k].1.frame_spec())[j],
            ),
        ),
    decreases n,
{
    let d = bus_ingest::decoded_on(channels, items[k].1.frame_spec());
    let p: (u32, DecodedSignal) = (items[k].1.id, d[j]);
    let now = bus_view::script_signals(channels, items, ch, n);
    let before = bus_view::script_signals(channels, items, ch, n - 1);
    if k < n - 1 {
        law_scripts_read_their_own_bus(channels, items, ch, n - 1, k, j);
        let a = choose|a: int| 0 <= a < before.len() && before[a] == p;
        assert(now[a] == p);
    } else {
        assert(bus_view::labelled(items[k].1.id, d)[j] == p);
        assert(now[before.len() + j] == p);
    }
}

/// A bus without tallies of its own gives scripts nothing to read.
pub proof fn law_scripts_read_nothing_else(
    channels: Seq<Channel>,
    items: Seq<(u64, MessageAgg)>,
    ch: u8,
    n: int,
)
    requires
        0 <= n <= items.len(),
        forall|i: int| 0 <= i < n ==> (#[trigger] items[i]).1.channel != ch,
    ensures
        bus_view::script_signals(channels, items, ch, n).len() == 0,
    decreases n,
{
    if n > 0 {
        law_scripts_read_nothing_else(channels, items, ch, n - 1);
        assert(items[n - 1].1.channel != ch);
    }
}

/// Every frame that an unbound script asks for goes out on the script's bus, with its id,
/// kind of id and bytes.
pub proof fn law_asked_frames_go_out(
    channels: Seq<Channel>,
    nodes: Seq<ScriptNode>,
    turns: Seq<NodeTurn>,
    n: int,
    k: int,
    j: int,
) -> (at: int)
    requires
        0 <= k < n <= nodes.len(),
        nodes.len() == turns.len(),
        nodes[k].attached is None,
        0 <= j < turns[k].frames@.len(),
    ensures
        ({
            let r = bus_scripts::asked_frames(channels, nodes, turns, n);
            &&& 0 <= at < r.len()
            &&& r[at].channel == nodes[k].channel
            &&& r[at].id == turns[k].frames@[j].id
            &&& r[at].extended == turns[k].frames@[j].extended
            &&& r[at].data == turns[k].frames@[j].data@
        }),
    decreases n,
{
    let before = bus_scripts::asked_frames(channels, nodes, turns, n - 1);
    if k < n - 1 {
        law_asked_frames_go_out(channels, nodes, turns, n - 1, k, j)
    } else {
        before.len() as int + j
    }
}

/// A window of one bus follows it when another bus is removed, and one of the removed bus
/// shows everything.
pub proof fn law_window_scopes_follow(b: u8, gone: usize)
    ensures
        b < gone ==> workspace::fixed_scope(SigScope::Bus(b), gone) == SigScope::Bus(b),
        b > gone ==> workspace::fixed_scope(SigScope::Bus(b), gone) == SigScope::Bus((b - 1) as u8),
        b == gone ==> workspace::fixed_scope(SigScope::Bus(b), gone) == SigScope::All,
        workspace::fixed_scope(SigScope::All, gone) == SigScope::All,
        workspace::fixed_scope(SigScope::Manual, gone) == SigScope::Manual,
{
}

/// Play resumes a replay that is parked in its log. Else it starts what is selected: the
/// simulation, or the log that is selected or was recorded last; without any it asks for
/// one.
pub proof fn law_play_starts_what_is_selected(a: App, has_position: bool, p: Play)
    requires
        a.plays_as(has_position, p),
    ensures
        a.core.mode == Mode::Replay && !a.replay_reset_pending && has_position ==> p is Resume,
        p is Resume ==> a.core.mode == Mode::Replay && has_position && !a.replay_reset_pending,
        !(p is Resume) && a.core.run_mode == Mode::Virtual ==> p == Play::Start(Start::Virtual),
        !(p is Resume) && a.core.run_mode == Mode::Replay && text::trimmed(a.log_path@).len() > 0
            ==> (p matches Play::Start(s) && (s matches Start::Replay(path) && path@
            == text::trimmed(a.log_path@))),
        !(p is Resume) && a.core.run_mode == Mode::Replay && text::trimmed(a.log_path@).len() == 0
            && text::trimmed(a.core.recorder.last_record@).len() > 0 ==> (p matches Play::Start(s)
            && (s matches Start::Replay(path) && path@ == a.core.recorder.last_record@)),
        !(p is Resume) && a.core.run_mode == Mode::Replay && text::trimmed(a.log_path@).len() == 0
            && text::trimmed(a.core.recorder.last_record@).len() == 0 ==> p == Play::Start(
            Start::PickLog,
        ),
        !(p is SetPaused),
{
}

/// The speed ladder goes up by factors of two from a half to four.
pub proof fn law_speeds_double(i: int)
    requires
        0 <= i <= 3,
    ensures
        app::rung_of(app::speed_at(i)) == i,
        i < 3 ==> app::speed_at(i) < app::speed_at(i + 1),
        i < 3 ==> app::stepped_speed(app::speed_at(i), 1) == app::speed_at(i + 1),
        i > 0 ==> app::stepped_speed(app::speed_at(i), -1) == app::speed_at(i - 1),
        app::speed_at(1) == 0x3FF0_0000_0000_0000,
{
}

/// A recent file stands first in its list, the others behind it in their order, each once.
pub proof fn law_recent_files_come_first(list: Seq<Seq<char>>, path: Seq<char>)
    ensures
        app::with_recent(list, path).len() > 0,
        app::with_recent(list, path)[0] == path,
        app::with_recent(list, path).len() <= 8,
        list.len() < 8 && !list.contains(path) ==> app::with_recent(list, path) == seq![path]
            + list,
{
    if list.len() < 8 && !list.contains(path) {
        lemma_without_path(list, path, list.len() as int);
        assert(list.subrange(0, list.len() as int) =~= list);
    }
}

proof fn lemma_without_path(list: Seq<Seq<char>>, path: Seq<char>, n: int)
    requires
        0 <= n <= list.len(),
        !list.contains(path),
    ensures
        app::without_path(list, path, n) == list.subrange(0, n),
    decreases n,
{
    if n > 0 {
        lemma_without_path(list, path, n - 1);
        assert(list[n - 1] != path);
        assert(list.subrange(0, n) =~= list.subrange(0, n - 1).push(list[n - 1]));
    } else {
        assert(list.subrange(0, 0) =~= app::without_path(list, path, 0));
    }
}

/// Switching a bus switches its entries and no others; an entry that was off and goes on
/// sends from the clock on, one that was on keeps its schedule.
pub proof fn law_a_bus_is_switched(t: TxMsg, ch: u8, on: bool, now: u64)
    ensures
        ({
            let r = app_entries::switched(t, ch, on, now);
            &&& t.channel != ch ==> r == t
            &&& t.channel == ch ==> r.active == on
            &&& t.channel == ch && on && !t.active ==> r.next_t_us == now
            &&& !on || t.active ==> r.next_t_us == t.next_t_us
            &&& r.data == t.data
            &&& r.cycle_us == t.cycle_us
            &&& r.srcs == t.srcs
        }),
{
}

/// A lap steps just where the bus measures and is not frozen. Else it publishes what came
/// in, or idles.
pub proof fn law_laps_step_a_running_bus(measuring: bool, paused: bool, any: bool, at: Option<u64>)
    ensures
        measuring && !paused ==> core_loop::lap_of(measuring, paused, any, at) == (Lap::Step {
            resumed_from: at,
        }),
        !measuring || paused ==> core_loop::lap_of(measuring, paused, any, at) == (if any {
            Lap::Publish
        } else {
            Lap::Idle
        }),
{
}

/// The loop waits just until the deadline where it is near, not at all where it has passed,
/// and never longer than when it idles.
pub proof fn law_waits_end_at_the_deadline(d: u64, now: u64)
    ensures
        d <= now ==> core_loop::wait_time(Some(d), now) == 0,
        now < d && d - now <= core_loop::IDLE_SLEEP_US ==> core_loop::wait_time(Some(d), now) == d
            - now,
        now < d && d - now > core_loop::IDLE_SLEEP_US ==> core_loop::wait_time(Some(d), now)
            == core_loop::IDLE_SLEEP_US,
        core_loop::wait_time(None, now) == core_loop::IDLE_SLEEP_US,
{
}

/// A headless run ends at the end of its log, when its source is gone, or when its time is
/// up, and for no other reason.
pub proof fn law_headless_runs_end(
    saw: bool,
    replaying: bool,
    position: Option<(u64, u64)>,
    over: bool,
)
    ensures
        ({
            let r = cli_report::lap_outcome(saw, replaying, position, over);
            &&& !over && !replaying ==> r.1 is None
            &&& over ==> r.1 is Some
            &&& replaying && (position matches Some(p) && p.0 >= p.1) ==> r.1 == Some(
                StopReason::EndOfLog,
            )
            &&& replaying && (position matches Some(p) && p.0 < p.1) && !over ==> r.1 is None
            &&& replaying && position is None && saw ==> r.1 == Some(StopReason::SourceStopped)
            &&& replaying && position is None && !saw && !over ==> r.1 is None
            &&& replaying && position is Some ==> r.0
            &&& saw ==> r.0
        }),
{
}

/// A report is its heading line with one line behind it for each row, in the order of the
/// rows: a longer list only adds to it.
pub proof fn law_reports_add_a_line_for_each_row(
    channels: Seq<Channel>,
    rows: Seq<MessageAgg>,
    cycles: Seq<String>,
    n: int,
)
    requires
        0 < n <= rows.len(),
        n <= cycles.len(),
    ensures
        ({
            let now = export::message_report(channels, rows, cycles, n);
            let before = export::message_report(channels, rows, cycles, n - 1);
            &&& before.len() < now.len()
            &&& now.subrange(0, before.len() as int) == before
            &&& now.last() == '\n'
            &&& export::message_report(channels, rows, cycles, 0)
                == "bus,id,name,dir,count,cycle_ms,len,flags,data\n"@
        }),
{
    reveal_strlit("\n");
    let now = export::message_report(channels, rows, cycles, n);
    let before = export::message_report(channels, rows, cycles, n - 1);
    assert(now.subrange(0, before.len() as int) =~= before);
}

/// A message that came only once has no interval to report.
pub proof fn law_one_frame_has_no_interval(a: MessageAgg, t: Seq<char>)
    ensures
        a.count <= 1 ==> export::interval_text(a, t) == "0.000"@,
        a.count > 1 ==> export::interval_text(a, t) == t,
{
}

} // verus!
