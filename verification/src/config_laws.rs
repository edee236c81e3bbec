//! What a saved workspace gives back.

use vstd::prelude::*;
use vstd::string::*;
use crate::app;
use crate::app::App;
use crate::bus;
use crate::bus::BusCore;
use crate::bus_reload;
use crate::channel;
use crate::channel::{Channel, NodeRole, RoleEntry};
use crate::config;
use crate::config::{ChannelCfg, Config, SignalCfg, SrcCfg, TriggerCfg, TxCfg};
use crate::config_apply;
use crate::dbc_merge::FileText;
use crate::doubles;
use crate::generator::TxMsg;
use crate::paths::PathStyle;
use crate::sim::{SrcKind, ValueSrc};
use crate::text;
use crate::triggers::{Trigger, TriggerCond};
use crate::workspace;
use crate::workspace::{
    DataWindow, GfxSignal, GraphicsWindow, MsgWin, StatsWin, TraceWin, WindowKind,
};

verus! {

/// Two trace windows agree in all that is saved of them but whether they are open.
pub open spec fn same_trace(a: TraceWin, b: TraceWin) -> bool {
    &&& a.name == b.name
    &&& a.scope == b.scope
    &&& a.manual@ == b.manual@
    &&& a.filter == b.filter
    &&& a.dir == b.dir
    &&& a.dbc_only == b.dbc_only
}

pub open spec fn same_messages(a: MsgWin, b: MsgWin) -> bool {
    &&& a.name == b.name
    &&& a.scope == b.scope
    &&& a.manual@ == b.manual@
    &&& a.filter == b.filter
    &&& a.dbc_only == b.dbc_only
}

pub open spec fn same_stats(a: StatsWin, b: StatsWin) -> bool {
    &&& a.name == b.name
    &&& a.scope == b.scope
    &&& a.manual@ == b.manual@
}

pub open spec fn same_plot(a: GraphicsWindow, b: GraphicsWindow) -> bool {
    &&& a.name == b.name
    &&& a.signals@ == b.signals@
    &&& a.time_window_s == b.time_window_s
    &&& a.stacked == b.stacked
    &&& a.show_cursor == b.show_cursor
    &&& a.zoom_enabled == b.zoom_enabled
    &&& a.show_markers == b.show_markers
}

pub open spec fn same_table(a: DataWindow, b: DataWindow) -> bool {
    &&& a.name == b.name
    &&& a.signals@ == b.signals@
}

proof fn lemma_signals_survive(signals: Seq<GfxSignal>, cfgs: Seq<SignalCfg>)
    requires
        config::are_signal_cfgs(signals, cfgs),
    ensures
        config::signals_of(cfgs) == signals,
{
    let back = config::signals_of(cfgs);
    assert forall|i: int| 0 <= i < signals.len() implies back[i] == signals[i] by {
        assert(config::is_signal_cfg(signals[i], cfgs[i]));
        workspace::law_window_codes_round_trip(signals[i].y_mode, WindowKind::Trace);
    }
    assert(back =~= signals);
}

/// Every trace, message and statistics window comes back as it was saved: names, scopes,
/// hand-picked messages and filters.
pub proof fn law_list_windows_survive(
    cfg: Config,
    app: App,
    base: Option<Seq<char>>,
    absolutes: Seq<String>,
    style: PathStyle,
    before: App,
    after: App,
    files: Seq<Vec<Result<FileText, String>>>,
)
    requires
        app.wf(),
        cfg.is_of(app, base, absolutes, style),
        cfg.is_applied(before, after, files),
        forall|i: int| 0 <= i < app.trace_windows@.len() ==> (#[trigger] app.trace_windows@[i]).dir <= 2,
    ensures
        app.trace_windows@.len() > 0 ==> after.trace_windows@.len() == app.trace_windows@.len()
            && forall|i: int|
            0 <= i < app.trace_windows@.len() ==> same_trace(
                #[trigger] after.trace_windows@[i],
                app.trace_windows@[i],
            ),
        app.msg_windows@.len() > 0 ==> after.msg_windows@.len() == app.msg_windows@.len()
            && forall|i: int|
            0 <= i < app.msg_windows@.len() ==> same_messages(
                #[trigger] after.msg_windows@[i],
                app.msg_windows@[i],
            ),
        app.stats_windows@.len() > 0 ==> after.stats_windows@.len() == app.stats_windows@.len()
            && forall|i: int|
            0 <= i < app.stats_windows@.len() ==> same_stats(
                #[trigger] after.stats_windows@[i],
                app.stats_windows@[i],
            ),
{
    let (a1, a2, a3, a4, a5) = choose|a1: App, a2: App, a3: App, a4: App, a5: App|
        #[trigger] cfg.is_chain(before, a1, a2, a3, a4, a5, after, files);
    assert(a5.trace_windows == a2.trace_windows);
    assert(a5.msg_windows == a2.msg_windows);
    assert(a5.stats_windows == a2.stats_windows);
    if app.trace_windows@.len() > 0 {
        assert forall|i: int| 0 <= i < app.trace_windows@.len() implies same_trace(
            #[trigger] after.trace_windows@[i],
            app.trace_windows@[i],
        ) by {
            assert(config::is_trace_cfg(app.trace_windows@[i], cfg.trace_windows@[i]));
            assert(config_apply::is_trace_of(a2.trace_windows@[i], cfg.trace_windows@[i]));
            let m = app.trace_windows@[i].manual@;
            workspace::lemma_set_is_distinct(m, m.len() as int);
            assert(m.subrange(0, m.len() as int) =~= m);
            assert(app.trace_windows@[i].dir <= 2);
        }
    }
    if app.msg_windows@.len() > 0 {
        assert forall|i: int| 0 <= i < app.msg_windows@.len() implies same_messages(
            #[trigger] after.msg_windows@[i],
            app.msg_windows@[i],
        ) by {
            assert(config::is_msg_cfg(app.msg_windows@[i], cfg.msg_windows@[i]));
            assert(config_apply::is_msg_of(a2.msg_windows@[i], cfg.msg_windows@[i]));
            let m = app.msg_windows@[i].manual@;
            workspace::lemma_set_is_distinct(m, m.len() as int);
            assert(m.subrange(0, m.len() as int) =~= m);
        }
    }
    if app.stats_windows@.len() > 0 {
        assert forall|i: int| 0 <= i < app.stats_windows@.len() implies same_stats(
            #[trigger] after.stats_windows@[i],
            app.stats_windows@[i],
        ) by {
            assert(config::is_stats_cfg(app.stats_windows@[i], cfg.stats_windows@[i]));
            assert(config_apply::is_stats_of(a2.stats_windows@[i], cfg.stats_windows@[i]));
            let m = app.stats_windows@[i].manual@;
            workspace::lemma_set_is_distinct(m, m.len() as int);
            assert(m.subrange(0, m.len() as int) =~= m);
        }
    }
}

/// Every plot and data window comes back as it was saved, with its signals in their
/// order and their scaling. A plot's span survives where it lies in its bounds.
pub proof fn law_signal_windows_survive(
    cfg: Config,
    app: App,
    base: Option<Seq<char>>,
    absolutes: Seq<String>,
    style: PathStyle,
    before: App,
    after: App,
    files: Seq<Vec<Result<FileText, String>>>,
)
    requires
        app.wf(),
        cfg.is_of(app, base, absolutes, style),
        cfg.is_applied(before, after, files),
        forall|i: int|
            0 <= i < app.graphics@.len() ==> config_apply::TENTH <= (
            #[trigger] app.graphics@[i]).time_window_s <= config_apply::HOUR,
    ensures
        app.graphics@.len() > 0 ==> after.graphics@.len() == app.graphics@.len() && forall|i: int|
            0 <= i < app.graphics@.len() ==> same_plot(
                #[trigger] after.graphics@[i],
                app.graphics@[i],
            ),
        app.data_windows@.len() > 0 ==> after.data_windows@.len() == app.data_windows@.len()
            && forall|i: int|
            0 <= i < app.data_windows@.len() ==> same_table(
                #[trigger] after.data_windows@[i],
                app.data_windows@[i],
            ),
{
    let (a1, a2, a3, a4, a5) = choose|a1: App, a2: App, a3: App, a4: App, a5: App|
        #[trigger] cfg.is_chain(before, a1, a2, a3, a4, a5, after, files);
    assert(a5.graphics == a2.graphics);
    assert(a5.data_windows == a2.data_windows);
    if app.graphics@.len() > 0 {
        assert forall|i: int| 0 <= i < app.graphics@.len() implies same_plot(
            #[trigger] after.graphics@[i],
            app.graphics@[i],
        ) by {
            assert(config::is_gfx_cfg(app.graphics@[i], cfg.graphics@[i]));
            assert(config_apply::is_gfx_of(a2.graphics@[i], cfg.graphics@[i]));
            lemma_signals_survive(app.graphics@[i].signals@, cfg.graphics@[i].signals@);
            assert(config_apply::TENTH <= app.graphics@[i].time_window_s <= config_apply::HOUR);
        }
    }
    if app.data_windows@.len() > 0 {
        assert forall|i: int| 0 <= i < app.data_windows@.len() implies same_table(
            #[trigger] after.data_windows@[i],
            app.data_windows@[i],
        ) by {
            assert(config::is_data_cfg(app.data_windows@[i], cfg.data_windows@[i]));
            assert(config_apply::is_data_of(a2.data_windows@[i], cfg.data_windows@[i]));
            lemma_signals_survive(app.data_windows@[i].signals@, cfg.data_windows@[i].signals@);
        }
    }
}

/// The settings come back: panels, counters, recent files, text rate, the limits of the
/// cycle check and, where it lies in its bounds, the replay speed.
pub proof fn law_settings_survive(
    cfg: Config,
    app: App,
    base: Option<Seq<char>>,
    absolutes: Seq<String>,
    style: PathStyle,
    before: App,
    after: App,
    files: Seq<Vec<Result<FileText, String>>>,
)
    requires
        app.wf(),
        cfg.is_of(app, base, absolutes, style),
        cfg.is_applied(before, after, files),
        app.spec_grace >= 1,
        config_apply::HUNDREDTH <= app.replay_speed <= config_apply::HUNDRED,
    ensures
        after.panels == app.panels,
        after.counters == app.counters,
        after.recent_dbc@ == app.recent_dbc@,
        after.recent_log@ == app.recent_log@,
        after.text_rate_hz == app.text_rate_hz,
        after.spec_tol_pct == app.spec_tol_pct,
        after.spec_grace == app.spec_grace,
        after.replay_speed == app.replay_speed,
        after.active_desktop == app.active_desktop,
{
    let (a1, a2, a3, a4, a5) = choose|a1: App, a2: App, a3: App, a4: App, a5: App|
        #[trigger] cfg.is_chain(before, a1, a2, a3, a4, a5, after, files);
    let k = app.active_desktop as int;
    assert(config::is_live_desktop(app, cfg.desktops@[k]));
    assert(config_apply::is_desktop_of(a5.desktops@[k], cfg.desktops@[k], k));
}

proof fn lemma_windows_survive(open: Seq<(WindowKind, String)>, n: int)
    requires
        0 <= n <= open.len(),
    ensures
        config_apply::known_windows(config::coded_windows(open), n) == open.subrange(0, n),
    decreases n,
{
    let coded = config::coded_windows(open);
    if n > 0 {
        lemma_windows_survive(open, n - 1);
        workspace::law_window_codes_round_trip(workspace::YMode::Auto, open[n - 1].0);
        assert(coded[n - 1] == (open[n - 1].0.code(), open[n - 1].1));
        assert(open.subrange(0, n) =~= open.subrange(0, n - 1).push(open[n - 1]));
    } else {
        assert(open.subrange(0, n) =~= Seq::<(WindowKind, String)>::empty());
    }
}

/// Every desktop comes back under its name with its layout, its open windows and its
/// panels; the active one as the workspace stood when it was saved.
pub proof fn law_desktops_survive(
    cfg: Config,
    app: App,
    base: Option<Seq<char>>,
    absolutes: Seq<String>,
    style: PathStyle,
    before: App,
    after: App,
    files: Seq<Vec<Result<FileText, String>>>,
    i: int,
)
    requires
        app.wf(),
        cfg.is_of(app, base, absolutes, style),
        cfg.is_applied(before, after, files),
        0 <= i < app.desktops@.len(),
        text::trimmed(app.desktops@[i].name@).len() > 0,
    ensures
        after.desktops@.len() == app.desktops@.len(),
        after.desktops@[i].name@ == app.desktops@[i].name@,
        i == app.active_desktop ==> {
            &&& after.desktops@[i].layout == app.layout_cache
            &&& after.desktops@[i].open_windows@ == app.open_windows_spec()
            &&& after.desktops@[i].panels == app.panels
        },
        i != app.active_desktop ==> {
            &&& after.desktops@[i].layout == app.desktops@[i].layout
            &&& after.desktops@[i].open_windows@ == app.desktops@[i].open_windows@
            &&& after.desktops@[i].panels == app.desktops@[i].panels
        },
{
    let (a1, a2, a3, a4, a5) = choose|a1: App, a2: App, a3: App, a4: App, a5: App|
        #[trigger] cfg.is_chain(before, a1, a2, a3, a4, a5, after, files);
    let c = cfg.desktops@[i];
    assert(config_apply::is_desktop_of(a5.desktops@[i], c, i));
    let open = if i == app.active_desktop {
        app.open_windows_spec()
    } else {
        app.desktops@[i].open_windows@
    };
    assert(c.open@ == config::coded_windows(open));
    lemma_windows_survive(open, open.len() as int);
    assert(open.subrange(0, open.len() as int) =~= open);
}

/// A saved rule gives the rule back, with nothing counted and its level unknown.
pub open spec fn same_rule(a: Trigger, b: Trigger) -> bool {
    &&& a.cond == b.cond
    &&& a.action == b.action
    &&& a.enabled == b.enabled
}

/// A signal rule's message is extended by its identifier.
pub open spec fn ids_tell_extended(t: Trigger) -> bool {
    t.cond matches TriggerCond::SignalCross { id, ext, .. } ==> ext == (id > 0x7FF)
}

proof fn lemma_rules_survive(rules: Seq<Trigger>, cfgs: Seq<TriggerCfg>, n: int)
    requires
        0 <= n <= rules.len(),
        cfgs.len() == rules.len(),
        forall|i: int|
            0 <= i < cfgs.len() ==> config::is_trigger_cfg(rules[i], #[trigger] cfgs[i]),
        forall|i: int| 0 <= i < rules.len() ==> ids_tell_extended(#[trigger] rules[i]),
    ensures
        config_apply::known_rules(cfgs, n).len() == n,
        forall|i: int|
            0 <= i < n ==> same_rule(
                #[trigger] config_apply::known_rules(cfgs, n)[i],
                rules[i],
            ),
    decreases n,
{
    if n > 0 {
        lemma_rules_survive(rules, cfgs, n - 1);
        assert(config::is_trigger_cfg(rules[n - 1], cfgs[n - 1]));
        assert(ids_tell_extended(rules[n - 1]));
        let r = config_apply::rule_of(cfgs[n - 1]);
        assert(r is Some && same_rule(r->0, rules[n - 1]));
    }
}

/// Every rule comes back with its condition, its action and whether it is enabled.
pub proof fn law_rules_survive(
    cfg: Config,
    app: App,
    base: Option<Seq<char>>,
    absolutes: Seq<String>,
    style: PathStyle,
    before: App,
    after: App,
    files: Seq<Vec<Result<FileText, String>>>,
)
    requires
        app.wf(),
        cfg.is_of(app, base, absolutes, style),
        cfg.is_applied(before, after, files),
        forall|i: int|
            0 <= i < app.core.triggers@.len() ==> ids_tell_extended(
                #[trigger] app.core.triggers@[i],
            ),
    ensures
        after.core.triggers@.len() == app.core.triggers@.len(),
        forall|i: int|
            0 <= i < app.core.triggers@.len() ==> same_rule(
                #[trigger] after.core.triggers@[i],
                app.core.triggers@[i],
            ),
{
    let (a1, a2, a3, a4, a5) = choose|a1: App, a2: App, a3: App, a4: App, a5: App|
        #[trigger] cfg.is_chain(before, a1, a2, a3, a4, a5, after, files);
    lemma_rules_survive(app.core.triggers@, cfg.triggers@, cfg.triggers@.len() as int);
    assert(after.core.triggers == a3.core.triggers);
}

/// A saved rule of an unknown kind is dropped alone: the others are read as if it were
/// not there.
pub proof fn law_unknown_rules_drop_alone(a: Seq<TriggerCfg>, bad: TriggerCfg, b: Seq<TriggerCfg>)
    requires
        config_apply::rule_of(bad) is None,
    ensures
        config_apply::known_rules(a.push(bad) + b, (a.len() + 1 + b.len()) as int)
            == config_apply::known_rules(a + b, (a.len() + b.len()) as int),
    decreases b.len(),
{
    if b.len() == 0 {
        assert(a.push(bad) + b =~= a.push(bad));
        assert(a + b =~= a);
        lemma_rules_prefix(a.push(bad), a, a.len() as int);
    } else {
        let short = b.drop_last();
        law_unknown_rules_drop_alone(a, bad, short);
        let m = (a.len() + 1 + b.len()) as int;
        let all = a.push(bad) + b;
        let rest = a + b;
        assert(all[m - 1] == b.last());
        assert(rest[m - 2] == b.last());
        lemma_rules_prefix(all, a.push(bad) + short, m - 1);
        lemma_rules_prefix(rest, a + short, m - 2);
    }
}

proof fn lemma_rules_prefix(x: Seq<TriggerCfg>, y: Seq<TriggerCfg>, n: int)
    requires
        0 <= n <= x.len(),
        n <= y.len(),
        forall|i: int| 0 <= i < n ==> x[i] == y[i],
    ensures
        config_apply::known_rules(x, n) == config_apply::known_rules(y, n),
    decreases n,
{
    if n > 0 {
        lemma_rules_prefix(x, y, n - 1);
    }
}

/// Two value sources agree.
pub open spec fn same_source(a: ValueSrc, b: ValueSrc) -> bool {
    &&& a.name == b.name
    &&& a.kind == b.kind
    &&& a.lo == b.lo
    &&& a.hi == b.hi
    &&& a.period_us == b.period_us
    &&& a.phase_us == b.phase_us
    &&& a.seq@ == b.seq@
    &&& a.seed == b.seed
    &&& a.redraw_us == b.redraw_us
}

proof fn lemma_sources_survive(srcs: Seq<ValueSrc>, cfgs: Seq<SrcCfg>, n: int)
    requires
        0 <= n <= srcs.len(),
        cfgs.len() == srcs.len(),
        forall|i: int| 0 <= i < srcs.len() ==> config::is_src_cfg(srcs[i], #[trigger] cfgs[i]),
    ensures
        config_apply::known_sources(cfgs, n).len() == n,
        forall|i: int|
            0 <= i < n ==> same_source(
                #[trigger] config_apply::known_sources(cfgs, n)[i],
                srcs[i],
            ),
    decreases n,
{
    if n > 0 {
        lemma_sources_survive(srcs, cfgs, n - 1);
        assert(config::is_src_cfg(srcs[n - 1], cfgs[n - 1]));
        assert(SrcKind::of_code(srcs[n - 1].kind.code()) == Some(srcs[n - 1].kind));
    }
}

/// Two entries agree in whether they are active, in their period and in their value
/// sources.
pub open spec fn same_entry(a: TxMsg, b: TxMsg) -> bool {
    &&& a.active == b.active
    &&& a.cycle_us == b.cycle_us
    &&& a.srcs@.len() == b.srcs@.len()
    &&& forall|i: int| 0 <= i < b.srcs@.len() ==> same_source(#[trigger] a.srcs@[i], b.srcs@[i])
}

/// Two entries send the same payload, and show it by the same text.
pub open spec fn same_payload(a: TxMsg, b: TxMsg) -> bool {
    &&& a.data_text == b.data_text
    &&& a.len == b.len
    &&& forall|i: int| 0 <= i < b.len ==> #[trigger] a.data@[i] == b.data@[i]
}

/// A saved entry gives the entry back: whether it is active, its period (event-triggered
/// ones stay so), every value source and, where its text is not empty, its edited
/// payload.
pub proof fn law_an_entry_survives(t: TxMsg, c: TxCfg, was: TxMsg, now: TxMsg)
    requires
        t.len <= 64,
        config::is_tx_cfg(t, c),
        config_apply::is_overlaid(was, now, c),
        t.cycle_us == 0 || t.cycle_us >= 1_000,
    ensures
        same_entry(now, t),
        t.data_text@.len() > 0 ==> same_payload(now, t),
{
    lemma_sources_survive(t.srcs@, c.srcs@, t.srcs@.len() as int);
    assert(config_apply::fitting(c.data@) == c.data@);
    if t.data_text@.len() > 0 {
        assert forall|i: int| 0 <= i < t.len implies #[trigger] now.data@[i] == t.data@[i] by {
            assert(c.data@[i] == t.data@[i]);
        }
    }
}

proof fn lemma_same_keys(a: Seq<TxMsg>, b: Seq<TxMsg>, ch: u8, id: u32, from: int)
    requires
        a.len() == b.len(),
        0 <= from <= a.len(),
        forall|i: int|
            0 <= i < a.len() ==> (#[trigger] a[i]).channel == b[i].channel && a[i].id == b[i].id,
    ensures
        bus::entry_index(a, ch, id, from) == bus::entry_index(b, ch, id, from),
    decreases a.len() - from,
{
    if from < a.len() {
        assert(a[from].channel == b[from].channel && a[from].id == b[from].id);
        lemma_same_keys(a, b, ch, id, from + 1);
    }
}

proof fn lemma_found_key(list: Seq<TxMsg>, ch: u8, id: u32, from: int)
    requires
        0 <= from <= list.len(),
    ensures
        bus::entry_index(list, ch, id, from) >= 0 ==> {
            let k = bus::entry_index(list, ch, id, from);
            k < list.len() && list[k].channel == ch && list[k].id == id
        },
    decreases list.len() - from,
{
    if from < list.len() {
        lemma_found_key(list, ch, id, from + 1);
    }
}

proof fn lemma_keys_kept(cfgs: Seq<TxCfg>, steps: Seq<Seq<TxMsg>>, n: int)
    requires
        config_apply::are_restores(cfgs, steps),
        0 <= n <= cfgs.len(),
    ensures
        steps[n].len() == steps[0].len(),
        forall|i: int|
            0 <= i < steps[0].len() ==> (#[trigger] steps[n][i]).channel == steps[0][i].channel
                && steps[n][i].id == steps[0][i].id,
    decreases n,
{
    if n > 0 {
        lemma_keys_kept(cfgs, steps, n - 1);
        let c = cfgs[n - 1];
        assert(config_apply::is_entry_restored(steps[n - 1], steps[n - 1 + 1], c));
        lemma_found_key(steps[n - 1], c.channel, c.id, 0);
    }
}

proof fn lemma_entry_kept(cfgs: Seq<TxCfg>, steps: Seq<Seq<TxMsg>>, k: int, from: int, to: int)
    requires
        config_apply::are_restores(cfgs, steps),
        0 <= from <= to <= cfgs.len(),
        0 <= k < steps[0].len(),
        forall|j: int|
            from <= j < to ==> (#[trigger] cfgs[j]).channel != steps[0][k].channel || cfgs[j].id
                != steps[0][k].id,
    ensures
        steps[to][k] == steps[from][k],
    decreases to - from,
{
    if from < to {
        lemma_entry_kept(cfgs, steps, k, from, to - 1);
        let c = cfgs[to - 1];
        lemma_keys_kept(cfgs, steps, to - 1);
        assert(config_apply::is_entry_restored(steps[to - 1], steps[to - 1 + 1], c));
        lemma_found_key(steps[to - 1], c.channel, c.id, 0);
        assert(steps[to - 1][k].channel == steps[0][k].channel);
    }
}

/// Where one saved entry addresses a message, the message's entry ends as that saved
/// entry says, whatever else was saved; and no entry is added or lost.
pub proof fn law_saved_entries_reach_their_message(
    before: Seq<TxMsg>,
    after: Seq<TxMsg>,
    cfgs: Seq<TxCfg>,
    i: int,
)
    requires
        config_apply::are_entries_restored(before, after, cfgs),
        0 <= i < cfgs.len(),
        bus::entry_index(before, cfgs[i].channel, cfgs[i].id, 0) >= 0,
        forall|j: int|
            0 <= j < cfgs.len() && j != i ==> (#[trigger] cfgs[j]).channel != cfgs[i].channel
                || cfgs[j].id != cfgs[i].id,
    ensures
        after.len() == before.len(),
        ({
            let k = bus::entry_index(before, cfgs[i].channel, cfgs[i].id, 0);
            config_apply::is_overlaid(before[k], after[k], cfgs[i])
        }),
{
    let steps = choose|steps: Seq<Seq<TxMsg>>|
        #[trigger] config_apply::are_restores(cfgs, steps) && steps[0] == before && steps.last()
            == after;
    let c = cfgs[i];
    let k = bus::entry_index(before, c.channel, c.id, 0);
    lemma_found_key(before, c.channel, c.id, 0);
    lemma_keys_kept(cfgs, steps, i);
    lemma_keys_kept(cfgs, steps, cfgs.len() as int);
    lemma_same_keys(steps[i], before, c.channel, c.id, 0);
    lemma_entry_kept(cfgs, steps, k, 0, i);
    assert(config_apply::is_entry_restored(steps[i], steps[i + 1], c));
    lemma_entry_kept(cfgs, steps, k, i + 1, cfgs.len() as int);
    assert(steps.last() == steps[cfgs.len() as int]);
}

/// Two buses agree in all that loading a database keeps.
pub open spec fn same_bus(a: Channel, b: Channel) -> bool {
    &&& a.name == b.name
    &&& a.dbc_paths == b.dbc_paths
    &&& a.node_roles == b.node_roles
    &&& a.bitrate_kbps == b.bitrate_kbps
    &&& a.fd_data_kbps == b.fd_data_kbps
}

proof fn lemma_loads_keep(
    buses: Seq<usize>,
    files: Seq<Vec<Result<FileText, String>>>,
    steps: Seq<BusCore>,
    told: Seq<(Seq<char>, bool)>,
    n: int,
)
    requires
        bus_reload::are_loads(buses, files, steps, told),
        0 <= n <= buses.len(),
    ensures
        steps[n].channels@.len() == steps[0].channels@.len(),
        forall|i: int|
            0 <= i < steps[0].channels@.len() ==> same_bus(
                #[trigger] steps[n].channels@[i],
                steps[0].channels@[i],
            ),
    decreases n,
{
    if n > 0 {
        lemma_loads_keep(buses, files, steps, told, n - 1);
        let ch = buses[n - 1];
        assert(bus_reload::loads(steps[n - 1], steps[n - 1 + 1], ch, files, told[n - 1]));
        let x = steps[n - 1].channels@;
        let y = steps[n].channels@;
        assert(y.len() == x.len());
        assert forall|i: int| 0 <= i < steps[0].channels@.len() implies same_bus(
            #[trigger] y[i],
            steps[0].channels@[i],
        ) by {
            assert(same_bus(x[i], steps[0].channels@[i]));
            if i != ch {
                assert(y[i] == x[i]);
            }
        }
    }
}

proof fn lemma_simulated(roles: Seq<RoleEntry>, n: int, node: Seq<char>)
    requires
        0 <= n <= roles.len(),
    ensures
        config::simulated_names(roles, n).contains(node) == exists|i: int|
            0 <= i < n && (#[trigger] roles[i]).node@ == node && roles[i].role
                == NodeRole::Simulated,
    decreases n,
{
    if n > 0 {
        lemma_simulated(roles, n - 1, node);
        let before = config::simulated_names(roles, n - 1);
        let now = config::simulated_names(roles, n);
        if roles[n - 1].role == NodeRole::Simulated {
            assert(now == before.push(roles[n - 1].node@));
            if now.contains(node) {
                let k = choose|k: int| 0 <= k < now.len() && now[k] == node;
                if k < before.len() {
                    assert(before[k] == node);
                    assert(before.contains(node));
                } else {
                    assert(roles[n - 1].node@ == node);
                }
            }
            if before.contains(node) {
                let k = choose|k: int| 0 <= k < before.len() && before[k] == node;
                assert(now[k] == node);
            }
            if roles[n - 1].node@ == node {
                assert(now[before.len() as int] == node);
            }
        }
    }
}

proof fn lemma_role_of(roles: Seq<RoleEntry>, node: Seq<char>)
    requires
        channel::roles_sorted(roles),
    ensures
        (channel::role_in(roles, node) == NodeRole::Simulated) == exists|i: int|
            0 <= i < roles.len() && (#[trigger] roles[i]).node@ == node && roles[i].role
                == NodeRole::Simulated,
    decreases roles.len(),
{
    if roles.len() > 0 {
        let rest = roles.drop_first();
        assert(channel::roles_sorted(rest)) by {
            assert forall|i: int, j: int| 0 <= i < j < rest.len() implies text::text_less(
                (#[trigger] rest[i]).node@,
                (#[trigger] rest[j]).node@,
            ) by {
                assert(text::text_less(roles[i + 1].node@, roles[j + 1].node@));
            }
        }
        lemma_role_of(rest, node);
        if roles[0].node@ == node {
            assert forall|i: int| 1 <= i < roles.len() implies (#[trigger] roles[i]).node@
                != node by {
                assert(text::text_less(roles[0].node@, roles[i].node@));
                text::lemma_text_order(roles[0].node@, roles[i].node@);
            }
        } else {
            let p = |s: Seq<RoleEntry>| exists|i: int|
                0 <= i < s.len() && (#[trigger] s[i]).node@ == node && s[i].role
                    == NodeRole::Simulated;
            if p(rest) {
                let i = choose|i: int|
                    0 <= i < rest.len() && (#[trigger] rest[i]).node@ == node && rest[i].role
                        == NodeRole::Simulated;
                assert(roles[i + 1].node@ == node);
            }
            if p(roles) {
                let i = choose|i: int|
                    0 <= i < roles.len() && (#[trigger] roles[i]).node@ == node && roles[i].role
                        == NodeRole::Simulated;
                assert(rest[i - 1].node@ == node);
            }
        }
    }
}

proof fn lemma_roles_survive(
    c: Channel,
    absolute: Seq<char>,
    base: Option<Seq<char>>,
    style: PathStyle,
    cfg: ChannelCfg,
    back: Channel,
    node: Seq<char>,
)
    requires
        channel::roles_sorted(c.node_roles@),
        config::is_channel_cfg(c, absolute, base, style, cfg),
        config_apply::is_channel_of(back, cfg),
    ensures
        channel::role_in(back.node_roles@, node) == channel::role_in(c.node_roles@, node),
{
    let names = text::views(cfg.sim_nodes@);
    lemma_role_of(c.node_roles@, node);
    lemma_simulated(c.node_roles@, c.node_roles@.len() as int, node);
    if text::lists(cfg.sim_nodes@, node) {
        let i = choose|i: int|
            0 <= i < cfg.sim_nodes@.len() && (#[trigger] cfg.sim_nodes@[i])@ == node;
        assert(names[i] == node);
        assert(names.contains(node));
    }
    if names.contains(node) {
        let i = choose|i: int| 0 <= i < names.len() && names[i] == node;
        assert(cfg.sim_nodes@[i]@ == node);
    }
}

/// Every bus comes back with its name, its bit rates and the nodes that it simulates;
/// and, saved outside a project, with its primary database path.
pub proof fn law_buses_survive(
    cfg: Config,
    app: App,
    base: Option<Seq<char>>,
    absolutes: Seq<String>,
    style: PathStyle,
    before: App,
    after: App,
    files: Seq<Vec<Result<FileText, String>>>,
    i: int,
    node: Seq<char>,
)
    requires
        app.wf(),
        cfg.is_of(app, base, absolutes, style),
        cfg.is_applied(before, after, files),
        0 <= i < app.core.channels@.len(),
    ensures
        after.core.channels@.len() == app.core.channels@.len(),
        after.core.channels@[i].name == app.core.channels@[i].name,
        after.core.channels@[i].bitrate_kbps == app.core.channels@[i].bitrate_kbps,
        after.core.channels@[i].fd_data_kbps == app.core.channels@[i].fd_data_kbps,
        channel::role_in(after.core.channels@[i].node_roles@, node) == channel::role_in(
            app.core.channels@[i].node_roles@,
            node,
        ),
        base is None ==> config::primary_path(after.core.channels@[i]) == config::primary_path(
            app.core.channels@[i],
        ),
{
    let (a1, a2, a3, a4, a5) = choose|a1: App, a2: App, a3: App, a4: App, a5: App|
        #[trigger] cfg.is_chain(before, a1, a2, a3, a4, a5, after, files);
    assert(cfg.is_bus_restored(before, a1, files));
    let mid = choose|mid: BusCore|
        #[trigger] config_apply::are_buses_restored(
            before.core,
            mid,
            cfg.channels@,
            cfg.bus_counter,
            files,
        ) && config_apply::is_generator_rebuilt(mid, a1.core, cfg.tx@);
    assert(after.core.channels == mid.channels);
    let buses = bus_reload::first_buses(cfg.channels@.len() as int);
    let (declared, line) = choose|declared: BusCore, line: Option<Seq<char>>|
        config_apply::are_buses_declared(before.core, declared, cfg.channels@, cfg.bus_counter)
            && #[trigger] bus_reload::are_loaded(declared, mid, buses, files, line);
    let (steps, told) = choose|steps: Seq<BusCore>, told: Seq<(Seq<char>, bool)>|
        #[trigger] bus_reload::are_loads(buses, files, steps, told) && steps[0] == declared
            && steps.last() == mid;
    lemma_loads_keep(buses, files, steps, told, buses.len() as int);
    assert(steps.last() == steps[buses.len() as int]);
    let d = declared.channels@[i];
    assert(config_apply::is_channel_of(d, cfg.channels@[i]));
    assert(same_bus(mid.channels@[i], d));
    assert(app.core.channels@[i].wf());
    assert(config::is_channel_cfg(
        app.core.channels@[i],
        absolutes[i]@,
        base,
        style,
        cfg.channels@[i],
    ));
    lemma_roles_survive(
        app.core.channels@[i],
        absolutes[i]@,
        base,
        style,
        cfg.channels@[i],
        d,
        node,
    );
    assert(text::views(d.dbc_paths@).len() == 1);
    assert(d.dbc_paths@.len() == 1);
    assert(text::views(d.dbc_paths@)[0] == d.dbc_paths@[0]@);
}

/// The workspace holds nothing that a saved one cannot: numbers lie in their bounds, no
/// period is shorter than a millisecond unless it is none, and a signal rule's message is
/// extended where its identifier says so.
pub open spec fn is_savable(app: App) -> bool {
    &&& config_apply::HUNDREDTH <= app.replay_speed <= config_apply::HUNDRED
    &&& app.spec_grace >= 1
    &&& forall|i: int|
        0 <= i < app.core.tx_list@.len() ==> (#[trigger] app.core.tx_list@[i]).cycle_us == 0
            || app.core.tx_list@[i].cycle_us >= 1_000
    &&& forall|i: int|
        0 <= i < app.trace_windows@.len() ==> (#[trigger] app.trace_windows@[i]).dir <= 2
    &&& forall|i: int|
        0 <= i < app.graphics@.len() ==> config_apply::TENTH <= (
        #[trigger] app.graphics@[i]).time_window_s <= config_apply::HOUR
    &&& forall|i: int|
        0 <= i < app.core.triggers@.len() ==> ids_tell_extended(#[trigger] app.core.triggers@[i])
}

/// Two sets of buses agree in their names, bit rates, primary databases and simulated
/// nodes.
pub open spec fn same_buses(a: Seq<Channel>, b: Seq<Channel>) -> bool {
    &&& a.len() == b.len()
    &&& forall|i: int|
        0 <= i < b.len() ==> (#[trigger] a[i]).name == b[i].name && a[i].bitrate_kbps
            == b[i].bitrate_kbps && a[i].fd_data_kbps == b[i].fd_data_kbps
            && config::primary_path(a[i]) == config::primary_path(b[i])
    &&& forall|i: int, node: Seq<char>|
        0 <= i < b.len() ==> #[trigger] channel::role_in(a[i].node_roles@, node)
            == channel::role_in(b[i].node_roles@, node)
}

/// The windows agree. A workspace without windows of a kind says nothing of them: it
/// comes back with the ones that a workspace starts with.
pub open spec fn same_windows(a: App, b: App) -> bool {
    &&& b.trace_windows@.len() > 0 ==> a.trace_windows@.len() == b.trace_windows@.len()
        && forall|i: int|
        0 <= i < b.trace_windows@.len() ==> same_trace(
            #[trigger] a.trace_windows@[i],
            b.trace_windows@[i],
        )
    &&& b.msg_windows@.len() > 0 ==> a.msg_windows@.len() == b.msg_windows@.len() && forall|i: int|
        0 <= i < b.msg_windows@.len() ==> same_messages(
            #[trigger] a.msg_windows@[i],
            b.msg_windows@[i],
        )
    &&& b.stats_windows@.len() > 0 ==> a.stats_windows@.len() == b.stats_windows@.len()
        && forall|i: int|
        0 <= i < b.stats_windows@.len() ==> same_stats(
            #[trigger] a.stats_windows@[i],
            b.stats_windows@[i],
        )
    &&& b.graphics@.len() > 0 ==> a.graphics@.len() == b.graphics@.len() && forall|i: int|
        0 <= i < b.graphics@.len() ==> same_plot(#[trigger] a.graphics@[i], b.graphics@[i])
    &&& b.data_windows@.len() > 0 ==> a.data_windows@.len() == b.data_windows@.len()
        && forall|i: int|
        0 <= i < b.data_windows@.len() ==> same_table(
            #[trigger] a.data_windows@[i],
            b.data_windows@[i],
        )
}

/// The settings agree.
pub open spec fn same_settings(a: App, b: App) -> bool {
    &&& a.panels == b.panels
    &&& a.counters == b.counters
    &&& a.recent_dbc@ == b.recent_dbc@
    &&& a.recent_log@ == b.recent_log@
    &&& a.text_rate_hz == b.text_rate_hz
    &&& a.spec_tol_pct == b.spec_tol_pct
    &&& a.spec_grace == b.spec_grace
    &&& a.replay_speed == b.replay_speed
    &&& a.active_desktop == b.active_desktop
}

/// The rules agree in their conditions, their actions and whether they are enabled.
pub open spec fn same_rules(a: Seq<Trigger>, b: Seq<Trigger>) -> bool {
    &&& a.len() == b.len()
    &&& forall|i: int| 0 <= i < b.len() ==> same_rule(#[trigger] a[i], b[i])
}

/// No other entry of the list is of the same message.
pub open spec fn is_only_entry(list: Seq<TxMsg>, i: int) -> bool {
    forall|j: int|
        0 <= j < list.len() && j != i ==> (#[trigger] list[j]).channel != list[i].channel
            || list[j].id != list[i].id
}

/// Every entry of `b` whose message `a` has an entry for is there as it was.
pub open spec fn same_entries(a: Seq<TxMsg>, b: Seq<TxMsg>) -> bool {
    forall|i: int|
        0 <= i < b.len() && is_only_entry(b, i) && bus::entry_index(a, b[i].channel, b[i].id, 0)
            >= 0 ==> {
            let now = a[bus::entry_index(a, b[i].channel, b[i].id, 0)];
            same_entry(now, #[trigger] b[i]) && (b[i].data_text@.len() > 0 ==> same_payload(
                now,
                b[i],
            ))
        }
}

proof fn lemma_entries_survive(
    cfg: Config,
    app: App,
    absolutes: Seq<String>,
    style: PathStyle,
    before: App,
    after: App,
    files: Seq<Vec<Result<FileText, String>>>,
)
    requires
        app.wf(),
        is_savable(app),
        cfg.is_of(app, None, absolutes, style),
        cfg.is_applied(before, after, files),
    ensures
        same_entries(after.core.tx_list@, app.core.tx_list@),
{
    let (a1, a2, a3, a4, a5) = choose|a1: App, a2: App, a3: App, a4: App, a5: App|
        #[trigger] cfg.is_chain(before, a1, a2, a3, a4, a5, after, files);
    assert(cfg.is_bus_restored(before, a1, files));
    let mid = choose|mid: BusCore|
        #[trigger] config_apply::are_buses_restored(
            before.core,
            mid,
            cfg.channels@,
            cfg.bus_counter,
            files,
        ) && config_apply::is_generator_rebuilt(mid, a1.core, cfg.tx@);
    let (empty, filled) = choose|empty: BusCore, filled: BusCore|
        {
            &&& empty.tx_list@.len() == 0
            &&& empty == (BusCore { tx_list: empty.tx_list, ..mid })
            &&& #[trigger] empty.is_populated(filled)
            &&& config_apply::are_entries_restored(filled.tx_list@, a1.core.tx_list@, cfg.tx@)
            &&& a1.core == (BusCore { tx_list: a1.core.tx_list, ..filled })
        };
    let was = app.core.tx_list@;
    let list = after.core.tx_list@;
    assert(list == a1.core.tx_list@);
    let steps = choose|steps: Seq<Seq<TxMsg>>|
        #[trigger] config_apply::are_restores(cfg.tx@, steps) && steps[0] == filled.tx_list@
            && steps.last() == list;
    lemma_keys_kept(cfg.tx@, steps, cfg.tx@.len() as int);
    assert(steps.last() == steps[cfg.tx@.len() as int]);
    assert forall|i: int|
        0 <= i < was.len() && is_only_entry(was, i) && bus::entry_index(
            list,
            was[i].channel,
            was[i].id,
            0,
        ) >= 0 implies ({
        let now = list[bus::entry_index(list, was[i].channel, was[i].id, 0)];
        same_entry(now, #[trigger] was[i]) && (was[i].data_text@.len() > 0 ==> same_payload(
            now,
            was[i],
        ))
    }) by {
        let t = was[i];
        let c = cfg.tx@[i];
        assert(config::is_tx_cfg(t, c));
        assert forall|j: int| 0 <= j < cfg.tx@.len() && j != i implies (
        #[trigger] cfg.tx@[j]).channel != c.channel || cfg.tx@[j].id != c.id by {
            assert(config::is_tx_cfg(was[j], cfg.tx@[j]));
            assert(was[j].channel != t.channel || was[j].id != t.id);
        }
        lemma_same_keys(list, filled.tx_list@, t.channel, t.id, 0);
        law_saved_entries_reach_their_message(filled.tx_list@, list, cfg.tx@, i);
        let k = bus::entry_index(filled.tx_list@, t.channel, t.id, 0);
        assert(t.cycle_us == 0 || t.cycle_us >= 1_000);
        assert(t.len <= 64);
        law_an_entry_survives(t, c, filled.tx_list@[k], list[k]);
    }
}

/// A workspace that is saved outside a project and opened again is the workspace that
/// was saved: its buses, windows, signals, rules and settings, and every generator entry
/// that the databases still declare. A saved workspace without buses leaves those that
/// are there.
pub proof fn law_a_saved_workspace_comes_back(
    cfg: Config,
    app: App,
    absolutes: Seq<String>,
    style: PathStyle,
    before: App,
    after: App,
    files: Seq<Vec<Result<FileText, String>>>,
)
    requires
        app.wf(),
        is_savable(app),
        cfg.is_of(app, None, absolutes, style),
        cfg.is_applied(before, after, files),
    ensures
        app.core.channels@.len() > 0 ==> same_buses(after.core.channels@, app.core.channels@),
        same_windows(after, app),
        same_settings(after, app),
        same_rules(after.core.triggers@, app.core.triggers@),
        same_entries(after.core.tx_list@, app.core.tx_list@),
{
    law_list_windows_survive(cfg, app, None, absolutes, style, before, after, files);
    law_signal_windows_survive(cfg, app, None, absolutes, style, before, after, files);
    law_settings_survive(cfg, app, None, absolutes, style, before, after, files);
    law_rules_survive(cfg, app, None, absolutes, style, before, after, files);
    lemma_entries_survive(cfg, app, absolutes, style, before, after, files);
    let now = after.core.channels@;
    let was = app.core.channels@;
    if was.len() > 0 {
        law_buses_survive(cfg, app, None, absolutes, style, before, after, files, 0, seq![]);
    }
    assert forall|i: int| 0 <= i < was.len() implies (#[trigger] now[i]).name == was[i].name
        && now[i].bitrate_kbps == was[i].bitrate_kbps && now[i].fd_data_kbps == was[i].fd_data_kbps
        && config::primary_path(now[i]) == config::primary_path(was[i]) by {
        law_buses_survive(cfg, app, None, absolutes, style, before, after, files, i, seq![]);
    }
    assert forall|i: int, node: Seq<char>| 0 <= i < was.len() implies #[trigger] channel::role_in(
        now[i].node_roles@,
        node,
    ) == channel::role_in(was[i].node_roles@, node) by {
        law_buses_survive(cfg, app, None, absolutes, style, before, after, files, i, node);
    }
}

/// A held number lies in its bounds, and one that does is held as it is.
pub proof fn law_bounds_hold(v: u64, low: u64, high: u64)
    requires
        0 < low <= high <= doubles::INFINITY,
        doubles::is_number(v),
    ensures
        low <= config_apply::clamped_bits(v, low, high) <= high,
        low <= v <= high ==> config_apply::clamped_bits(v, low, high) == v,
{
}

} // verus!
