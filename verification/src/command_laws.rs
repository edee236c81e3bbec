//! What the commands do: each one changes what it names and leaves the rest of the bus as
//! it is.

use vstd::prelude::*;
use crate::bus;
use crate::bus::BusCore;
use crate::bus_command::BusCommand;
use crate::bus_run::BusAction;
use crate::bus_types::{Double, SysVarDef};
use crate::bus_types;
use crate::generator::TxMsg;
use crate::observe::SigKey;
use crate::sim::ValueSrc;
use crate::triggers::{TriggerAction, TriggerCond};

verus! {

/// Entry `k` is the one for the message: the first on that bus with that id.
pub open spec fn is_entry_of(list: Seq<TxMsg>, ch: u8, id: u32, k: int) -> bool {
    &&& 0 <= k < list.len()
    &&& list[k].channel == ch
    &&& list[k].id == id
    &&& forall|i: int| 0 <= i < k ==> (#[trigger] list[i]).channel != ch || list[i].id != id
}

proof fn lemma_entry(list: Seq<TxMsg>, ch: u8, id: u32, from: int, k: int)
    requires
        is_entry_of(list, ch, id, k),
        0 <= from <= k,
    ensures
        bus::entry_index(list, ch, id, from) == k,
    decreases k - from,
{
    if from < k {
        assert(list[from].channel != ch || list[from].id != id);
        lemma_entry(list, ch, id, from + 1, k);
    }
}

/// Switching an entry on lets it send from the clock on; switching it off only stops it.
/// Bytes, period and sources stay, and so does every other entry.
pub proof fn law_an_entry_is_switched(
    core: BusCore,
    after: BusCore,
    ch: u8,
    id: u32,
    on: bool,
    texts: (Seq<char>, Seq<char>),
    actions: Seq<BusAction>,
    k: int,
    j: int,
)
    requires
        core.is_handled(
            after,
            BusCommand::SetEntryActive { ch, id, on },
            texts.0,
            texts.1,
            actions,
        ),
        is_entry_of(core.tx_list@, ch, id, k),
    ensures
        after.tx_list@.len() == core.tx_list@.len(),
        after.tx_list@[k].active == on,
        on ==> after.tx_list@[k].next_t_us == core.sim_t_us,
        !on ==> after.tx_list@[k].next_t_us == core.tx_list@[k].next_t_us,
        after.tx_list@[k].cycle_us == core.tx_list@[k].cycle_us,
        after.tx_list@[k].data == core.tx_list@[k].data,
        after.tx_list@[k].len == core.tx_list@[k].len,
        after.tx_list@[k].srcs == core.tx_list@[k].srcs,
        0 <= j < core.tx_list@.len() && j != k ==> after.tx_list@[j] == core.tx_list@[j],
        after.trace == core.trace,
        after.measuring == core.measuring,
        actions.len() == 0,
{
    lemma_entry(core.tx_list@, ch, id, 0, k);
}

/// A new period counts from the clock on; nothing else of the entry changes.
pub proof fn law_an_entry_gets_its_period(
    core: BusCore,
    after: BusCore,
    ch: u8,
    id: u32,
    cycle_us: u64,
    texts: (Seq<char>, Seq<char>),
    actions: Seq<BusAction>,
    k: int,
    j: int,
)
    requires
        core.is_handled(
            after,
            BusCommand::SetEntryCycle { ch, id, cycle_us },
            texts.0,
            texts.1,
            actions,
        ),
        is_entry_of(core.tx_list@, ch, id, k),
    ensures
        after.tx_list@.len() == core.tx_list@.len(),
        after.tx_list@[k].cycle_us == cycle_us,
        after.tx_list@[k].next_t_us == core.sim_t_us,
        after.tx_list@[k].active == core.tx_list@[k].active,
        after.tx_list@[k].data == core.tx_list@[k].data,
        after.tx_list@[k].len == core.tx_list@[k].len,
        0 <= j < core.tx_list@.len() && j != k ==> after.tx_list@[j] == core.tx_list@[j],
{
    lemma_entry(core.tx_list@, ch, id, 0, k);
}

/// The FD switch sets or clears the FD flag and leaves the rest of the entry.
pub proof fn law_an_entry_gets_its_flags(
    core: BusCore,
    after: BusCore,
    ch: u8,
    id: u32,
    fd: bool,
    texts: (Seq<char>, Seq<char>),
    actions: Seq<BusAction>,
    k: int,
)
    requires
        core.is_handled(after, BusCommand::SetEntryFd { ch, id, fd }, texts.0, texts.1, actions),
        is_entry_of(core.tx_list@, ch, id, k),
    ensures
        fd ==> after.tx_list@[k].flags.0 == 1,
        !fd ==> after.tx_list@[k].flags.0 == 0,
        after.tx_list@[k].len == core.tx_list@[k].len,
        after.tx_list@[k].data == core.tx_list@[k].data,
        after.tx_list@[k].active == core.tx_list@[k].active,
{
    lemma_entry(core.tx_list@, ch, id, 0, k);
}

/// Typed bytes become the base bytes, with zeros behind them, and their number the length;
/// a text that is no list of bytes changes nothing.
pub proof fn law_typed_bytes_become_the_base(
    core: BusCore,
    after: BusCore,
    ch: u8,
    id: u32,
    typed: String,
    texts: (Seq<char>, Seq<char>),
    actions: Seq<BusAction>,
    k: int,
    j: int,
)
    requires
        core.is_handled(
            after,
            BusCommand::SetEntryHex { ch, id, typed },
            texts.0,
            texts.1,
            actions,
        ),
        is_entry_of(core.tx_list@, ch, id, k),
    ensures
        crate::generator::hex_bytes(typed@) is None ==> after.tx_list@ == core.tx_list@,
        crate::generator::hex_bytes(typed@) matches Some(b) ==> {
            let now = after.tx_list@[k];
            &&& now.len == b.len()
            &&& forall|i: int|
                0 <= i < 64 ==> #[trigger] now.data@[i] == (if i < b.len() {
                    b[i]
                } else {
                    0u8
                })
            &&& b.len() > 8 ==> now.flags.0 == core.tx_list@[k].flags.0 | 1
            &&& b.len() <= 8 ==> now.flags == core.tx_list@[k].flags
            &&& now.active == core.tx_list@[k].active
            &&& now.cycle_us == core.tx_list@[k].cycle_us
            &&& now.srcs == core.tx_list@[k].srcs
        },
        0 <= j < core.tx_list@.len() && j != k ==> after.tx_list@[j] == core.tx_list@[j],
{
    lemma_entry(core.tx_list@, ch, id, 0, k);
}

proof fn lemma_without_entry(list: Seq<TxMsg>, ch: u8, id: u32, n: int, t: TxMsg)
    requires
        0 <= n <= list.len(),
    ensures
        BusCore::without_entry(list, ch, id, n).contains(t) == ((t.channel != ch || t.id != id)
            && list.subrange(0, n).contains(t)),
    decreases n,
{
    if n > 0 {
        lemma_without_entry(list, ch, id, n - 1, t);
        let now = BusCore::without_entry(list, ch, id, n);
        let before = BusCore::without_entry(list, ch, id, n - 1);
        let short = list.subrange(0, n - 1);
        let long = list.subrange(0, n);
        assert(long =~= short.push(list[n - 1]));
        if before.contains(t) {
            let i = choose|i: int| 0 <= i < before.len() && before[i] == t;
            assert(now[i] == t);
        }
        if short.contains(t) {
            let i = choose|i: int| 0 <= i < short.len() && short[i] == t;
            assert(long[i] == t);
        }
        if list[n - 1] == t {
            assert(long[n - 1] == t);
            if t.channel != ch || t.id != id {
                assert(now[now.len() - 1] == t);
            }
        }
        if now.contains(t) {
            let i = choose|i: int| 0 <= i < now.len() && now[i] == t;
            if i < before.len() {
                assert(before[i] == t);
            }
        }
        if long.contains(t) {
            let i = choose|i: int| 0 <= i < long.len() && long[i] == t;
            if i < n - 1 {
                assert(short[i] == t);
            }
        }
    }
}

/// Removing a message takes out its entries and no others.
pub proof fn law_a_removed_entry_is_gone(
    core: BusCore,
    after: BusCore,
    ch: u8,
    id: u32,
    texts: (Seq<char>, Seq<char>),
    actions: Seq<BusAction>,
    t: TxMsg,
)
    requires
        core.is_handled(after, BusCommand::RemoveEntry { ch, id }, texts.0, texts.1, actions),
    ensures
        t.channel == ch && t.id == id ==> !after.tx_list@.contains(t),
        t.channel != ch || t.id != id ==> after.tx_list@.contains(t) == core.tx_list@.contains(t),
        after.channels == core.channels,
{
    let n = core.tx_list@.len() as int;
    lemma_without_entry(core.tx_list@, ch, id, n, t);
    assert(core.tx_list@.subrange(0, n) =~= core.tx_list@);
}

proof fn lemma_source_index(srcs: Seq<ValueSrc>, name: Seq<char>, from: int)
    requires
        0 <= from,
    ensures
        ({
            let i = bus::source_index(srcs, name, from);
            &&& i == -1 || from <= i < srcs.len() && srcs[i].name@ == name
            &&& i == -1 ==> forall|j: int|
                from <= j < srcs.len() ==> (#[trigger] srcs[j]).name@ != name
        }),
    decreases srcs.len() - from,
{
    if from < srcs.len() && srcs[from].name@ != name {
        lemma_source_index(srcs, name, from + 1);
    }
}

/// A source for a signal is there once it is set, in the place of the one before it; the
/// sources of other signals stay.
pub proof fn law_a_source_is_set(srcs: Seq<ValueSrc>, src: ValueSrc, k: int)
    ensures
        bus::with_source(srcs, src).contains(src),
        0 <= k < srcs.len() && srcs[k].name@ != src.name@ ==> bus::with_source(srcs, src)[k]
            == srcs[k],
        0 <= k < srcs.len() && srcs[k].name@ == src.name@ ==> bus::with_source(srcs, src).len()
            == srcs.len(),
        (forall|i: int| 0 <= i < srcs.len() ==> (#[trigger] srcs[i]).name@ != src.name@)
            ==> bus::with_source(srcs, src).len() == srcs.len() + 1,
{
    lemma_source_index(srcs, src.name@, 0);
    let i = bus::source_index(srcs, src.name@, 0);
    let r = bus::with_source(srcs, src);
    if i >= 0 {
        assert(r[i] == src);
    } else {
        assert(r[srcs.len() as int] == src);
    }
}

/// A cleared source is gone; the sources of other signals stay.
pub proof fn law_a_source_is_cleared(srcs: Seq<ValueSrc>, name: Seq<char>, n: int, s: ValueSrc)
    requires
        0 <= n <= srcs.len(),
    ensures
        bus::without_source(srcs, name, n).contains(s) == (s.name@ != name && srcs.subrange(
            0,
            n,
        ).contains(s)),
    decreases n,
{
    if n > 0 {
        law_a_source_is_cleared(srcs, name, n - 1, s);
        let now = bus::without_source(srcs, name, n);
        let before = bus::without_source(srcs, name, n - 1);
        let short = srcs.subrange(0, n - 1);
        let long = srcs.subrange(0, n);
        assert(long =~= short.push(srcs[n - 1]));
        if before.contains(s) {
            let i = choose|i: int| 0 <= i < before.len() && before[i] == s;
            assert(now[i] == s);
        }
        if short.contains(s) {
            let i = choose|i: int| 0 <= i < short.len() && short[i] == s;
            assert(long[i] == s);
        }
        if srcs[n - 1] == s {
            assert(long[n - 1] == s);
            if s.name@ != name {
                assert(now[now.len() - 1] == s);
            }
        }
        if now.contains(s) {
            let i = choose|i: int| 0 <= i < now.len() && now[i] == s;
            if i < before.len() {
                assert(before[i] == s);
            }
        }
        if long.contains(s) {
            let i = choose|i: int| 0 <= i < long.len() && long[i] == s;
            if i < n - 1 {
                assert(short[i] == s);
            }
        }
    }
}

/// A running bus queues what is sent at once, in order; a freeze only turns the freeze
/// switch; a stop ends the measurement and stops every node.
pub proof fn law_runs_are_commanded(
    core: BusCore,
    after: BusCore,
    ch: u8,
    id: u32,
    on: bool,
    texts: (Seq<char>, Seq<char>),
    actions: Seq<BusAction>,
    k: int,
)
    ensures
        core.is_handled(after, BusCommand::SendNow { ch, id }, texts.0, texts.1, actions)
            && core.measuring ==> after.injected@ == core.injected@.push((ch, id)) && after.trace
            == core.trace,
        core.is_handled(after, BusCommand::SetTracePaused(on), texts.0, texts.1, actions)
            ==> after.trace_paused == on && after.measuring == core.measuring && after.trace
            == core.trace && after.sim_t_us == core.sim_t_us,
        core.is_handled(after, BusCommand::Stop, texts.0, texts.1, actions) ==> {
            &&& !after.measuring
            &&& after.trace == core.trace
            &&& after.aggs == core.aggs
            &&& after.sim_t_us == core.sim_t_us
            &&& after.tx_list == core.tx_list
            &&& actions.len() == core.nodes@.len() + 1
            &&& actions[0] == BusAction::CloseRecorder
            &&& 0 <= k < core.nodes@.len() ==> actions[k + 1] == BusAction::StopNode(
                core.nodes@[k].id,
            )
        },
        core.is_handled(after, BusCommand::ClearTrace, texts.0, texts.1, actions)
            ==> after.trace@.len() == 0 && after.published_trace@.len() == 0 && after.aggs
            == core.aggs && after.frame_counter == core.frame_counter,
        core.is_handled(after, BusCommand::ClearAggregates, texts.0, texts.1, actions)
            ==> after.aggs.items@.len() == 0 && after.trace == core.trace,
        core.is_handled(after, BusCommand::ClearSpec, texts.0, texts.1, actions) ==> (forall|
            m: u64,
        |
            !(#[trigger] after.monitor.rows@.dom().contains(m))) && after.monitor.seen
            == core.monitor.seen && after.aggs == core.aggs,
{
}

/// The limits are held between their bounds: a thousand and five million frames of trace,
/// no more than 32768 frames around a trigger, and eight to 65536 markers.
pub proof fn law_limits_are_held(
    core: BusCore,
    after: BusCore,
    frames: usize,
    pre: Option<usize>,
    post: Option<u32>,
    cap: Option<usize>,
    texts: (Seq<char>, Seq<char>),
    actions: Seq<BusAction>,
)
    ensures
        core.is_handled(after, BusCommand::SetTraceLimit { frames }, texts.0, texts.1, actions)
            ==> 1_000 <= after.trace_limit <= 5_000_000 && (1_000 <= frames <= 5_000_000
            ==> after.trace_limit == frames),
        core.is_handled(
            after,
            BusCommand::SetRunLimits { pre_frames: pre, post_frames: post, marker_cap: cap },
            texts.0,
            texts.1,
            actions,
        ) ==> {
            &&& pre is None ==> after.pre_frames == core.pre_frames
            &&& post is None ==> after.post_frames == core.post_frames
            &&& cap is None ==> after.marker_cap == core.marker_cap
            &&& pre matches Some(n) ==> after.pre_frames <= 32_768 && (n <= 32_768
                ==> after.pre_frames == n)
            &&& post matches Some(n) ==> after.post_frames <= 32_768 && (n <= 32_768
                ==> after.post_frames == n)
            &&& cap matches Some(n) ==> 8 <= after.marker_cap <= 65_536 && (8 <= n <= 65_536
                ==> after.marker_cap == n)
            &&& after.trace_limit == core.trace_limit
        },
{
}

/// Rules are added at the end, armed and unfired; taken out and switched by their index;
/// and a rule that is edited is judged anew. Other rules stay.
pub proof fn law_rules_are_edited(
    core: BusCore,
    after: BusCore,
    index: usize,
    on: bool,
    cond: TriggerCond,
    action: TriggerAction,
    texts: (Seq<char>, Seq<char>),
    actions: Seq<BusAction>,
    k: int,
)
    requires
        0 <= k < core.triggers@.len(),
    ensures
        core.is_handled(after, BusCommand::AddTrigger { cond, action }, texts.0, texts.1, actions)
            ==> {
            &&& after.triggers@.len() == core.triggers@.len() + 1
            &&& after.triggers@[k] == core.triggers@[k]
            &&& after.triggers@.last().cond == cond
            &&& after.triggers@.last().action == action
            &&& after.triggers@.last().enabled
            &&& !after.triggers@.last().level
            &&& after.triggers@.last().fired == 0
        },
        core.is_handled(
            after,
            BusCommand::SetTriggerEnabled { index, on },
            texts.0,
            texts.1,
            actions,
        ) ==> {
            &&& after.triggers@.len() == core.triggers@.len()
            &&& k == index ==> after.triggers@[k].enabled == on && after.triggers@[k].fired
                == core.triggers@[k].fired && after.triggers@[k].cond == core.triggers@[k].cond
            &&& k != index ==> after.triggers@[k] == core.triggers@[k]
        },
        core.is_handled(
            after,
            BusCommand::EditTrigger { index, cond, action },
            texts.0,
            texts.1,
            actions,
        ) ==> {
            &&& k == index ==> after.triggers@[k].cond == cond && after.triggers@[k].action
                == action && !after.triggers@[k].level && after.triggers@[k].enabled
                == core.triggers@[k].enabled && after.triggers@[k].fired == core.triggers@[k].fired
            &&& k != index ==> after.triggers@[k] == core.triggers@[k]
        },
        core.is_handled(after, BusCommand::RemoveTrigger { index }, texts.0, texts.1, actions) ==> {
            &&& k < index ==> after.triggers@[k] == core.triggers@[k]
            &&& index < k ==> after.triggers@[k - 1] == core.triggers@[k]
            &&& index < core.triggers@.len() ==> after.triggers@.len() == core.triggers@.len() - 1
        },
        core.is_handled(after, BusCommand::RearmTriggers, texts.0, texts.1, actions) ==> {
            let was = core.triggers@[k];
            let now = after.triggers@[k];
            &&& was.cond is IdPresent || was.cond is ErrorFrame ==> !now.level
            &&& !(was.cond is IdPresent || was.cond is ErrorFrame) ==> now.level == was.level
            &&& now.enabled == was.enabled
            &&& now.fired == was.fired
            &&& now.cond == was.cond
        },
{
}

/// Variable `k` is the one of that key: the first.
pub open spec fn is_var_of(core: BusCore, key: Seq<char>, k: int) -> bool {
    &&& 0 <= k < core.sysvars@.len()
    &&& core.sysvars@[k].def.key_spec() == key
    &&& forall|i: int| 0 <= i < k ==> (#[trigger] core.sysvars@[i]).def.key_spec() != key
}

proof fn lemma_var(core: BusCore, key: Seq<char>, from: int, k: int)
    requires
        is_var_of(core, key, k),
        0 <= from <= k,
    ensures
        bus_types::var_index(core.sysvars@, key, from) == k,
    decreases k - from,
{
    if from < k {
        assert(core.sysvars@[from].def.key_spec() != key);
        lemma_var(core, key, from + 1, k);
    }
}

proof fn lemma_no_var(core: BusCore, key: Seq<char>, from: int)
    requires
        0 <= from,
        forall|i: int|
            0 <= i < core.sysvars@.len() ==> (#[trigger] core.sysvars@[i]).def.key_spec() != key,
    ensures
        bus_types::var_index(core.sysvars@, key, from) == -1,
    decreases core.sysvars@.len() - from,
{
    if from < core.sysvars@.len() {
        lemma_no_var(core, key, from + 1);
    }
}

/// A variable that is defined holds its declared value: in its place where the key is there
/// already, and last where it is new. Every other variable stays.
pub proof fn law_a_defined_variable_starts_declared(
    core: BusCore,
    after: BusCore,
    def: SysVarDef,
    texts: (Seq<char>, Seq<char>),
    actions: Seq<BusAction>,
    k: int,
    j: int,
)
    requires
        core.is_handled(after, BusCommand::DefineSysVar(def), texts.0, texts.1, actions),
    ensures
        is_var_of(core, def.key_spec(), k) ==> after.sysvars@.len() == core.sysvars@.len()
            && after.sysvars@[k].def == def && after.sysvars@[k].value == def.init && (0 <= j
            < core.sysvars@.len() && j != k ==> after.sysvars@[j] == core.sysvars@[j]),
        (forall|i: int|
            0 <= i < core.sysvars@.len() ==> (#[trigger] core.sysvars@[i]).def.key_spec()
                != def.key_spec()) ==> after.sysvars@.len() == core.sysvars@.len() + 1
            && after.sysvars@.last().def == def && after.sysvars@.last().value == def.init,
{
    if is_var_of(core, def.key_spec(), k) {
        lemma_var(core, def.key_spec(), 0, k);
    }
    if forall|i: int|
        0 <= i < core.sysvars@.len() ==> (#[trigger] core.sysvars@[i]).def.key_spec()
            != def.key_spec() {
        lemma_no_var(core, def.key_spec(), 0);
    }
}

/// A write to a variable without bounds is what it then holds; one to an unknown key changes
/// no variable. Its declaration stays, and so does every other variable.
pub proof fn law_a_written_variable_holds_the_value(
    core: BusCore,
    after: BusCore,
    key: Seq<char>,
    value: Double,
    k: int,
    j: int,
)
    requires
        core.is_var_written(after, key, value),
    ensures
        is_var_of(core, key, k) ==> {
            &&& after.sysvars@.len() == core.sysvars@.len()
            &&& after.sysvars@[k].def == core.sysvars@[k].def
            &&& core.sysvars@[k].def.min is None && core.sysvars@[k].def.max is None
                ==> after.sysvars@[k].value == value
            &&& 0 <= j < core.sysvars@.len() && j != k ==> after.sysvars@[j] == core.sysvars@[j]
        },
        (forall|i: int|
            0 <= i < core.sysvars@.len() ==> (#[trigger] core.sysvars@[i]).def.key_spec() != key)
            ==> after == core,
{
    if is_var_of(core, key, k) {
        lemma_var(core, key, 0, k);
    }
    if forall|i: int|
        0 <= i < core.sysvars@.len() ==> (#[trigger] core.sysvars@[i]).def.key_spec() != key {
        lemma_no_var(core, key, 0);
    }
}

/// Watching a signal adds a subscription to it and nothing else; the recorder's filter and
/// file name are taken as they are given.
pub proof fn law_settings_are_taken(
    core: BusCore,
    after: BusCore,
    key: SigKey,
    ids: Vec<(u32, bool)>,
    path: String,
    live: bool,
    texts: (Seq<char>, Seq<char>),
    actions: Seq<BusAction>,
)
    ensures
        core.is_handled(after, BusCommand::Subscribe { key }, texts.0, texts.1, actions)
            ==> after.obs@.streams == core.obs@.streams && after.trace == core.trace
            && after.tx_list == core.tx_list,
        core.is_handled(after, BusCommand::SetRecordFilter { ids }, texts.0, texts.1, actions)
            ==> after.recorder.ids == ids && after.recorder.recording == core.recorder.recording,
        core.is_handled(after, BusCommand::SetRecordPath(path), texts.0, texts.1, actions)
            ==> after.recorder.record_path == path && after.recorder.ids == core.recorder.ids,
        core.is_handled(after, BusCommand::SetBusMode { live }, texts.0, texts.1, actions)
            ==> after.hw.live == live && after.hw.buses == core.hw.buses,
{
}

} // verus!
