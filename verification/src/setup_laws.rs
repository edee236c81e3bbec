//! How a setup is put together and taken apart: buses and their databases, roles, replay
//! blocks and script nodes, and what is left once a bus is removed.

use vstd::prelude::*;
use crate::app::Mode;
use crate::block::ReplayBlock;
use crate::bus;
use crate::bus::BusCore;
use crate::bus_channels;
use crate::bus_nodes;
use crate::bus_nodes::HwOpen;
use crate::bus_reload;
use crate::bus_run::{BusAction, LogRead};
use crate::bus_types;
use crate::bus_types::{BlockCfg, HwDriver, ScriptNode};
use crate::bus_view;
use crate::can::frame::CanFrame;
use crate::channel;
use crate::channel::{Channel, NodeRole, RoleEntry};
use crate::dbc::{SymbolTable, ValueTable};
use crate::dbc_merge;
use crate::dbc_merge::LoadedFiles;
use crate::generator::TxMsg;
use crate::text;
use crate::trace;
use crate::triggers::Trigger;

verus! {

/// What is given for a bus is what it then has, a bitrate at least one; what is not given
/// stays, and so do its database and every other bus.
pub proof fn law_a_bus_takes_what_is_given(
    core: BusCore,
    after: BusCore,
    ch: u8,
    name: Option<String>,
    path: Option<String>,
    kbps: Option<u32>,
    fd: Option<u32>,
    roles: Option<Vec<RoleEntry>>,
    j: int,
)
    requires
        core.is_channel_configured(after, ch, name, path, kbps, fd, roles),
        ch < core.channels@.len(),
    ensures
        after.channels@.len() == core.channels@.len(),
        ({
            let was = core.channels@[ch as int];
            let now = after.channels@[ch as int];
            &&& name matches Some(n) ==> now.name == n
            &&& name is None ==> now.name == was.name
            &&& kbps matches Some(k) ==> now.bitrate_kbps >= 1 && (k >= 1 ==> now.bitrate_kbps == k)
            &&& kbps is None ==> now.bitrate_kbps == was.bitrate_kbps
            &&& fd matches Some(k) ==> now.fd_data_kbps >= 1 && (k >= 1 ==> now.fd_data_kbps == k)
            &&& fd is None ==> now.fd_data_kbps == was.fd_data_kbps
            &&& path matches Some(p) ==> now.dbc_paths@.len() > 0 && now.dbc_paths@[0] == p
            &&& path is None ==> now.dbc_paths@ == was.dbc_paths@
            &&& roles is None ==> now.node_roles == was.node_roles
            &&& now.dbc == was.dbc
        }),
        0 <= j < core.channels@.len() && j != ch ==> after.channels@[j] == core.channels@[j],
        after.tx_list == core.tx_list,
        after.trace == core.trace,
{
}

/// The last entry for a node declares its role; a node without an entry is absent.
pub proof fn law_the_last_role_counts(list: Seq<RoleEntry>, roles: Seq<RoleEntry>, k: int)
    requires
        bus_channels::is_role_map(list, roles),
        0 <= k < list.len(),
        forall|i: int| k < i < list.len() ==> (#[trigger] list[i]).node@ != list[k].node@,
    ensures
        channel::role_in(roles, list[k].node@) == list[k].role,
{
    lemma_last_role(list, k, list.len() as int);
    assert(channel::role_in(roles, list[k].node@) == bus_channels::last_role(
        list,
        list[k].node@,
        list.len() as int,
    ));
}

proof fn lemma_last_role(list: Seq<RoleEntry>, k: int, n: int)
    requires
        0 <= k < n <= list.len(),
        forall|i: int| k < i < n ==> (#[trigger] list[i]).node@ != list[k].node@,
    ensures
        bus_channels::last_role(list, list[k].node@, n) == list[k].role,
    decreases n,
{
    if k < n - 1 {
        assert(list[n - 1].node@ != list[k].node@);
        lemma_last_role(list, k, n - 1);
    }
}

proof fn lemma_added_once(
    channels: Seq<Channel>,
    ids: Seq<(u8, u32)>,
    before: Seq<TxMsg>,
    steps: Seq<Seq<TxMsg>>,
    n: int,
)
    requires
        bus::are_additions(channels, ids, before, steps),
        0 <= n <= ids.len(),
    ensures
        before.len() <= steps[n].len(),
        forall|i: int| 0 <= i < before.len() ==> #[trigger] steps[n][i] == before[i],
        forall|k: int|
            0 <= k < n ==> exists|i: int|
                0 <= i < steps[n].len() && (#[trigger] steps[n][i]).channel == (#[trigger] ids[k]).0
                    && steps[n][i].id == ids[k].1,
        forall|i: int|
            before.len() <= i < steps[n].len() ==> !(#[trigger] steps[n][i]).active
                && steps[n][i].next_t_us == 0 && ids.contains(
                (steps[n][i].channel, steps[n][i].id),
            ),
    decreases n,
{
    if n > 0 {
        lemma_added_once(channels, ids, before, steps, n - 1);
        let was = steps[n - 1];
        let now = steps[n];
        let pair = ids[n - 1];
        assert(bus::is_entry_added(channels, was, now, pair.0, pair.1));
        assert forall|i: int| 0 <= i < was.len() implies #[trigger] now[i] == was[i] by {
            if bus::entry_index(was, pair.0, pair.1, 0) < 0 {
                assert(now.drop_last()[i] == was[i]);
            }
        }
        assert forall|k: int| 0 <= k < n implies exists|i: int|
            0 <= i < now.len() && (#[trigger] now[i]).channel == (#[trigger] ids[k]).0 && now[i].id
                == ids[k].1 by {
            if k < n - 1 {
                let i = choose|i: int|
                    0 <= i < was.len() && (#[trigger] was[i]).channel == ids[k].0 && was[i].id
                        == ids[k].1;
                assert(now[i] == was[i]);
            } else if bus::entry_index(was, pair.0, pair.1, 0) < 0 {
                assert(now[now.len() - 1].channel == pair.0);
            } else {
                lemma_found(was, pair.0, pair.1, 0);
                let i = bus::entry_index(was, pair.0, pair.1, 0);
                assert(now[i].channel == pair.0);
            }
        }
        assert forall|i: int| before.len() <= i < now.len() implies !(#[trigger] now[i]).active
            && now[i].next_t_us == 0 && ids.contains((now[i].channel, now[i].id)) by {
            if i < was.len() {
                assert(now[i] == was[i]);
            } else {
                assert(ids[n - 1] == (now[i].channel, now[i].id));
            }
        }
        assert forall|i: int| 0 <= i < before.len() implies #[trigger] now[i] == before[i] by {
            assert(now[i] == was[i]);
        }
    }
}

proof fn lemma_found(list: Seq<TxMsg>, ch: u8, id: u32, from: int)
    requires
        0 <= from,
        bus::entry_index(list, ch, id, from) >= 0,
    ensures
        ({
            let i = bus::entry_index(list, ch, id, from);
            0 <= i < list.len() && list[i].channel == ch && list[i].id == id
        }),
    decreases list.len() - from,
{
    if from < list.len() && !(list[from].channel == ch && list[from].id == id) {
        lemma_found(list, ch, id, from + 1);
    }
}

/// Adding entries keeps those that are there, each in its place and as it is, gives every
/// named message an entry, and every new entry is off and for a named message.
pub proof fn law_added_entries_leave_the_others(
    channels: Seq<Channel>,
    ids: Seq<(u8, u32)>,
    before: Seq<TxMsg>,
    after: Seq<TxMsg>,
    k: int,
) -> (at: int)
    requires
        bus::are_added(channels, ids, before, after),
        0 <= k < ids.len(),
    ensures
        before.len() <= after.len(),
        forall|i: int| 0 <= i < before.len() ==> #[trigger] after[i] == before[i],
        0 <= at < after.len(),
        after[at].channel == ids[k].0,
        after[at].id == ids[k].1,
        forall|i: int|
            before.len() <= i < after.len() ==> !(#[trigger] after[i]).active && ids.contains(
                (after[i].channel, after[i].id),
            ),
{
    let steps = choose|steps: Seq<Seq<TxMsg>>|
        #[trigger] bus::are_additions(channels, ids, before, steps) && after == steps.last();
    lemma_added_once(channels, ids, before, steps, ids.len() as int);
    let at = choose|i: int|
        0 <= i < after.len() && (#[trigger] after[i]).channel == ids[k].0 && after[i].id
            == ids[k].1;
    at
}

/// A load puts the files' table on its bus and no other, keeps every entry, and where no
/// file gave a table leaves entries and nodes alone.
pub proof fn law_a_load_serves_its_bus(
    core: BusCore,
    after: BusCore,
    ch: usize,
    r: LoadedFiles,
    status: Seq<char>,
    ok: bool,
    j: int,
)
    requires
        core.is_load_applied(after, ch, r, status, ok),
        ch < core.channels@.len(),
        ch <= 255,
    ensures
        ok == r.table is Some,
        channel::table_on(after.channels@, ch as u8) == r.table,
        after.channels@[ch as int].name == core.channels@[ch as int].name,
        after.channels@[ch as int].node_roles == core.channels@[ch as int].node_roles,
        0 <= j < core.channels@.len() && j != ch ==> after.channels@[j] == core.channels@[j],
        !ok ==> after.tx_list == core.tx_list && after.nodes == core.nodes,
        0 <= j < core.tx_list@.len() ==> j < after.tx_list@.len() && after.tx_list@[j]
            == core.tx_list@[j],
        after.trace == core.trace,
        after.measuring == core.measuring,
{
    if ok && 0 <= j < core.tx_list@.len() {
        let was = core.channels@[ch as int];
        let ids = bus_channels::simulated_ids(
            was.node_roles@,
            r.table->0,
            ch as u8,
            was.node_roles@.len() as int,
        );
        let steps = choose|steps: Seq<Seq<TxMsg>>| #[trigger]
            bus::are_additions(after.channels@, ids, core.tx_list@, steps) && after.tx_list@
                == steps.last();
        lemma_added_once(after.channels@, ids, core.tx_list@, steps, ids.len() as int);
        assert(steps[ids.len() as int][j] == core.tx_list@[j]);
    }
}

/// Unbound nodes of a bus are bound to the first node of its database. Bound nodes and the
/// nodes of other buses stay as they are, and no node loses its script.
pub proof fn law_unbound_nodes_find_a_home(
    nodes: Seq<ScriptNode>,
    ch: usize,
    table: Option<SymbolTable>,
    k: int,
)
    requires
        0 <= k < nodes.len(),
        ch <= 255,
    ensures
        ({
            let r = bus_channels::hosted(nodes, ch, table);
            &&& r.len() == nodes.len()
            &&& r[k].source == nodes[k].source
            &&& r[k].id == nodes[k].id
            &&& r[k].enabled == nodes[k].enabled
            &&& nodes[k].attached is Some || nodes[k].channel != ch ==> r[k] == nodes[k]
            &&& table is None ==> r == nodes
            &&& nodes[k].channel == ch && nodes[k].attached is None && table is Some
                && table->0.nodes@.len() > 0 ==> r[k].attached == Some((ch as u8, table->0.nodes@[0]))
        }),
{
}

/// Every message that a simulated node sends is among the ids that a load gives entries.
pub proof fn law_simulated_nodes_send_their_messages(
    roles: Seq<RoleEntry>,
    table: SymbolTable,
    ch: u8,
    n: int,
    k: int,
    id: u32,
)
    requires
        0 <= k < n <= roles.len(),
        roles[k].role == NodeRole::Simulated,
        table.sent_by(roles[k].node@, table.order@.len() as int).contains(id),
    ensures
        bus_channels::simulated_ids(roles, table, ch, n).contains((ch, id)),
    decreases n,
{
    let now = bus_channels::simulated_ids(roles, table, ch, n);
    let before = bus_channels::simulated_ids(roles, table, ch, n - 1);
    if k < n - 1 {
        law_simulated_nodes_send_their_messages(roles, table, ch, n - 1, k, id);
        let i = choose|i: int| 0 <= i < before.len() && before[i] == (ch, id);
        assert(now[i] == (ch, id));
    } else {
        let sent = table.sent_by(roles[k].node@, table.order@.len() as int);
        let i = choose|i: int| 0 <= i < sent.len() && sent[i] == id;
        assert(bus::on_bus(ch, sent)[i] == (ch, id));
        assert(now[before.len() + i] == (ch, id));
    }
}

/// Declaring a role changes that node's role on that bus and no other; no entry is switched
/// on or off, and an absent node keeps its entries as they are.
pub proof fn law_a_role_is_declared(
    core: BusCore,
    after: BusCore,
    ch: u8,
    node: Seq<char>,
    role: NodeRole,
    texts: (Seq<char>, Seq<char>),
    other: Seq<char>,
    j: int,
)
    requires
        core.is_role_set(after, ch, node, role, texts.0, texts.1),
        ch < core.channels@.len(),
    ensures
        channel::role_in(after.channels@[ch as int].node_roles@, node) == role,
        other != node ==> channel::role_in(after.channels@[ch as int].node_roles@, other)
            == channel::role_in(core.channels@[ch as int].node_roles@, other),
        after.channels@[ch as int].name == core.channels@[ch as int].name,
        after.channels@[ch as int].dbc == core.channels@[ch as int].dbc,
        0 <= j < core.channels@.len() && j != ch ==> after.channels@[j] == core.channels@[j],
        role == NodeRole::Absent ==> after.tx_list == core.tx_list,
        0 <= j < core.tx_list@.len() ==> j < after.tx_list@.len() && {
            let was = core.tx_list@[j];
            let now = after.tx_list@[j];
            &&& now.active == was.active
            &&& now.id == was.id
            &&& now.channel == was.channel
            &&& now.data == was.data
            &&& now.cycle_us == was.cycle_us
            &&& now.next_t_us == was.next_t_us || now.next_t_us == core.sim_t_us && was.active
            &&& role == NodeRole::Simulated && was.channel == ch && was.node@ == node && was.active
                ==> now.next_t_us == core.sim_t_us
        },
{
    let now = after.channels@[ch as int];
    assert(channel::is_declared(
        core.channels@[ch as int].node_roles@,
        now.node_roles@,
        node,
        role,
    ));
    if role == NodeRole::Simulated && 0 <= j < core.tx_list@.len() {
        let ids = bus_channels::sent_on(core.channels@, ch, node);
        let pairs = bus::on_bus(ch, ids);
        let added = choose|added: Seq<TxMsg>|
            {
                &&& #[trigger] bus::are_added(after.channels@, pairs, core.tx_list@, added)
                &&& after.tx_list@ == bus_channels::anchored(added, ch, node, ids, core.sim_t_us)
            };
        assert(bus::are_added(after.channels@, pairs, core.tx_list@, added));
        let steps = choose|steps: Seq<Seq<TxMsg>>| #[trigger]
            bus::are_additions(after.channels@, pairs, core.tx_list@, steps) && added
                == steps.last();
        lemma_added_once(after.channels@, pairs, core.tx_list@, steps, pairs.len() as int);
        assert(steps[pairs.len() as int][j] == core.tx_list@[j]);
    }
}

/// What stands on a lower bus than the removed one stays in place; what stands on a higher
/// one moves down by one; what stands on it goes. Entries keep bytes, period and schedule.
pub proof fn law_entries_follow_their_bus(list: Seq<TxMsg>, gone: usize, n: int, k: int)
    requires
        0 <= k < n <= list.len(),
    ensures
        ({
            let r = bus_channels::remaining_entries(list, gone, n);
            &&& list[k].channel < gone ==> r.contains(list[k])
            &&& list[k].channel > gone ==> r.contains(
                TxMsg { channel: (list[k].channel - 1) as u8, ..list[k] },
            )
            &&& r.len() <= n
            &&& (forall|i: int| 0 <= i < n ==> (#[trigger] list[i]).channel == gone) ==> r.len()
                == 0
            &&& (forall|i: int| 0 <= i < n ==> (#[trigger] list[i]).channel != gone) ==> r.len()
                == n
        }),
    decreases n,
{
    let now = bus_channels::remaining_entries(list, gone, n);
    let before = bus_channels::remaining_entries(list, gone, n - 1);
    let moved = TxMsg { channel: (list[k].channel - 1) as u8, ..list[k] };
    if n > 1 {
        law_entries_follow_their_bus(
            list,
            gone,
            n - 1,
            if k < n - 1 {
                k
            } else {
                0
            },
        );
    }
    if k < n - 1 {
        if list[k].channel < gone {
            let i = choose|i: int| 0 <= i < before.len() && before[i] == list[k];
            assert(now[i] == list[k]);
        }
        if list[k].channel > gone {
            let i = choose|i: int| 0 <= i < before.len() && before[i] == moved;
            assert(now[i] == moved);
        }
    } else {
        if list[k].channel < gone {
            assert(now[now.len() - 1] == list[k]);
        }
        if list[k].channel > gone {
            assert(now[now.len() - 1] == moved);
        }
    }
    if forall|i: int| 0 <= i < n ==> (#[trigger] list[i]).channel == gone {
        assert(list[n - 1].channel == gone);
    }
    if forall|i: int| 0 <= i < n ==> (#[trigger] list[i]).channel != gone {
        assert(list[n - 1].channel != gone);
    }
}

/// The frames of a trace follow their buses in the same way, and keep their order, times and
/// bytes.
pub proof fn law_frames_follow_their_bus(frames: Seq<CanFrame>, gone: usize, n: int, k: int)
    requires
        0 <= k < n <= frames.len(),
    ensures
        ({
            let r = trace::remapped_frames(frames, gone, n);
            &&& frames[k].channel < gone ==> r.contains(frames[k])
            &&& frames[k].channel > gone ==> r.contains(
                CanFrame { channel: (frames[k].channel - 1) as u8, ..frames[k] },
            )
            &&& (forall|i: int| 0 <= i < n ==> (#[trigger] frames[i]).channel == gone) ==> r.len()
                == 0
            &&& (forall|i: int| 0 <= i < n ==> (#[trigger] frames[i]).channel < gone) ==> r
                == frames.subrange(0, n)
        }),
    decreases n,
{
    let now = trace::remapped_frames(frames, gone, n);
    let before = trace::remapped_frames(frames, gone, n - 1);
    let moved = CanFrame { channel: (frames[k].channel - 1) as u8, ..frames[k] };
    if n > 1 {
        law_frames_follow_their_bus(
            frames,
            gone,
            n - 1,
            if k < n - 1 {
                k
            } else {
                0
            },
        );
    } else {
        assert(frames.subrange(0, 0) =~= before);
    }
    if k < n - 1 {
        if frames[k].channel < gone {
            let i = choose|i: int| 0 <= i < before.len() && before[i] == frames[k];
            assert(now[i] == frames[k]);
        }
        if frames[k].channel > gone {
            let i = choose|i: int| 0 <= i < before.len() && before[i] == moved;
            assert(now[i] == moved);
        }
    } else {
        if frames[k].channel < gone {
            assert(now[now.len() - 1] == frames[k]);
        }
        if frames[k].channel > gone {
            assert(now[now.len() - 1] == moved);
        }
    }
    if forall|i: int| 0 <= i < n ==> (#[trigger] frames[i]).channel == gone {
        assert(frames[n - 1].channel == gone);
    }
    if forall|i: int| 0 <= i < n ==> (#[trigger] frames[i]).channel < gone {
        assert(frames[n - 1].channel < gone);
        assert(frames.subrange(0, n) =~= frames.subrange(0, n - 1).push(frames[n - 1]));
    }
}

/// A script node follows its bus with its script; a binding to a node of the removed bus is
/// dropped.
pub proof fn law_nodes_follow_their_bus(nodes: Seq<ScriptNode>, gone: usize, n: int)
    requires
        0 <= n <= nodes.len(),
    ensures
        forall|a: int|
            0 <= a < bus_channels::remaining_nodes(nodes, gone, n).len() ==> exists|i: int|
                0 <= i < n && follows(
                    #[trigger] nodes[i],
                    #[trigger] bus_channels::remaining_nodes(nodes, gone, n)[a],
                    gone,
                ),
        (forall|i: int| 0 <= i < n ==> (#[trigger] nodes[i]).channel != gone)
            ==> bus_channels::remaining_nodes(nodes, gone, n).len() == n,
    decreases n,
{
    if n > 0 {
        law_nodes_follow_their_bus(nodes, gone, n - 1);
        let now = bus_channels::remaining_nodes(nodes, gone, n);
        let before = bus_channels::remaining_nodes(nodes, gone, n - 1);
        assert forall|a: int| 0 <= a < now.len() implies exists|i: int|
            0 <= i < n && follows(#[trigger] nodes[i], #[trigger] now[a], gone) by {
            if a < before.len() {
                assert(now[a] == before[a]);
                let i = choose|i: int|
                    0 <= i < n - 1 && follows(#[trigger] nodes[i], before[a], gone);
                assert(follows(nodes[i], now[a], gone));
            } else {
                assert(follows(nodes[n - 1], now[a], gone));
            }
        }
        if forall|i: int| 0 <= i < n ==> (#[trigger] nodes[i]).channel != gone {
            assert(nodes[n - 1].channel != gone);
        }
    }
}

/// `now` is the node `was` after the bus `gone` is removed.
pub open spec fn follows(was: ScriptNode, now: ScriptNode, gone: usize) -> bool {
    &&& was.channel != gone
    &&& was.channel < gone ==> now.channel == was.channel
    &&& was.channel > gone ==> now.channel == was.channel - 1
    &&& now.id == was.id
    &&& now.source == was.source
    &&& now.enabled == was.enabled
    &&& now.name == was.name
    &&& was.attached is None ==> now.attached is None
    &&& (was.attached matches Some(a) && a.0 == gone) ==> now.attached is None
    &&& (was.attached matches Some(a) && a.0 < gone) ==> now.attached == was.attached
}

/// A rule goes with a bus that it watches or sends on. Another keeps what it watches for,
/// its switch and its count.
pub proof fn law_rules_go_with_their_bus(t: Trigger, gone: u8)
    ensures
        t.cond.bus_spec() == Some(gone) ==> t.needs_bus(gone),
        t.action.target() == Some(gone) ==> t.needs_bus(gone),
        t.cond.bus_spec() is None && t.action.target() is None ==> !t.needs_bus(gone)
            && t.shifted(gone) == t,
        t.cond.bus_spec() matches Some(c) && c < gone ==> t.shifted(gone).cond == t.cond,
        t.cond.bus_spec() matches Some(c) && c > gone ==> t.shifted(gone).cond.bus_spec() == Some(
            (t.cond.bus_spec()->0 - 1) as u8,
        ),
        t.shifted(gone).fired == t.fired,
        t.shifted(gone).enabled == t.enabled,
        t.shifted(gone).level == t.level,
{
}

/// Once a bus is removed, the others close ranks with their names and databases; the last
/// bus of all is never removed.
pub proof fn law_the_other_buses_stay(
    core: BusCore,
    after: BusCore,
    ch: usize,
    texts: (Seq<char>, Seq<char>),
    j: int,
)
    requires
        core.is_channel_removed(after, ch, texts.0, texts.1),
    ensures
        core.channels@.len() <= 1 ==> after == core,
        ch >= core.channels@.len() ==> after == core,
        core.channels@.len() > 1 && ch < core.channels@.len() ==> {
            &&& after.channels@.len() == core.channels@.len() - 1
            &&& 0 <= j < ch ==> after.channels@[j] == core.channels@[j]
            &&& ch < j < core.channels@.len() ==> after.channels@[j - 1] == core.channels@[j]
            &&& after.published_trace@ == after.trace@
            &&& after.sysvars == core.sysvars
            &&& after.measuring == core.measuring
            &&& after.sim_t_us == core.sim_t_us
        },
{
}

/// A block that is added stands last, is disabled and holds nothing yet, with the settings
/// that were given. The blocks before it stay.
pub proof fn law_a_new_block_waits(
    core: BusCore,
    after: BusCore,
    cfg: BlockCfg,
    status: Seq<char>,
    j: int,
)
    requires
        core.is_block_added(after, cfg, status),
    ensures
        after.replay_blocks@.len() == core.replay_blocks@.len() + 1,
        ({
            let b = after.replay_blocks@.last();
            &&& !b.enabled
            &&& b.queue@.len() == 0
            &&& b.name == cfg.name
            &&& b.channel == cfg.channel
            &&& b.path == cfg.path
            &&& b.ids == cfg.ids
            &&& b.node_filter == cfg.node_filter
        }),
        0 <= j < core.replay_blocks@.len() ==> after.replay_blocks@[j] == core.replay_blocks@[j],
{
    if 0 <= j < core.replay_blocks@.len() {
        assert(after.replay_blocks@.drop_last()[j] == core.replay_blocks@[j]);
    }
}

/// Block `k` is the first of that number.
pub open spec fn is_block(blocks: Seq<ReplayBlock>, id: u64, k: int) -> bool {
    &&& 0 <= k < blocks.len()
    &&& blocks[k].id == id
    &&& forall|i: int| 0 <= i < k ==> (#[trigger] blocks[i]).id != id
}

proof fn lemma_block(blocks: Seq<ReplayBlock>, id: u64, from: int, k: int)
    requires
        is_block(blocks, id, k),
        0 <= from <= k,
    ensures
        bus_nodes::block_index(blocks, id, from) == k,
    decreases k - from,
{
    if from < k {
        assert(blocks[from].id != id);
        lemma_block(blocks, id, from + 1, k);
    }
}

/// A block is switched as told, and the others stay. Switched off it keeps its queue;
/// switched on it starts over, and one whose log could not be loaded says so and stays off.
pub proof fn law_a_block_is_switched(
    core: BusCore,
    after: BusCore,
    id: u64,
    on: bool,
    log: LogRead,
    texts: (Seq<char>, Seq<char>),
    k: int,
    j: int,
)
    requires
        core.is_block_toggled(after, id, on, log, texts.0, texts.1),
        is_block(core.replay_blocks@, id, k),
    ensures
        after.replay_blocks@.len() == core.replay_blocks@.len(),
        on ==> after.replay_blocks@[k].enabled == after.replay_blocks@[k].last_error is None,
        on ==> after.replay_blocks@[k].cursor == 0 && after.replay_blocks@[k].anchor_us
            == core.sim_t_us,
        !on ==> !after.replay_blocks@[k].enabled,
        after.replay_blocks@[k].id == id,
        after.replay_blocks@[k].channel == core.replay_blocks@[k].channel,
        after.replay_blocks@[k].path == core.replay_blocks@[k].path,
        !on ==> after.replay_blocks@[k].queue == core.replay_blocks@[k].queue,
        0 <= j < core.replay_blocks@.len() && j != k ==> after.replay_blocks@[j]
            == core.replay_blocks@[j],
        after.tx_list == core.tx_list,
{
    lemma_block(core.replay_blocks@, id, 0, k);
}

/// Dropping a block drops the blocks of that number and no others.
pub proof fn law_a_dropped_block_is_gone(blocks: Seq<ReplayBlock>, id: u64, n: int, b: ReplayBlock)
    requires
        0 <= n <= blocks.len(),
    ensures
        bus_nodes::without_block(blocks, id, n).contains(b) == (b.id != id && blocks.subrange(
            0,
            n,
        ).contains(b)),
    decreases n,
{
    if n > 0 {
        law_a_dropped_block_is_gone(blocks, id, n - 1, b);
        let now = bus_nodes::without_block(blocks, id, n);
        let before = bus_nodes::without_block(blocks, id, n - 1);
        let short = blocks.subrange(0, n - 1);
        let long = blocks.subrange(0, n);
        assert(long =~= short.push(blocks[n - 1]));
        if before.contains(b) {
            let i = choose|i: int| 0 <= i < before.len() && before[i] == b;
            assert(now[i] == b);
        }
        if short.contains(b) {
            let i = choose|i: int| 0 <= i < short.len() && short[i] == b;
            assert(long[i] == b);
        }
        if blocks[n - 1] == b {
            assert(long[n - 1] == b);
            if b.id != id {
                assert(now[now.len() - 1] == b);
            }
        }
        if now.contains(b) {
            let i = choose|i: int| 0 <= i < now.len() && now[i] == b;
            if i < before.len() {
                assert(before[i] == b);
            }
        }
        if long.contains(b) {
            let i = choose|i: int| 0 <= i < long.len() && long[i] == b;
            if i < n - 1 {
                assert(short[i] == b);
            }
        }
    }
}

/// A script node that is added stands last with the next number, enabled and without a
/// script. It is started at once just where the bus measures.
pub proof fn law_a_new_node_joins(
    core: BusCore,
    after: BusCore,
    name: String,
    ch: u8,
    attached: Option<(u8, String)>,
    actions: Seq<BusAction>,
    j: int,
)
    requires
        core.is_node_added(after, name, ch, attached, actions),
        core.node_counter < u64::MAX,
    ensures
        after.nodes@.len() == core.nodes@.len() + 1,
        ({
            let n = after.nodes@.last();
            &&& n.id == core.node_counter + 1
            &&& n.name == name
            &&& n.enabled
            &&& n.source@.len() == 0
            &&& !n.running
            &&& attached is None ==> n.channel == ch
            &&& attached matches Some(a) ==> n.channel == a.0
            &&& n.attached == attached
            &&& core.measuring ==> actions.len() == 1 && actions[0] == BusAction::StartNode(n.id)
            &&& !core.measuring ==> actions.len() == 0
        }),
        0 <= j < core.nodes@.len() ==> after.nodes@[j] == core.nodes@[j],
{
    if 0 <= j < core.nodes@.len() {
        assert(after.nodes@.drop_last()[j] == core.nodes@[j]);
    }
}

/// Node `k` is the first of that number.
pub open spec fn is_node(nodes: Seq<ScriptNode>, id: u64, k: int) -> bool {
    &&& 0 <= k < nodes.len()
    &&& nodes[k].id == id
    &&& forall|i: int| 0 <= i < k ==> (#[trigger] nodes[i]).id != id
}

proof fn lemma_node(nodes: Seq<ScriptNode>, id: u64, from: int, k: int)
    requires
        is_node(nodes, id, k),
        0 <= from <= k,
    ensures
        bus_types::node_index(nodes, id, from) == k,
    decreases k - from,
{
    if from < k {
        assert(nodes[from].id != id);
        lemma_node(nodes, id, from + 1, k);
    }
}

/// A node is switched as told and started or stopped with it while the bus measures; its
/// script is replaced as given, and a running, enabled one starts anew. Other nodes stay.
pub proof fn law_a_node_is_edited(
    core: BusCore,
    after: BusCore,
    id: u64,
    on: bool,
    source: String,
    name: String,
    actions: Seq<BusAction>,
    k: int,
    j: int,
)
    requires
        is_node(core.nodes@, id, k),
    ensures
        core.is_node_enabled(after, id, on, actions) ==> {
            &&& after.nodes@[k].enabled == on
            &&& after.nodes@[k].source == core.nodes@[k].source
            &&& core.measuring && on ==> actions.len() == 1 && actions[0] == BusAction::StartNode(
                id,
            )
            &&& core.measuring && !on ==> actions.len() == 1 && actions[0] == BusAction::StopNode(
                id,
            )
            &&& !core.measuring ==> actions.len() == 0
            &&& 0 <= j < core.nodes@.len() && j != k ==> after.nodes@[j] == core.nodes@[j]
        },
        core.is_source_set(after, id, source, actions) ==> {
            &&& after.nodes@[k].source == source
            &&& after.nodes@[k].enabled == core.nodes@[k].enabled
            &&& core.measuring && core.nodes@[k].enabled ==> actions.len() == 1 && actions[0]
                == BusAction::StartNode(id)
            &&& !core.measuring || !core.nodes@[k].enabled ==> actions.len() == 0
            &&& 0 <= j < core.nodes@.len() && j != k ==> after.nodes@[j] == core.nodes@[j]
        },
        core.is_node_renamed(after, id, name) ==> {
            &&& after.nodes@[k].name == name
            &&& after.nodes@[k].source == core.nodes@[k].source
            &&& 0 <= j < core.nodes@.len() && j != k ==> after.nodes@[j] == core.nodes@[j]
        },
{
    lemma_node(core.nodes@, id, 0, k);
}

/// An adapter that opened is attached to its bus with what it was opened with, and may send
/// just where it was opened in full; one that failed changes no attachment.
pub proof fn law_hardware_is_attached_as_opened(
    core: BusCore,
    after: BusCore,
    bus: u8,
    driver: HwDriver,
    adapter: i32,
    kbps: u32,
    fd_kbps: Option<u32>,
    opened: HwOpen,
    status: Seq<char>,
    other: u64,
)
    requires
        core.is_hardware_set(after, bus, driver, adapter, kbps, fd_kbps, opened, status),
    ensures
        opened is Failed ==> after.hw.buses@ == core.hw.buses@,
        !(opened is Failed) ==> {
            let k = bus_types::bus_key(bus);
            let b = after.hw.buses@[k];
            &&& after.hw.buses@.dom().contains(k)
            &&& b.adapter == adapter
            &&& b.driver == driver
            &&& b.kbps == kbps
            &&& b.can_tx == opened is Full
            &&& other != k ==> after.hw.buses@.dom().contains(other)
                == core.hw.buses@.dom().contains(other) && (core.hw.buses@.dom().contains(other)
                ==> after.hw.buses@[other] == core.hw.buses@[other])
        },
        after.hw.live == core.hw.live,
        after.channels == core.channels,
{
}

/// A further database adds what only it declares: its nodes behind those that are there, the
/// labels of its own messages, and nothing is taken away.
pub proof fn law_a_further_database_only_adds(
    before: SymbolTable,
    extra: SymbolTable,
    after: SymbolTable,
    k: int,
)
    requires
        dbc_merge::is_absorbed(before, extra, after),
    ensures
        0 <= k < before.nodes@.len() ==> k < after.nodes@.len() && after.nodes@[k]
            == before.nodes@[k],
        0 <= k < extra.nodes@.len() ==> text::lists(after.nodes@, extra.nodes@[k]@),
        0 <= k < before.value_tables@.len() ==> k < after.value_tables@.len()
            && after.value_tables@[k] == before.value_tables@[k],
        0 <= k < extra.value_tables@.len() && !before.messages@.contains_key(
            extra.value_tables@[k].id,
        ) ==> after.value_tables@.contains(extra.value_tables@[k]),
        forall|i: int|
            before.value_tables@.len() <= i < after.value_tables@.len()
                ==> !before.messages@.contains_key((#[trigger] after.value_tables@[i]).id),
{
    lemma_new_names(before.nodes@, extra.nodes@, extra.nodes@.len() as int);
    let more = dbc_merge::new_names(before.nodes@, extra.nodes@, extra.nodes@.len() as int);
    if 0 <= k < extra.nodes@.len() {
        if text::lists(before.nodes@, extra.nodes@[k]@) {
            let i = choose|i: int|
                0 <= i < before.nodes@.len() && #[trigger] before.nodes@[i]@ == extra.nodes@[k]@;
            assert(after.nodes@[i]@ == extra.nodes@[k]@);
        } else {
            assert(text::lists(more, extra.nodes@[k]@));
            let i = choose|i: int|
                0 <= i < more.len() && #[trigger] more[i]@ == extra.nodes@[k]@;
            assert(after.nodes@[before.nodes@.len() + i]@ == extra.nodes@[k]@);
        }
    }
    lemma_new_tables(before, extra.value_tables@, extra.value_tables@.len() as int);
    let tables = dbc_merge::new_tables(
        before,
        extra.value_tables@,
        extra.value_tables@.len() as int,
    );
    if 0 <= k < extra.value_tables@.len() && !before.messages@.contains_key(
        extra.value_tables@[k].id,
    ) {
        let i = choose|i: int| 0 <= i < tables.len() && tables[i] == extra.value_tables@[k];
        assert(tables.contains(extra.value_tables@[k]));
        assert(after.value_tables@[before.value_tables@.len() + i] == extra.value_tables@[k]);
    }
    assert forall|i: int|
        before.value_tables@.len() <= i
            < after.value_tables@.len() implies !before.messages@.contains_key(
        (#[trigger] after.value_tables@[i]).id,
    ) by {
        assert(after.value_tables@[i] == tables[i - before.value_tables@.len()]);
    }
}

proof fn lemma_new_names(have: Seq<String>, names: Seq<String>, n: int)
    requires
        0 <= n <= names.len(),
    ensures
        forall|k: int|
            0 <= k < n ==> text::lists(have, #[trigger] names[k]@) || text::lists(
                dbc_merge::new_names(have, names, n),
                names[k]@,
            ),
    decreases n,
{
    if n > 0 {
        lemma_new_names(have, names, n - 1);
        let now = dbc_merge::new_names(have, names, n);
        let before = dbc_merge::new_names(have, names, n - 1);
        assert forall|k: int| 0 <= k < n implies text::lists(have, #[trigger] names[k]@)
            || text::lists(now, names[k]@) by {
            if text::lists(before, names[k]@) {
                let i = choose|i: int| 0 <= i < before.len() && #[trigger] before[i]@ == names[k]@;
                assert(now[i]@ == names[k]@);
            } else if k == n - 1 && !text::lists(have, names[k]@) {
                assert(now[now.len() - 1]@ == names[k]@);
            }
        }
    }
}

proof fn lemma_new_tables(t: SymbolTable, tables: Seq<ValueTable>, n: int)
    requires
        0 <= n <= tables.len(),
    ensures
        forall|k: int|
            0 <= k < n && !t.messages@.contains_key((#[trigger] tables[k]).id)
                ==> dbc_merge::new_tables(t, tables, n).contains(tables[k]),
        forall|a: int|
            0 <= a < dbc_merge::new_tables(t, tables, n).len() ==> !t.messages@.contains_key(
                (#[trigger] dbc_merge::new_tables(t, tables, n)[a]).id,
            ),
    decreases n,
{
    if n > 0 {
        lemma_new_tables(t, tables, n - 1);
        let now = dbc_merge::new_tables(t, tables, n);
        let before = dbc_merge::new_tables(t, tables, n - 1);
        assert forall|k: int|
            0 <= k < n && !t.messages@.contains_key((#[trigger] tables[k]).id) implies now.contains(
            tables[k],
        ) by {
            if k < n - 1 {
                let i = choose|i: int| 0 <= i < before.len() && before[i] == tables[k];
                assert(before.contains(tables[k]));
                assert(now[i] == tables[k]);
            } else {
                assert(now[now.len() - 1] == tables[k]);
            }
        }
        assert forall|a: int| 0 <= a < now.len() implies !t.messages@.contains_key(
            (#[trigger] now[a]).id,
        ) by {
            if a < before.len() {
                assert(now[a] == before[a]);
            }
        }
    }
}

/// The buses that are loaded anew are just those with a changed file, in their order.
pub proof fn law_changed_buses_are_found(
    core: BusCore,
    files: Seq<Vec<Result<dbc_merge::FileText, String>>>,
    n: int,
    k: int,
)
    requires
        0 <= n <= core.channels@.len(),
        core.channels@.len() <= usize::MAX,
    ensures
        0 <= k < n ==> bus_reload::changed_buses(core, files, n).contains(k as usize)
            == bus_view::is_changed(core.channels@[k], files[k]@),
        forall|a: int|
            0 <= a < bus_reload::changed_buses(core, files, n).len() ==> (
            #[trigger] bus_reload::changed_buses(core, files, n)[a]) < n,
    decreases n,
{
    if n > 0 {
        law_changed_buses_are_found(core, files, n - 1, k);
        let now = bus_reload::changed_buses(core, files, n);
        let before = bus_reload::changed_buses(core, files, n - 1);
        if 0 <= k < n {
            if before.contains(k as usize) {
                let a = choose|a: int| 0 <= a < before.len() && before[a] == k as usize;
                assert(before[a] < n - 1);
                assert(now[a] == k as usize);
            }
            if k == n - 1 && bus_view::is_changed(core.channels@[k], files[k]@) {
                assert(now[now.len() - 1] == k as usize);
            }
            if now.contains(k as usize) {
                let a = choose|a: int| 0 <= a < now.len() && now[a] == k as usize;
                if a < before.len() {
                    assert(before[a] == k as usize);
                    assert(before[a] < n - 1);
                }
            }
        }
    }
}

/// What an adapter heard stays out of a replay; in a simulation it comes behind what is
/// replayed.
pub proof fn law_adapters_are_silent_in_a_replay(
    core: BusCore,
    replayed: Seq<trace::FrRow>,
    watched: Seq<trace::FrRow>,
)
    ensures
        core.mode == Mode::Replay ==> core.heard_rows(replayed, watched) == replayed,
        core.mode == Mode::Virtual ==> core.heard_rows(replayed, watched).len() == replayed.len()
            + watched.len() && core.heard_rows(replayed, watched).subrange(
            0,
            replayed.len() as int,
        ) == replayed,
{
    if core.mode == Mode::Virtual {
        assert(core.heard_rows(replayed, watched).subrange(0, replayed.len() as int)
            =~= replayed);
    }
}

} // verus!
