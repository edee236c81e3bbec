//! The buses of the core: adding, removing, configuring, and their databases and
//! node roles.

use std::sync::Arc;
use vstd::prelude::*;
use vstd::string::*;
use crate::aggregate;
use crate::block::ReplayBlock;
use crate::bus;
use crate::bus::{add_entries, BusCore, BusLoad};
use crate::bus_types::ScriptNode;
use crate::channel;
use crate::channel::{declare_role, Channel, NodeRole, RoleEntry};
use crate::dbc::SymbolTable;
use crate::dbc_merge;
use crate::dbc_merge::{read_files, FileText, LoadedFiles};
use crate::generator::TxMsg;
use crate::observers;
use crate::table;
use crate::text;
use crate::trace;
use crate::triggers;
use crate::triggers::Trigger;

verus! {

/// The role that the last entry of the first `n` declares for a node.
pub open spec fn last_role(list: Seq<RoleEntry>, node: Seq<char>, n: int) -> NodeRole
    decreases n,
{
    if n <= 0 {
        NodeRole::Absent
    } else if list[n - 1].node@ == node {
        list[n - 1].role
    } else {
        last_role(list, node, n - 1)
    }
}

/// The sorted list declares what the entries declare, a later entry for a node
/// replacing an earlier one.
pub open spec fn is_role_map(list: Seq<RoleEntry>, roles: Seq<RoleEntry>) -> bool {
    &&& channel::roles_sorted(roles)
    &&& forall|node: Seq<char>| #[trigger]
        channel::role_in(roles, node) == last_role(list, node, list.len() as int)
}

/// Sorts role declarations by node.
pub fn role_map(list: &Vec<RoleEntry>) -> (roles: Vec<RoleEntry>)
    ensures
        is_role_map(list@, roles@),
{
    let mut roles: Vec<RoleEntry> = Vec::new();
    for i in 0..list.len()
        invariant
            channel::roles_sorted(roles@),
            forall|node: Seq<char>| #[trigger]
                channel::role_in(roles@, node) == last_role(list@, node, i as int),
    {
        let ghost before = roles@;
        declare_role(&mut roles, list[i].node.as_str(), list[i].role);
        assert forall|node: Seq<char>| #[trigger] channel::role_in(roles@, node) == last_role(
            list@,
            node,
            i + 1,
        ) by {
            if node != list@[i as int].node@ {
                assert(channel::role_in(roles@, node) == channel::role_in(before, node));
            }
        }
    }
    roles
}

/// The ids that the bus's simulated nodes send, node after node.
pub open spec fn simulated_ids(
    roles: Seq<RoleEntry>,
    table: SymbolTable,
    ch: u8,
    n: int,
) -> Seq<(u8, u32)>
    decreases n,
{
    if n <= 0 {
        Seq::empty()
    } else {
        let before = simulated_ids(roles, table, ch, n - 1);
        if roles[n - 1].role == NodeRole::Simulated {
            before + bus::on_bus(
                ch,
                table.sent_by(roles[n - 1].node@, table.order@.len() as int),
            )
        } else {
            before
        }
    }
}

fn ids_of_simulated(roles: &Vec<RoleEntry>, table: &SymbolTable, ch: u8) -> (r: Vec<(u8, u32)>)
    ensures
        r@ == simulated_ids(roles@, *table, ch, roles@.len() as int),
{
    let mut r: Vec<(u8, u32)> = Vec::new();
    for i in 0..roles.len()
        invariant
            r@ == simulated_ids(roles@, *table, ch, i as int),
    {
        match roles[i].role {
            NodeRole::Simulated => {
                let ids: Vec<u32> = table.node_tx_ids(roles[i].node.as_str());
                let mut more: Vec<(u8, u32)> = bus::pair_with_bus(ch, &ids);
                r.append(&mut more);
            },
            NodeRole::Absent => {},
        }
    }
    r
}

/// The script nodes with every unbound one of the bus bound to a database node.
pub open spec fn adopted(nodes: Seq<ScriptNode>, ch: usize, first: String) -> Seq<ScriptNode> {
    Seq::new(
        nodes.len(),
        |i: int|
            if nodes[i].channel == ch && nodes[i].attached is None {
                ScriptNode { attached: Some((ch as u8, first)), ..nodes[i] }
            } else {
                nodes[i]
            },
    )
}

/// Some script node of the bus is unbound.
pub open spec fn has_orphan(nodes: Seq<ScriptNode>, ch: usize) -> bool {
    exists|i: int|
        0 <= i < nodes.len() && (#[trigger] nodes[i]).channel == ch && nodes[i].attached is None
}

/// The script nodes once the bus's database can host the unbound ones.
pub open spec fn hosted(nodes: Seq<ScriptNode>, ch: usize, table: Option<SymbolTable>) -> Seq<
    ScriptNode,
> {
    match table {
        Some(t) => if t.nodes@.len() > 0 {
            adopted(nodes, ch, t.nodes@[0])
        } else {
            nodes
        },
        None => nodes,
    }
}

/// The database of a bus by its position.
pub open spec fn table_at(channels: Seq<Channel>, ch: int) -> Option<SymbolTable> {
    if 0 <= ch < channels.len() {
        match channels[ch].dbc {
            Some(t) => Some(*t),
            None => None,
        }
    } else {
        None
    }
}

/// The script nodes once every one of the first `n` buses hosts its own.
pub open spec fn all_hosted(nodes: Seq<ScriptNode>, channels: Seq<Channel>, n: int) -> Seq<
    ScriptNode,
>
    decreases n,
{
    if n <= 0 {
        nodes
    } else {
        hosted(all_hosted(nodes, channels, n - 1), (n - 1) as usize, table_at(channels, n - 1))
    }
}

/// Binds every unbound script node on the bus to the database's first node.
/// Returns whether there was one.
pub fn adopt_orphans(nodes: &mut Vec<ScriptNode>, ch: usize, table: Option<&SymbolTable>) -> (r:
    bool)
    ensures
        final(nodes)@ == hosted(
            old(nodes)@,
            ch,
            match table {
                Some(t) => Some(*t),
                None => None,
            },
        ),
        r == (table is Some && (table->0).nodes@.len() > 0 && has_orphan(old(nodes)@, ch)),
{
    let first: &String = match table {
        Some(t) => if t.nodes.len() > 0 {
            &t.nodes[0]
        } else {
            return false;
        },
        None => {
            return false;
        },
    };
    #[verifier::truncate]
    let bus: u8 = ch as u8;
    let mut changed: bool = false;
    let total: usize = nodes.len();
    for i in 0..total
        invariant
            total == old(nodes)@.len(),
            nodes@.len() == total,
            bus == ch as u8,
            changed == exists|k: int|
                0 <= k < i && (#[trigger] old(nodes)@[k]).channel == ch
                    && old(nodes)@[k].attached is None,
            forall|k: int| 0 <= k < i ==> nodes@[k] == adopted(old(nodes)@, ch, *first)[k],
            forall|k: int| i <= k < total ==> nodes@[k] == old(nodes)@[k],
    {
        assert(nodes@[i as int] == old(nodes)@[i as int]);
        if nodes[i].channel as usize == ch && nodes[i].attached.is_none() {
            let n: &mut ScriptNode = &mut nodes[i];
            n.attached = Some((bus, first.clone()));
            changed = true;
        }
    }
    assert(nodes@ =~= adopted(old(nodes)@, ch, *first));
    changed
}

/// The status line after a load.
pub open spec fn load_status(name: Seq<char>, r: LoadedFiles) -> Seq<char> {
    match (r.table, dbc_merge::read_text(r.first_error)) {
        (None, Some(e)) => name + " DBC error: "@ + e,
        (None, None) => name + " DBC error: no database file"@,
        (Some(_), Some(e)) => name + " DBC partial: "@ + text::decimal(r.files as int)
            + " file(s), "@ + text::decimal(r.messages as int) + " messages ("@ + e + ")"@,
        (Some(_), None) => name + " DBC loaded: "@ + text::decimal(r.messages as int)
            + " messages"@,
    }
}

fn load_line(name: &str, r: &LoadedFiles) -> (s: String)
    ensures
        s@ == load_status(name@, *r),
{
    let mut s: String = name.to_owned();
    match (&r.table, &r.first_error) {
        (None, Some(e)) => {
            s.append(" DBC error: ");
            s.append(e.as_str());
        },
        (None, None) => {
            s.append(" DBC error: no database file");
        },
        (Some(_), Some(e)) => {
            s.append(" DBC partial: ");
            text::push_u64(&mut s, r.files as u64);
            s.append(" file(s), ");
            text::push_u64(&mut s, r.messages);
            s.append(" messages (");
            s.append(e.as_str());
            s.append(")");
        },
        (Some(_), None) => {
            s.append(" DBC loaded: ");
            text::push_u64(&mut s, r.messages);
            s.append(" messages");
        },
    }
    s
}

/// Every path of the list is blank.
pub open spec fn all_blank(paths: Seq<String>) -> bool {
    forall|i: int| 0 <= i < paths.len() ==> dbc_merge::is_blank(#[trigger] paths[i]@)
}

fn no_path(paths: &Vec<String>) -> (r: bool)
    ensures
        r == all_blank(paths@),
{
    for i in 0..paths.len()
        invariant
            forall|k: int| 0 <= k < i ==> dbc_merge::is_blank(#[trigger] paths@[k]@),
    {
        if text::trim_chars(paths[i].as_str()).len() != 0 {
            assert(!dbc_merge::is_blank(paths@[i as int]@));
            return false;
        }
    }
    true
}

/// The entries that outlive the removal of a bus.
pub open spec fn remaining_entries(list: Seq<TxMsg>, gone: usize, n: int) -> Seq<TxMsg>
    decreases n,
{
    if n <= 0 {
        Seq::empty()
    } else {
        let before = remaining_entries(list, gone, n - 1);
        match channel::remapped(list[n - 1].channel, gone) {
            Some(c) => before.push(TxMsg { channel: c, ..list[n - 1] }),
            None => before,
        }
    }
}

/// A binding to a database node after a bus is removed.
pub open spec fn rebound(b: Option<(u8, String)>, gone: usize) -> Option<(u8, String)> {
    match b {
        Some(p) => match channel::remapped(p.0, gone) {
            Some(c) => Some((c, p.1)),
            None => None,
        },
        None => None,
    }
}

fn rebind(b: Option<(u8, String)>, gone: usize) -> (r: Option<(u8, String)>)
    ensures
        r == rebound(b, gone),
{
    match b {
        Some(p) => match channel::remap(p.0, gone) {
            Some(c) => Some((c, p.1)),
            None => None,
        },
        None => None,
    }
}

/// The script nodes that outlive the removal of a bus.
pub open spec fn remaining_nodes(nodes: Seq<ScriptNode>, gone: usize, n: int) -> Seq<ScriptNode>
    decreases n,
{
    if n <= 0 {
        Seq::empty()
    } else {
        let before = remaining_nodes(nodes, gone, n - 1);
        match channel::remapped(nodes[n - 1].channel, gone) {
            Some(c) => before.push(
                ScriptNode {
                    channel: c,
                    attached: rebound(nodes[n - 1].attached, gone),
                    ..nodes[n - 1]
                },
            ),
            None => before,
        }
    }
}

/// The replay blocks that outlive the removal of a bus.
pub open spec fn remaining_blocks(blocks: Seq<ReplayBlock>, gone: usize, n: int) -> Seq<
    ReplayBlock,
>
    decreases n,
{
    if n <= 0 {
        Seq::empty()
    } else {
        let before = remaining_blocks(blocks, gone, n - 1);
        match channel::remapped(blocks[n - 1].channel, gone) {
            Some(c) => before.push(
                ReplayBlock {
                    channel: c,
                    attached: rebound(blocks[n - 1].attached, gone),
                    ..blocks[n - 1]
                },
            ),
            None => before,
        }
    }
}

/// The send-now requests that outlive the removal of a bus.
pub open spec fn remaining_requests(list: Seq<(u8, u32)>, gone: usize, n: int) -> Seq<(u8, u32)>
    decreases n,
{
    if n <= 0 {
        Seq::empty()
    } else {
        let before = remaining_requests(list, gone, n - 1);
        match channel::remapped(list[n - 1].0, gone) {
            Some(c) => before.push((c, list[n - 1].1)),
            None => before,
        }
    }
}

fn keep_entries(list: Vec<TxMsg>, gone: usize) -> (r: Vec<TxMsg>)
    requires
        bus::entries_fit(list@),
    ensures
        bus::entries_fit(r@),
        r@ == remaining_entries(list@, gone, list@.len() as int),
{
    let ghost all = list@;
    let mut kept: Vec<TxMsg> = Vec::new();
    for t in it: list
        invariant
            it.seq() == all,
            bus::entries_fit(all),
            bus::entries_fit(kept@),
            kept@ == remaining_entries(all, gone, it.index() as int),
    {
        assert(t == all[it.index() as int]);
        match channel::remap(t.channel, gone) {
            Some(c) => {
                let mut moved: TxMsg = t;
                moved.channel = c;
                kept.push(moved);
            },
            None => {},
        }
    }
    kept
}

fn keep_nodes(list: Vec<ScriptNode>, gone: usize) -> (r: Vec<ScriptNode>)
    ensures
        r@ == remaining_nodes(list@, gone, list@.len() as int),
{
    let ghost all = list@;
    let mut kept: Vec<ScriptNode> = Vec::new();
    for t in it: list
        invariant
            it.seq() == all,
            kept@ == remaining_nodes(all, gone, it.index() as int),
    {
        match channel::remap(t.channel, gone) {
            Some(c) => {
                let moved: ScriptNode = ScriptNode {
                    id: t.id,
                    name: t.name,
                    channel: c,
                    source: t.source,
                    enabled: t.enabled,
                    file_path: t.file_path,
                    attached: rebind(t.attached, gone),
                    sysvar_keys: t.sysvar_keys,
                    running: t.running,
                    errored: t.errored,
                    log: t.log,
                };
                kept.push(moved);
            },
            None => {},
        }
    }
    kept
}

fn keep_blocks(list: Vec<ReplayBlock>, gone: usize) -> (r: Vec<ReplayBlock>)
    requires
        forall|i: int| 0 <= i < list@.len() ==> (#[trigger] list@[i]).wf(),
    ensures
        forall|i: int| 0 <= i < r@.len() ==> (#[trigger] r@[i]).wf(),
        r@ == remaining_blocks(list@, gone, list@.len() as int),
{
    let ghost all = list@;
    let mut kept: Vec<ReplayBlock> = Vec::new();
    for t in it: list
        invariant
            it.seq() == all,
            forall|i: int| 0 <= i < all.len() ==> (#[trigger] all[i]).wf(),
            forall|i: int| 0 <= i < kept@.len() ==> (#[trigger] kept@[i]).wf(),
            kept@ == remaining_blocks(all, gone, it.index() as int),
    {
        assert(all[it.index() as int].wf());
        match channel::remap(t.channel, gone) {
            Some(c) => {
                let moved: ReplayBlock = ReplayBlock {
                    id: t.id,
                    name: t.name,
                    channel: c,
                    path: t.path,
                    node_filter: t.node_filter,
                    attached: rebind(t.attached, gone),
                    ids: t.ids,
                    enabled: t.enabled,
                    last_error: t.last_error,
                    queue: t.queue,
                    cursor: t.cursor,
                    anchor_us: t.anchor_us,
                };
                kept.push(moved);
            },
            None => {},
        }
    }
    kept
}

fn keep_requests(list: &Vec<(u8, u32)>, gone: usize) -> (r: Vec<(u8, u32)>)
    ensures
        r@ == remaining_requests(list@, gone, list@.len() as int),
{
    let mut kept: Vec<(u8, u32)> = Vec::new();
    for i in 0..list.len()
        invariant
            kept@ == remaining_requests(list@, gone, i as int),
    {
        match channel::remap(list[i].0, gone) {
            Some(c) => {
                kept.push((c, list[i].1));
            },
            None => {},
        }
    }
    kept
}

/// The entries of a node that is being simulated: those of the messages it sends,
/// and those stamped with its name.
pub open spec fn belongs(t: TxMsg, ch: u8, node: Seq<char>, ids: Seq<u32>) -> bool {
    t.channel == ch && (ids.contains(t.id) || t.node@ == node)
}

/// The entry list with a simulated node's running entries anchored at the clock.
pub open spec fn anchored(
    list: Seq<TxMsg>,
    ch: u8,
    node: Seq<char>,
    ids: Seq<u32>,
    now: u64,
) -> Seq<TxMsg> {
    Seq::new(
        list.len(),
        |i: int|
            if belongs(list[i], ch, node, ids) && list[i].active {
                TxMsg { next_t_us: now, ..list[i] }
            } else {
                list[i]
            },
    )
}

fn id_in(ids: &Vec<u32>, id: u32) -> (r: bool)
    ensures
        r == ids@.contains(id),
{
    for i in 0..ids.len()
        invariant
            forall|k: int| 0 <= k < i ==> ids@[k] != id,
    {
        if ids[i] == id {
            return true;
        }
    }
    false
}

fn anchor(list: &mut Vec<TxMsg>, ch: u8, node: &str, ids: &Vec<u32>, now: u64)
    requires
        bus::entries_fit(old(list)@),
    ensures
        bus::entries_fit(final(list)@),
        final(list)@ == anchored(old(list)@, ch, node@, ids@, now),
{
    let total: usize = list.len();
    for i in 0..total
        invariant
            total == old(list)@.len(),
            list@.len() == total,
            bus::entries_fit(old(list)@),
            forall|k: int|
                0 <= k < i ==> list@[k] == anchored(old(list)@, ch, node@, ids@, now)[k],
            forall|k: int| i <= k < total ==> list@[k] == old(list)@[k],
    {
        assert(list@[i as int] == old(list)@[i as int]);
        let mine: bool = list[i].channel == ch && (id_in(ids, list[i].id) || text::same_text(
            list[i].node.as_str(),
            node,
        ));
        if mine && list[i].active {
            let t: &mut TxMsg = &mut list[i];
            t.next_t_us = now;
        }
    }
    assert(list@ =~= anchored(old(list)@, ch, node@, ids@, now));
    assert forall|i: int| 0 <= i < list@.len() implies (#[trigger] list@[i]).len <= 64
        && list@[i].last_len <= 64 by {
        assert(old(list)@[i].len <= 64);
    }
}

/// The status line of a role change.
pub open spec fn role_status(role: NodeRole, node: Seq<char>, bus: Seq<char>, n: int) -> Seq<char> {
    match role {
        NodeRole::Simulated => "simulating "@ + node + " on "@ + bus + " ("@ + text::decimal(n)
            + " message(s), 条目按各自开关发车)"@,
        NodeRole::Absent => node + " offline from "@ + bus,
    }
}

fn role_line(role: NodeRole, node: &str, bus: &str, n: u64) -> (s: String)
    ensures
        s@ == role_status(role, node@, bus@, n as int),
{
    match role {
        NodeRole::Simulated => {
            let mut s: String = "simulating ".to_owned();
            s.append(node);
            s.append(" on ");
            s.append(bus);
            s.append(" (");
            text::push_u64(&mut s, n);
            s.append(" message(s), 条目按各自开关发车)");
            s
        },
        NodeRole::Absent => {
            let mut s: String = node.to_owned();
            s.append(" offline from ");
            s.append(bus);
            s
        },
    }
}

fn removed_line(name: &str) -> (s: String)
    ensures
        s@ == name@ + " removed"@,
{
    let mut s: String = name.to_owned();
    s.append(" removed");
    s
}

/// The ids that a node sends on a bus.
pub open spec fn sent_on(channels: Seq<Channel>, ch: u8, node: Seq<char>) -> Seq<u32> {
    match channel::table_on(channels, ch) {
        Some(t) => t.sent_by(node, t.order@.len() as int),
        None => Seq::empty(),
    }
}

impl BusCore {
    /// Static declarations of a bus are changed where they are given.
    pub open spec fn is_channel_configured(
        self,
        after: BusCore,
        ch: u8,
        name: Option<String>,
        dbc_path: Option<String>,
        bitrate_kbps: Option<u32>,
        fd_data_kbps: Option<u32>,
        node_roles: Option<Vec<RoleEntry>>,
    ) -> bool {
        if ch >= self.channels@.len() {
            after == self
        } else {
            let was = self.channels@[ch as int];
            let now = after.channels@[ch as int];
            &&& after.channels@ == self.channels@.update(ch as int, now)
            &&& now.name == (match name {
                Some(n) => n,
                None => was.name,
            })
            &&& now.dbc_paths@ == (match dbc_path {
                Some(p) => if was.dbc_paths@.len() == 0 {
                    seq![p]
                } else {
                    was.dbc_paths@.update(0, p)
                },
                None => was.dbc_paths@,
            })
            &&& now.bitrate_kbps == (match bitrate_kbps {
                Some(k) => if k >= 1 {
                    k
                } else {
                    1
                },
                None => was.bitrate_kbps,
            })
            &&& now.fd_data_kbps == (match fd_data_kbps {
                Some(k) => if k >= 1 {
                    k
                } else {
                    1
                },
                None => was.fd_data_kbps,
            })
            &&& match node_roles {
                Some(list) => is_role_map(list@, now.node_roles@),
                None => now.node_roles == was.node_roles,
            }
            &&& now.dbc == was.dbc
            &&& now.dbc_sums == was.dbc_sums
            &&& after.nodes_dirty == (self.nodes_dirty || node_roles is Some)
            &&& after == (BusCore {
                channels: after.channels,
                nodes_dirty: after.nodes_dirty,
                ..self
            })
        }
    }

    /// Static declarations of one bus: rename, bitrates (at least 1), the primary
    /// database path (without loading it), or the node roles wholesale.
    pub fn set_channel_config(
        &mut self,
        ch: u8,
        name: Option<String>,
        dbc_path: Option<String>,
        bitrate_kbps: Option<u32>,
        fd_data_kbps: Option<u32>,
        node_roles: Option<Vec<RoleEntry>>,
    )
        requires
            old(self).wf(),
        ensures
            final(self).wf(),
            old(self).is_channel_configured(
                *final(self),
                ch,
                name,
                dbc_path,
                bitrate_kbps,
                fd_data_kbps,
                node_roles,
            ),
    {
        if ch as usize >= self.channels.len() {
            return;
        }
        let ghost before = self.channels@;
        let c: &mut Channel = &mut self.channels[ch as usize];
        match name {
            Some(n) => {
                c.name = n;
            },
            None => {},
        }
        match dbc_path {
            Some(p) => {
                if c.dbc_paths.len() == 0 {
                    c.dbc_paths.push(p);
                    assert(c.dbc_paths@ =~= seq![p]);
                } else {
                    c.dbc_paths.set(0, p);
                }
            },
            None => {},
        }
        match bitrate_kbps {
            Some(k) => {
                c.bitrate_kbps = if k >= 1 {
                    k
                } else {
                    1
                };
            },
            None => {},
        }
        match fd_data_kbps {
            Some(k) => {
                c.fd_data_kbps = if k >= 1 {
                    k
                } else {
                    1
                };
            },
            None => {},
        }
        match node_roles {
            Some(list) => {
                c.node_roles = role_map(&list);
                self.nodes_dirty = true;
            },
            None => {},
        }
        assert(self.channels@ =~= before.update(ch as int, self.channels@[ch as int]));
        assert forall|i: int| 0 <= i < self.channels@.len() implies (
        #[trigger] self.channels@[i]).wf() by {
            assert(before[i].wf());
        }
    }

    /// The bus after its database texts were read.
    pub open spec fn is_load_applied(
        self,
        after: BusCore,
        ch: usize,
        r: LoadedFiles,
        status: Seq<char>,
        ok: bool,
    ) -> bool {
        let was = self.channels@[ch as int];
        let now = after.channels@[ch as int];
        &&& after.channels@ == self.channels@.update(ch as int, now)
        &&& now == (Channel { dbc: now.dbc, dbc_sums: now.dbc_sums, ..was })
        &&& now.dbc_sums@ == r.sums@
        &&& table_at(after.channels@, ch as int) == r.table
        &&& ok == r.table is Some
        &&& status == load_status(was.name@, r)
        &&& after.nodes_dirty == (self.nodes_dirty || ok)
        &&& if ok {
            &&& bus::are_added(
                after.channels@,
                simulated_ids(
                    was.node_roles@,
                    r.table->0,
                    ch as u8,
                    was.node_roles@.len() as int,
                ),
                self.tx_list@,
                after.tx_list@,
            )
            &&& after.nodes@ == hosted(self.nodes@, ch, r.table)
        } else {
            after.tx_list == self.tx_list && after.nodes == self.nodes
        }
        &&& after == (BusCore {
            channels: after.channels,
            nodes_dirty: after.nodes_dirty,
            tx_list: after.tx_list,
            nodes: after.nodes,
            ..self
        })
    }

    /// Loading a bus's databases: a missing bus is left alone, a bus without paths
    /// silently has no database, any other takes what its files give.
    pub open spec fn is_channel_loaded(
        self,
        after: BusCore,
        ch: usize,
        files: Seq<Result<FileText, String>>,
        status_before: Seq<char>,
        status: Seq<char>,
        ok: bool,
    ) -> bool {
        if ch >= self.channels@.len() {
            after == self && status == status_before && !ok
        } else if all_blank(self.channels@[ch as int].dbc_paths@) {
            let was = self.channels@[ch as int];
            let now = after.channels@[ch as int];
            &&& after.channels@ == self.channels@.update(ch as int, now)
            &&& now == (Channel { dbc: None, dbc_sums: now.dbc_sums, ..was })
            &&& now.dbc_sums@.len() == 0
            &&& after == (BusCore { channels: after.channels, ..self })
            &&& status == status_before
            &&& !ok
        } else {
            exists|r: LoadedFiles|
                #[trigger] r.is_of(self.channels@[ch as int].dbc_paths@, files)
                    && self.is_load_applied(after, ch, r, status, ok)
        }
    }

    /// Loads every database attached to the bus from the texts that were read of
    /// them, one for each path. Files that fail are skipped and reported; a bus
    /// whose files all fail ends up without a database. The fresh table meets the
    /// role declarations: simulated nodes get inactive entries for messages the
    /// database newly declares, and unbound scripts get a node to hang under.
    pub fn load_channel(
        &mut self,
        ch: usize,
        files: &Vec<Result<FileText, String>>,
        status: &mut String,
    ) -> (ok: bool)
        requires
            old(self).wf(),
            ch < old(self).channels@.len() ==> files@.len() == old(
                self,
            ).channels@[ch as int].dbc_paths@.len(),
        ensures
            final(self).wf(),
            old(self).is_channel_loaded(
                *final(self),
                ch,
                files@,
                old(status)@,
                final(status)@,
                ok,
            ),
    {
        if ch >= self.channels.len() {
            return false;
        }
        let ghost before = *self;
        if no_path(&self.channels[ch].dbc_paths) {
            let c: &mut Channel = &mut self.channels[ch];
            c.dbc = None;
            c.dbc_sums = Vec::new();
            assert(self.channels@ =~= before.channels@.update(
                ch as int,
                self.channels@[ch as int],
            ));
            assert forall|i: int| 0 <= i < self.channels@.len() implies (
            #[trigger] self.channels@[i]).wf() by {
                assert(before.channels@[i].wf());
            }
            return false;
        }
        let r: LoadedFiles = read_files(&self.channels[ch].dbc_paths, files);
        let line: String = load_line(self.channels[ch].name.as_str(), &r);
        let ghost made = r;
        let c: &mut Channel = &mut self.channels[ch];
        let ok: bool = match r.table {
            Some(t) => {
                c.dbc = Some(Arc::new(t));
                true
            },
            None => {
                c.dbc = None;
                false
            },
        };
        c.dbc_sums = r.sums;
        assert(self.channels@ =~= before.channels@.update(ch as int, self.channels@[ch as int]));
        assert forall|i: int| 0 <= i < self.channels@.len() implies (
        #[trigger] self.channels@[i]).wf() by {
            assert(before.channels@[i].wf());
        }
        if ok {
            #[verifier::truncate]
            let bus: u8 = ch as u8;
            self.nodes_dirty = true;
            let mut ids: Vec<(u8, u32)> = Vec::new();
            match &self.channels[ch].dbc {
                Some(t) => {
                    ids = ids_of_simulated(&self.channels[ch].node_roles, t, bus);
                    adopt_orphans(&mut self.nodes, ch, Some(t));
                },
                None => {},
            }
            add_entries(&self.channels, &mut self.tx_list, &ids);
        }
        *status = line;
        assert(table_at(self.channels@, ch as int) == made.table);
        assert(before.is_load_applied(*self, ch, made, status@, ok));
        ok
    }

    /// The bus's path list is stored and everything is parsed in the same stroke.
    pub open spec fn is_dbc_loaded(
        self,
        after: BusCore,
        ch: u8,
        paths: Vec<String>,
        files: Seq<Result<FileText, String>>,
        status_before: Seq<char>,
        status: Seq<char>,
    ) -> bool {
        if ch >= self.channels@.len() {
            after == self && status == status_before
        } else {
            exists|mid: BusCore, ok: bool|
                {
                    &&& mid == (BusCore { channels: mid.channels, ..self })
                    &&& mid.channels@ == self.channels@.update(
                        ch as int,
                        Channel { dbc_paths: paths, ..self.channels@[ch as int] },
                    )
                    &&& #[trigger] mid.is_channel_loaded(
                        after,
                        ch as usize,
                        files,
                        status_before,
                        status,
                        ok,
                    )
                }
        }
    }

    /// Stores the bus's database paths, primary first, and loads them.
    pub fn load_dbc(
        &mut self,
        ch: u8,
        paths: Vec<String>,
        files: &Vec<Result<FileText, String>>,
        status: &mut String,
    )
        requires
            old(self).wf(),
            files@.len() == paths@.len(),
        ensures
            final(self).wf(),
            old(self).is_dbc_loaded(
                *final(self),
                ch,
                paths,
                files@,
                old(status)@,
                final(status)@,
            ),
    {
        if ch as usize >= self.channels.len() {
            return;
        }
        let ghost before = *self;
        let c: &mut Channel = &mut self.channels[ch as usize];
        c.dbc_paths = paths;
        assert(self.channels@ =~= before.channels@.update(
            ch as int,
            Channel { dbc_paths: paths, ..before.channels@[ch as int] },
        ));
        assert forall|i: int| 0 <= i < self.channels@.len() implies (
        #[trigger] self.channels@[i]).wf() by {
            assert(before.channels@[i].wf());
        }
        let ghost mid = *self;
        let ok: bool = self.load_channel(ch as usize, files, status);
        assert(mid.is_channel_loaded(
            *self,
            ch as usize,
            files@,
            old(status)@,
            status@,
            ok,
        ));
    }

    /// A new bus as it is added.
    pub open spec fn is_new_channel(c: Channel, number: int) -> bool {
        &&& c.name@ == "CAN"@ + text::decimal(number)
        &&& c.dbc is None
        &&& c.dbc_paths@.len() == 1
        &&& c.dbc_paths@[0]@ == "assets/sample.dbc"@
        &&& c.dbc_sums@.len() == 0
        &&& c.node_roles@.len() == 0
        &&& c.bitrate_kbps == channel::DEFAULT_BITRATE_KBPS
        &&& c.fd_data_kbps == channel::DEFAULT_FD_DATA_KBPS
    }

    /// The core with one more bus, before its database is loaded.
    pub open spec fn is_widened(self, mid: BusCore) -> bool {
        &&& mid.bus_counter == self.bus_counter + 1
        &&& mid.channels@.len() == self.channels@.len() + 1
        &&& mid.channels@.drop_last() == self.channels@
        &&& BusCore::is_new_channel(mid.channels@.last(), self.bus_counter + 1)
        &&& mid.bus_loads@.len() == self.bus_loads@.len() + 1
        &&& mid.bus_loads@.drop_last() == self.bus_loads@
        &&& mid.bus_loads@.last().notes@.len() == 0
        &&& mid.loads_dirty
        &&& mid == (BusCore {
            bus_counter: mid.bus_counter,
            channels: mid.channels,
            bus_loads: mid.bus_loads,
            loads_dirty: true,
            ..self
        })
    }

    /// The messages of the last bus's database.
    pub open spec fn last_messages(self) -> Seq<(u8, u32)> {
        let n = self.channels@.len() - 1;
        match table_at(self.channels@, n) {
            Some(t) => bus::on_bus(n as u8, t.order@),
            None => Seq::empty(),
        }
    }

    /// A bus is added, its sample database loaded and its generator populated.
    pub open spec fn is_channel_added(
        self,
        after: BusCore,
        files: Seq<Result<FileText, String>>,
        status_before: Seq<char>,
        status: Seq<char>,
    ) -> bool {
        exists|mid: BusCore, loaded: BusCore, ok: bool|
            {
                &&& #[trigger] self.is_widened(mid)
                &&& #[trigger] mid.is_channel_loaded(
                    loaded,
                    (mid.channels@.len() - 1) as usize,
                    files,
                    status_before,
                    status,
                    ok,
                )
                &&& bus::are_added(
                    loaded.channels@,
                    loaded.last_messages(),
                    loaded.tx_list@,
                    after.tx_list@,
                )
                &&& loaded.entries_only(after)
            }
    }

    /// Adds a bus with the sample database, loads it and pre-populates its
    /// generator. `file` is what was read of the sample database.
    pub fn add_channel(&mut self, file: Result<FileText, String>, status: &mut String)
        requires
            old(self).wf(),
            old(self).bus_counter < usize::MAX,
        ensures
            final(self).wf(),
            old(self).is_channel_added(
                *final(self),
                seq![file],
                old(status)@,
                final(status)@,
            ),
    {
        let ghost before = *self;
        self.bus_counter = self.bus_counter + 1;
        let name: String = channel::numbered_bus(self.bus_counter as u64);
        let mut paths: Vec<String> = Vec::new();
        paths.push("assets/sample.dbc".to_owned());
        self.channels.push(
            Channel {
                name,
                dbc: None,
                dbc_paths: paths,
                dbc_sums: Vec::new(),
                node_roles: Vec::new(),
                bitrate_kbps: channel::DEFAULT_BITRATE_KBPS,
                fd_data_kbps: channel::DEFAULT_FD_DATA_KBPS,
            },
        );
        self.bus_loads.push(BusLoad { notes: Vec::new() });
        self.loads_dirty = true;
        assert(self.channels@.drop_last() =~= before.channels@);
        assert(self.bus_loads@.drop_last() =~= before.bus_loads@);
        let ghost mid = *self;
        assert(before.is_widened(mid));
        assert forall|i: int| 0 <= i < self.channels@.len() implies (
        #[trigger] self.channels@[i]).wf() by {
            if i < before.channels@.len() {
                assert(before.channels@[i].wf());
                assert(self.channels@.drop_last()[i] == self.channels@[i]);
            }
        }
        let ch: usize = self.channels.len() - 1;
        let mut files: Vec<Result<FileText, String>> = Vec::new();
        files.push(file);
        assert(files@ =~= seq![file]);
        let ok: bool = self.load_channel(ch, &files, status);
        let ghost loaded = *self;
        let mut ids: Vec<(u8, u32)> = Vec::new();
        match &self.channels[ch].dbc {
            Some(t) => {
                #[verifier::truncate]
                let bus: u8 = ch as u8;
                ids = bus::pair_with_bus(bus, &t.order);
            },
            None => {},
        }
        assert(ids@ =~= loaded.last_messages());
        add_entries(&self.channels, &mut self.tx_list, &ids);
        assert(mid.is_channel_loaded(
            loaded,
            (mid.channels@.len() - 1) as usize,
            seq![file],
            old(status)@,
            status@,
            ok,
        ));
        assert(loaded.entries_only(*self));
    }

    /// The core without a bus: everything that names a bus by its index follows.
    pub open spec fn is_bus_removed(self, after: BusCore, ch: usize) -> bool {
        &&& after.channels@ == self.channels@.remove(ch as int)
        &&& after.bus_loads@ == (if ch < self.bus_loads@.len() {
            self.bus_loads@.remove(ch as int)
        } else {
            self.bus_loads@
        })
        &&& after.loads_dirty
        &&& after.aggs.items@ == aggregate::renumbered(
            table::remapped_items(
                self.aggs.items@,
                ch as u64,
                self.aggs.items@.len() as int,
            ),
        )
        &&& after.obs@.subs == observers::remaining_subs(
            self.obs@.subs,
            ch,
            self.obs@.subs.len() as int,
        )
        &&& after.obs@.streams == observers::remaining_streams(
            self.obs@.streams,
            ch,
            self.obs@.streams.len() as int,
        )
        &&& after.obs.color_counter == self.obs.color_counter
        &&& after.monitor.rows.items@ == table::remapped_items(
            self.monitor.rows.items@,
            ch as u64,
            self.monitor.rows.items@.len() as int,
        )
        &&& after.monitor.seen.items@ == table::remapped_items(
            self.monitor.seen.items@,
            ch as u64,
            self.monitor.seen.items@.len() as int,
        )
        &&& after.tx_list@ == remaining_entries(self.tx_list@, ch, self.tx_list@.len() as int)
        &&& after.injected@ == remaining_requests(
            self.injected@,
            ch,
            self.injected@.len() as int,
        )
        &&& after.hw.buses.items@ == table::remapped_items(
            self.hw.buses.items@,
            ch as u64,
            self.hw.buses.items@.len() as int,
        )
        &&& after.hw.live == self.hw.live
        &&& after.hw.fr_watch == self.hw.fr_watch
        &&& after.nodes@ == remaining_nodes(self.nodes@, ch, self.nodes@.len() as int)
        &&& after.replay_blocks@ == remaining_blocks(
            self.replay_blocks@,
            ch,
            self.replay_blocks@.len() as int,
        )
        &&& after.triggers@ == triggers::remaining(
            self.triggers@,
            ch as u8,
            self.triggers@.len() as int,
        )
        &&& after.nodes_dirty
        &&& after.trace@ == trace::remapped_frames(self.trace@, ch, self.trace@.len() as int)
        &&& after.trace.dropped == self.trace.dropped
        &&& after.published_trace@ == after.trace@
        &&& after.published_fr@ == self.fr_trace@
        &&& after == (BusCore {
            channels: after.channels,
            bus_loads: after.bus_loads,
            loads_dirty: after.loads_dirty,
            aggs: after.aggs,
            obs: after.obs,
            monitor: after.monitor,
            tx_list: after.tx_list,
            injected: after.injected,
            hw: after.hw,
            nodes: after.nodes,
            replay_blocks: after.replay_blocks,
            triggers: after.triggers,
            nodes_dirty: after.nodes_dirty,
            trace: after.trace,
            published_trace: after.published_trace,
            published_fr: after.published_fr,
            ..self
        })
    }

    /// What removing a bus does: the last bus stays, and a bus that does not
    /// exist is no bus.
    pub open spec fn is_channel_removed(
        self,
        after: BusCore,
        ch: usize,
        status_before: Seq<char>,
        status: Seq<char>,
    ) -> bool {
        if self.channels@.len() <= 1 {
            after == self && status == "at least one bus is required"@
        } else if ch >= self.channels@.len() {
            after == self && status == status_before
        } else {
            self.is_bus_removed(after, ch) && status == self.channels@[ch as int].name@
                + " removed"@
        }
    }

    /// Removes a bus and remaps every channel-indexed reference one step down.
    #[verifier::rlimit(60)]
    pub fn remove_channel(&mut self, ch: usize, status: &mut String)
        requires
            old(self).wf(),
        ensures
            final(self).wf(),
            old(self).is_channel_removed(*final(self), ch, old(status)@, final(status)@),
    {
        if self.channels.len() <= 1 {
            *status = "at least one bus is required".to_owned();
            return;
        }
        if ch >= self.channels.len() {
            return;
        }
        let ghost before = *self;
        let line: String = removed_line(self.channels[ch].name.as_str());
        self.channels.remove(ch);
        assert forall|i: int| 0 <= i < self.channels@.len() implies (
        #[trigger] self.channels@[i]).wf() by {
            assert(self.channels@[i] == before.channels@[if i < ch { i } else { i + 1 }]);
        }
        if ch < self.bus_loads.len() {
            self.bus_loads.remove(ch);
        }
        self.loads_dirty = true;
        aggregate::drop_bus(&mut self.aggs, ch);
        self.obs.drop_bus(ch);
        self.monitor.drop_channel(ch);
        let mut entries: Vec<TxMsg> = Vec::new();
        std::mem::swap(&mut entries, &mut self.tx_list);
        self.tx_list = keep_entries(entries, ch);
        self.injected = keep_requests(&self.injected, ch);
        self.hw.buses.drop_bus(ch as u64);
        let mut nodes: Vec<ScriptNode> = Vec::new();
        std::mem::swap(&mut nodes, &mut self.nodes);
        self.nodes = keep_nodes(nodes, ch);
        let mut blocks: Vec<ReplayBlock> = Vec::new();
        std::mem::swap(&mut blocks, &mut self.replay_blocks);
        self.replay_blocks = keep_blocks(blocks, ch);
        let mut rules: Vec<Trigger> = Vec::new();
        std::mem::swap(&mut rules, &mut self.triggers);
        #[verifier::truncate]
        let gone: u8 = ch as u8;
        self.triggers = triggers::drop_bus(rules, gone);
        self.nodes_dirty = true;
        self.trace.drop_bus(ch);
        self.publish_trace();
        *status = line;
    }

    /// Republishes the trace and the FlexRay rows.
    pub fn publish_trace(&mut self)
        ensures
            final(self).published_trace@ == old(self).trace@,
            final(self).published_fr@ == old(self).fr_trace@,
            *final(self) == (BusCore {
                published_trace: final(self).published_trace,
                published_fr: final(self).published_fr,
                ..*old(self)
            }),
    {
        self.published_trace = self.trace.publish();
        self.published_fr = self.fr_trace.publish();
    }

    /// A database node's role is declared. Simulating a node adds the entries it
    /// lacks and anchors its running ones at the clock; nothing is switched on or
    /// off.
    pub open spec fn is_role_set(
        self,
        after: BusCore,
        ch: u8,
        node: Seq<char>,
        role: NodeRole,
        status_before: Seq<char>,
        status: Seq<char>,
    ) -> bool {
        if ch >= self.channels@.len() {
            after == self && status == status_before
        } else {
            let was = self.channels@[ch as int];
            let now = after.channels@[ch as int];
            let ids = sent_on(self.channels@, ch, node);
            &&& after.channels@ == self.channels@.update(ch as int, now)
            &&& now == (Channel { node_roles: now.node_roles, ..was })
            &&& channel::is_declared(was.node_roles@, now.node_roles@, node, role)
            &&& match role {
                NodeRole::Simulated => exists|added: Seq<TxMsg>|
                    {
                        &&& #[trigger] bus::are_added(
                            after.channels@,
                            bus::on_bus(ch, ids),
                            self.tx_list@,
                            added,
                        )
                        &&& after.tx_list@ == anchored(added, ch, node, ids, self.sim_t_us)
                    },
                NodeRole::Absent => after.tx_list == self.tx_list,
            }
            &&& status == role_status(role, node, was.name@, ids.len() as int)
            &&& after.nodes_dirty
            &&& after == (BusCore {
                channels: after.channels,
                tx_list: after.tx_list,
                nodes_dirty: true,
                ..self
            })
        }
    }

    /// Declares a database node's role.
    pub fn set_node_role(&mut self, ch: u8, node: &str, role: NodeRole, status: &mut String)
        requires
            old(self).wf(),
        ensures
            final(self).wf(),
            old(self).is_role_set(*final(self), ch, node@, role, old(status)@, final(status)@),
    {
        if ch as usize >= self.channels.len() {
            return;
        }
        let ghost before = *self;
        let ids: Vec<u32> = match channel::channel_dbc(&self.channels, ch) {
            Some(t) => t.node_tx_ids(node),
            None => Vec::new(),
        };
        assert(ids@ =~= sent_on(before.channels@, ch, node@));
        let c: &mut Channel = &mut self.channels[ch as usize];
        declare_role(&mut c.node_roles, node, role);
        assert(self.channels@ =~= before.channels@.update(ch as int, self.channels@[ch as int]));
        assert forall|i: int| 0 <= i < self.channels@.len() implies (
        #[trigger] self.channels@[i]).wf() by {
            assert(before.channels@[i].wf());
        }
        match role {
            NodeRole::Simulated => {
                let pairs: Vec<(u8, u32)> = bus::pair_with_bus(ch, &ids);
                add_entries(&self.channels, &mut self.tx_list, &pairs);
                let ghost added = self.tx_list@;
                anchor(&mut self.tx_list, ch, node, &ids, self.sim_t_us);
                assert(bus::are_added(
                    self.channels@,
                    bus::on_bus(ch, ids@),
                    before.tx_list@,
                    added,
                ));
            },
            NodeRole::Absent => {},
        }
        *status = role_line(
            role,
            node,
            self.channels[ch as usize].name.as_str(),
            ids.len() as u64,
        );
        self.nodes_dirty = true;
    }

    /// Every bus forgets its databases; the generator and the subscriptions go
    /// with them.
    pub open spec fn is_cleared_of_databases(self, after: BusCore) -> bool {
        &&& after.channels@.len() == self.channels@.len()
        &&& forall|i: int|
            0 <= i < self.channels@.len() ==> {
                let c = #[trigger] after.channels@[i];
                &&& c.dbc is None
                &&& c.dbc_paths@.len() == 0
                &&& c == (Channel { dbc: None, dbc_paths: c.dbc_paths, ..self.channels@[i] })
            }
        &&& after.tx_list@.len() == 0
        &&& after.obs.subs@.len() == 0
        &&& after.obs.streams == self.obs.streams
        &&& after.obs.color_counter == self.obs.color_counter
        &&& after == (BusCore {
            channels: after.channels,
            tx_list: after.tx_list,
            obs: after.obs,
            ..self
        })
    }

    /// Blanks every bus's database: the bus half of a new project.
    pub fn clear_databases(&mut self)
        requires
            old(self).wf(),
        ensures
            final(self).wf(),
            old(self).is_cleared_of_databases(*final(self)),
    {
        let total: usize = self.channels.len();
        for i in 0..total
            invariant
                total == old(self).channels@.len(),
                self.channels@.len() == total,
                old(self).wf(),
                *self == (BusCore { channels: self.channels, ..*old(self) }),
                forall|k: int|
                    0 <= k < i ==> {
                        let c = #[trigger] self.channels@[k];
                        &&& c.dbc is None
                        &&& c.dbc_paths@.len() == 0
                        &&& c == (Channel {
                            dbc: None,
                            dbc_paths: c.dbc_paths,
                            ..old(self).channels@[k]
                        })
                    },
                forall|k: int| i <= k < total ==> self.channels@[k] == old(self).channels@[k],
        {
            let c: &mut Channel = &mut self.channels[i];
            c.dbc_paths = Vec::new();
            c.dbc = None;
        }
        self.tx_list = Vec::new();
        self.obs.subs = Vec::new();
        assert forall|i: int| 0 <= i < self.channels@.len() implies (
        #[trigger] self.channels@[i]).wf() by {
            assert(old(self).channels@[i].wf());
        }
    }
}

/// Removing a bus and its entries leaves no entry on an index that no longer
/// exists, where there was none before.
pub proof fn law_no_entry_left_behind(list: Seq<TxMsg>, gone: usize, buses: int, n: int)
    requires
        0 <= n <= list.len(),
        gone < buses,
        forall|i: int| 0 <= i < list.len() ==> (#[trigger] list[i]).channel < buses,
    ensures
        forall|i: int|
            0 <= i < remaining_entries(list, gone, n).len() ==> (#[trigger] remaining_entries(
                list,
                gone,
                n,
            )[i]).channel < buses - 1,
    decreases n,
{
    if n > 0 {
        law_no_entry_left_behind(list, gone, buses, n - 1);
        assert(list[n - 1].channel < buses);
        let before = remaining_entries(list, gone, n - 1);
        let after = remaining_entries(list, gone, n);
        assert forall|i: int| 0 <= i < after.len() implies (#[trigger] after[i]).channel < buses
            - 1 by {
            if i < before.len() {
                assert(after[i] == before[i]);
            }
        }
    }
}

/// A role change never switches an entry on or off, nor touches its payload,
/// period or waveforms.
pub proof fn law_roles_keep_entries(
    list: Seq<TxMsg>,
    ch: u8,
    node: Seq<char>,
    ids: Seq<u32>,
    now: u64,
    i: int,
)
    requires
        0 <= i < list.len(),
    ensures
        ({
            let t = anchored(list, ch, node, ids, now)[i];
            &&& t.active == list[i].active
            &&& t.cycle_us == list[i].cycle_us
            &&& t.data == list[i].data
            &&& t.srcs == list[i].srcs
        }),
{
}

} // verus!
