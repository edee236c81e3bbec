//! One CAN bus: user identity, its databases, the declared node roles and the
//! bitrates that the load view divides wire bits by.

use std::sync::Arc;
use vstd::prelude::*;
use vstd::string::*;
use crate::dbc::SymbolTable;
use crate::text;

verus! {

/// Who plays a database node. A node without a declaration is absent.
#[derive(Clone, Copy, Debug, PartialEq, Eq, Structural)]
pub enum NodeRole {
    /// This tool transmits the node's traffic.
    Simulated,
    Absent,
}

/// The role declared for one node.
pub struct RoleEntry {
    pub node: String,
    pub role: NodeRole,
}

pub const DEFAULT_BITRATE_KBPS: u32 = 500;

pub const DEFAULT_FD_DATA_KBPS: u32 = 2000;

/// One CAN bus.
pub struct Channel {
    pub name: String,
    /// The merged database of every path in `dbc_paths`.
    pub dbc: Option<Arc<SymbolTable>>,
    /// The primary path first, then the extra databases of this bus. On duplicate
    /// message ids the earlier database wins.
    pub dbc_paths: Vec<String>,
    /// Content checksums of the files, for noticing edits from outside.
    pub dbc_sums: Vec<u64>,
    /// Declared roles, in the order of the node names, each name once.
    pub node_roles: Vec<RoleEntry>,
    /// Arbitration bitrate in kbit/s: a declaration about the bus being analysed,
    /// not a device setting.
    pub bitrate_kbps: u32,
    /// CAN FD data-phase bitrate in kbit/s, applied to BRS frames only.
    pub fd_data_kbps: u32,
}

/// The names stand in order, each once.
pub open spec fn roles_sorted(roles: Seq<RoleEntry>) -> bool {
    forall|i: int, j: int|
        0 <= i < j < roles.len() ==> text::text_less(
            (#[trigger] roles[i]).node@,
            (#[trigger] roles[j]).node@,
        )
}

/// The role declared for a node; every node without an entry is absent.
pub open spec fn role_in(roles: Seq<RoleEntry>, node: Seq<char>) -> NodeRole
    decreases roles.len(),
{
    if roles.len() == 0 {
        NodeRole::Absent
    } else if roles[0].node@ == node {
        roles[0].role
    } else {
        role_in(roles.drop_first(), node)
    }
}

/// Looks up the role declared for a node.
pub fn find_role(roles: &Vec<RoleEntry>, node: &str) -> (r: NodeRole)
    ensures
        r == role_in(roles@, node@),
{
    assert(roles@.subrange(0, roles@.len() as int) =~= roles@);
    for i in 0..roles.len()
        invariant
            role_in(roles@, node@) == role_in(
                roles@.subrange(i as int, roles@.len() as int),
                node@,
            ),
    {
        let ghost rest = roles@.subrange(i as int, roles@.len() as int);
        assert(rest.drop_first() =~= roles@.subrange(i + 1, roles@.len() as int));
        if text::same_text(roles[i].node.as_str(), node) {
            return roles[i].role;
        }
    }
    NodeRole::Absent
}

/// A role that is listed is the one that is looked up.
proof fn lemma_role_at(roles: Seq<RoleEntry>, k: int)
    requires
        0 <= k < roles.len(),
        forall|i: int| 0 <= i < k ==> (#[trigger] roles[i]).node@ != roles[k].node@,
    ensures
        role_in(roles, roles[k].node@) == roles[k].role,
    decreases roles.len(),
{
    if k > 0 {
        assert(roles[0].node@ != roles[k].node@);
        let rest = roles.drop_first();
        assert forall|i: int| 0 <= i < k - 1 implies (#[trigger] rest[i]).node@ != rest[k - 1].node@ by {
            assert(rest[i] == roles[i + 1]);
        }
        lemma_role_at(rest, k - 1);
    }
}

/// The list with the role declared for the node.
pub open spec fn is_declared(
    before: Seq<RoleEntry>,
    after: Seq<RoleEntry>,
    node: Seq<char>,
    role: NodeRole,
) -> bool {
    &&& roles_sorted(after)
    &&& role_in(after, node) == role
    &&& forall|other: Seq<char>| other != node ==> #[trigger] role_in(after, other) == role_in(
        before,
        other,
    )
}

proof fn lemma_insert_role(before: Seq<RoleEntry>, k: int, e: RoleEntry, other: Seq<char>)
    requires
        0 <= k <= before.len(),
        other != e.node@,
    ensures
        role_in(before.insert(k, e), other) == role_in(before, other),
    decreases before.len(),
{
    let after = before.insert(k, e);
    if k == 0 {
        assert(after.drop_first() =~= before);
    } else {
        assert(after[0] == before[0]);
        assert(after.drop_first() =~= before.drop_first().insert(k - 1, e));
        lemma_insert_role(before.drop_first(), k - 1, e, other);
    }
}

proof fn lemma_update_role(before: Seq<RoleEntry>, k: int, e: RoleEntry, other: Seq<char>)
    requires
        0 <= k < before.len(),
        before[k].node@ == e.node@,
        other != e.node@,
    ensures
        role_in(before.update(k, e), other) == role_in(before, other),
    decreases before.len(),
{
    let after = before.update(k, e);
    if k == 0 {
        assert(after.drop_first() =~= before.drop_first());
    } else {
        assert(after[0] == before[0]);
        assert(after.drop_first() =~= before.drop_first().update(k - 1, e));
        lemma_update_role(before.drop_first(), k - 1, e, other);
    }
}

/// Declares a node's role; what other nodes are declared stays.
pub fn declare_role(roles: &mut Vec<RoleEntry>, node: &str, role: NodeRole)
    requires
        roles_sorted(old(roles)@),
    ensures
        is_declared(old(roles)@, final(roles)@, node@, role),
{
    let ghost before = roles@;
    let mut k: usize = 0;
    while k < roles.len() && text::comes_before(roles[k].node.as_str(), node)
        invariant
            roles@ == before,
            k <= before.len(),
            forall|i: int| 0 <= i < k ==> text::text_less((#[trigger] before[i]).node@, node@),
        decreases before.len() - k,
    {
        k = k + 1;
    }
    proof {
        assert forall|i: int| 0 <= i < k implies (#[trigger] before[i]).node@ != node@ by {
            text::lemma_text_order(before[i].node@, node@);
        }
    }
    let entry: RoleEntry = RoleEntry { node: node.to_owned(), role };
    let ghost e = entry;
    if k < roles.len() && text::same_text(roles[k].node.as_str(), node) {
        roles.set(k, entry);
        proof {
            let after = before.update(k as int, e);
            assert(roles@ =~= after);
            assert forall|i: int, j: int| 0 <= i < j < after.len() implies text::text_less(
                (#[trigger] after[i]).node@,
                (#[trigger] after[j]).node@,
            ) by {
                assert(text::text_less(before[i].node@, before[j].node@));
            }
            assert forall|i: int| 0 <= i < k implies (#[trigger] after[i]).node@
                != after[k as int].node@ by {
                assert(after[i] == before[i]);
            }
            lemma_role_at(after, k as int);
            assert forall|other: Seq<char>| other != node@ implies #[trigger] role_in(after, other)
                == role_in(before, other) by {
                lemma_update_role(before, k as int, e, other);
            }
        }
    } else {
        roles.insert(k, entry);
        proof {
            let after = before.insert(k as int, e);
            assert(roles@ =~= after);
            if k < before.len() {
                text::lemma_text_order(before[k as int].node@, node@);
            }
            assert forall|i: int, j: int| 0 <= i < j < after.len() implies text::text_less(
                (#[trigger] after[i]).node@,
                (#[trigger] after[j]).node@,
            ) by {
                let bi = if i < k { i } else { i - 1 };
                let bj = if j < k { j } else { j - 1 };
                if i != k && j != k {
                    assert(text::text_less(before[bi].node@, before[bj].node@));
                } else if j == k {
                    assert(text::text_less(before[i].node@, node@));
                } else {
                    if bj > k {
                        assert(text::text_less(before[k as int].node@, before[bj].node@));
                        text::lemma_text_order_transitive(
                            node@,
                            before[k as int].node@,
                            before[bj].node@,
                        );
                    }
                }
            }
            assert forall|i: int| 0 <= i < k implies (#[trigger] after[i]).node@
                != after[k as int].node@ by {
                assert(after[i] == before[i]);
            }
            lemma_role_at(after, k as int);
            assert forall|other: Seq<char>| other != node@ implies #[trigger] role_in(after, other)
                == role_in(before, other) by {
                lemma_insert_role(before, k as int, e, other);
            }
        }
    }
}

/// The lists declare the same, entry for entry.
pub open spec fn same_roles(a: Seq<RoleEntry>, b: Seq<RoleEntry>) -> bool {
    &&& a.len() == b.len()
    &&& forall|i: int|
        0 <= i < a.len() ==> (#[trigger] a[i]).node@ == b[i].node@ && a[i].role == b[i].role
}

pub fn copy_roles(roles: &Vec<RoleEntry>) -> (r: Vec<RoleEntry>)
    ensures
        same_roles(r@, roles@),
        r@ =~= roles@,
{
    let mut r: Vec<RoleEntry> = Vec::new();
    for i in 0..roles.len()
        invariant
            r@ == roles@.subrange(0, i as int),
    {
        r.push(RoleEntry { node: roles[i].node.clone(), role: roles[i].role });
    }
    assert(r@ =~= roles@);
    r
}

/// Another handle to a shared value: `Arc::clone`. The handle reads what the
/// first one reads.
#[verifier::external_body]
pub(crate) fn share<T>(a: &Arc<T>) -> (r: Arc<T>)
    ensures
        r == *a,
{
    Arc::clone(a)
}

/// Another handle to a bus's database, where it has one.
pub fn share_table(t: &Option<Arc<SymbolTable>>) -> (r: Option<Arc<SymbolTable>>)
    ensures
        r == *t,
{
    match t {
        Some(a) => Some(share(a)),
        None => None,
    }
}

impl Channel {
    pub open spec fn wf(self) -> bool {
        roles_sorted(self.node_roles@)
    }

    /// The bus simulates the node.
    pub open spec fn simulates(self, node: Seq<char>) -> bool {
        role_in(self.node_roles@, node) == NodeRole::Simulated
    }

    /// The role declared for a node.
    pub fn role_of(&self, node: &str) -> (r: NodeRole)
        ensures
            r == role_in(self.node_roles@, node@),
    {
        find_role(&self.node_roles, node)
    }
}

/// The database of a bus, where there is such a bus and it has one.
pub open spec fn table_on(channels: Seq<Channel>, ch: u8) -> Option<SymbolTable> {
    if ch < channels.len() {
        match channels[ch as int].dbc {
            Some(t) => Some(*t),
            None => None,
        }
    } else {
        None
    }
}

/// The database of a bus.
pub fn channel_dbc(channels: &Vec<Channel>, ch: u8) -> (r: Option<&SymbolTable>)
    ensures
        r is Some == table_on(channels@, ch) is Some,
        r is Some ==> *r->0 == table_on(channels@, ch)->0,
{
    if (ch as usize) < channels.len() {
        match &channels[ch as usize].dbc {
            Some(t) => Some(t),
            None => None,
        }
    } else {
        None
    }
}

/// How a bus index reads after the bus `gone` is removed; the removed bus's own
/// index reads as nothing.
pub open spec fn remapped(c: u8, gone: usize) -> Option<u8> {
    if c < gone {
        Some(c)
    } else if c == gone {
        None
    } else {
        Some((c - 1) as u8)
    }
}

/// The index of a bus after another is removed.
pub fn remap(c: u8, gone: usize) -> (r: Option<u8>)
    ensures
        r == remapped(c, gone),
{
    if (c as usize) < gone {
        Some(c)
    } else if (c as usize) == gone {
        None
    } else {
        Some(c - 1)
    }
}

/// An index that outlives a removal names the same bus as before.
pub proof fn law_remap_names_same_bus(channels: Seq<Channel>, gone: usize, c: u8)
    requires
        gone < channels.len(),
        c < channels.len(),
        c != gone,
    ensures
        remapped(c, gone) is Some,
        remapped(c, gone)->0 < channels.remove(gone as int).len(),
        channels.remove(gone as int)[remapped(c, gone)->0 as int] == channels[c as int],
{
}

/// Two indices that outlive a removal stay different.
pub proof fn law_remap_keeps_apart(gone: usize, a: u8, b: u8)
    requires
        remapped(a, gone) is Some,
        remapped(a, gone) == remapped(b, gone),
    ensures
        a == b,
{
}

/// The display name of a bus: its own, or one made of its number.
pub open spec fn bus_name(channels: Seq<Channel>, ch: u8) -> Seq<char> {
    if ch < channels.len() {
        channels[ch as int].name@
    } else {
        "CAN"@ + text::decimal(ch + 1)
    }
}

pub fn channel_name(channels: &Vec<Channel>, ch: u8) -> (r: String)
    ensures
        r@ == bus_name(channels@, ch),
{
    if (ch as usize) < channels.len() {
        channels[ch as usize].name.clone()
    } else {
        numbered_bus(ch as u64 + 1)
    }
}

/// `CAN` and a number.
pub fn numbered_bus(n: u64) -> (r: String)
    ensures
        r@ == "CAN"@ + text::decimal(n as int),
{
    let mut s: String = "CAN".to_owned();
    text::push_u64(&mut s, n);
    s
}

} // verus!
