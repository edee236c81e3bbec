//! A map from numbers to values that is kept and walked in the order of its keys.

use vstd::prelude::*;

verus! {

/// The keys ascend, each once.
pub open spec fn sorted<V>(items: Seq<(u64, V)>) -> bool {
    forall|i: int, j: int| 0 <= i < j < items.len() ==> (#[trigger] items[i]).0 < (#[trigger] items[j]).0
}

/// Some item has the key.
pub open spec fn has_key<V>(items: Seq<(u64, V)>, k: u64) -> bool {
    exists|i: int| 0 <= i < items.len() && (#[trigger] items[i]).0 == k
}

/// The value of the first item with that key.
pub open spec fn value_of<V>(items: Seq<(u64, V)>, k: u64) -> V {
    items[choose|i: int| 0 <= i < items.len() && (#[trigger] items[i]).0 == k].1
}

/// The map that the items make up.
pub open spec fn map_of<V>(items: Seq<(u64, V)>) -> Map<u64, V> {
    Map::new(|k: u64| has_key(items, k), |k: u64| value_of(items, k))
}

/// A sorted map.
pub struct Table<V> {
    pub items: Vec<(u64, V)>,
}

impl<V> View for Table<V> {
    type V = Map<u64, V>;

    open spec fn view(&self) -> Map<u64, V> {
        map_of(self.items@)
    }
}

/// An item's key leads to its value.
pub proof fn lemma_item<V>(items: Seq<(u64, V)>, i: int)
    requires
        sorted(items),
        0 <= i < items.len(),
    ensures
        map_of(items).dom().contains(items[i].0),
        map_of(items)[items[i].0] == items[i].1,
{
    let k = items[i].0;
    assert(has_key(items, k));
    let j = choose|j: int| 0 <= j < items.len() && (#[trigger] items[j]).0 == k;
    if j < i {
        assert(items[j].0 < items[i].0);
    } else if i < j {
        assert(items[i].0 < items[j].0);
    }
}

proof fn lemma_set<V>(items: Seq<(u64, V)>, i: int, v: V)
    requires
        sorted(items),
        0 <= i < items.len(),
    ensures
        sorted(items.update(i, (items[i].0, v))),
        map_of(items.update(i, (items[i].0, v))) == map_of(items).insert(items[i].0, v),
{
    let after = items.update(i, (items[i].0, v));
    assert forall|a: int, b: int| 0 <= a < b < after.len() implies (#[trigger] after[a]).0 < (
    #[trigger] after[b]).0 by {
        assert(items[a].0 < items[b].0);
    }
    assert forall|a: int|
        0 <= a < items.len() && (#[trigger] items[a]).0 != items[i].0 implies after.contains(
        items[a],
    ) by {
        assert(after[a] == items[a]);
    }
    assert forall|a: int|
        0 <= a < after.len() && (#[trigger] after[a]).0 != items[i].0 implies items.contains(
        after[a],
    ) by {
        assert(items[a] == after[a]);
    }
    lemma_same_map(items, after, items[i].0, v, i);
}

proof fn lemma_insert<V>(items: Seq<(u64, V)>, i: int, k: u64, v: V)
    requires
        sorted(items),
        0 <= i <= items.len(),
        forall|a: int| 0 <= a < i ==> (#[trigger] items[a]).0 < k,
        forall|a: int| i <= a < items.len() ==> k < (#[trigger] items[a]).0,
    ensures
        sorted(items.insert(i, (k, v))),
        map_of(items.insert(i, (k, v))) == map_of(items).insert(k, v),
{
    let after = items.insert(i, (k, v));
    assert forall|a: int, b: int| 0 <= a < b < after.len() implies (#[trigger] after[a]).0 < (
    #[trigger] after[b]).0 by {
        let ia = if a < i { a } else { a - 1 };
        let ib = if b < i { b } else { b - 1 };
        if a != i && b != i {
            assert(items[ia].0 < items[ib].0);
        } else if a == i {
            assert(k < items[ib].0);
        } else {
            assert(items[ia].0 < k);
        }
    }
    assert forall|a: int| 0 <= a < items.len() && (#[trigger] items[a]).0 != k implies after.contains(
        items[a],
    ) by {
        if a < i {
            assert(after[a] == items[a]);
        } else {
            assert(after[a + 1] == items[a]);
        }
    }
    assert forall|a: int| 0 <= a < after.len() && (#[trigger] after[a]).0 != k implies items.contains(
        after[a],
    ) by {
        if a < i {
            assert(items[a] == after[a]);
        } else {
            assert(items[a - 1] == after[a]);
        }
    }
    lemma_same_map(items, after, k, v, i);
}

/// Where two sorted lists agree on every key but one, so do their maps.
proof fn lemma_same_map<V>(
    items: Seq<(u64, V)>,
    after: Seq<(u64, V)>,
    k: u64,
    v: V,
    at: int,
)
    requires
        sorted(items),
        sorted(after),
        0 <= at < after.len(),
        after[at] == (k, v),
        forall|a: int|
            0 <= a < items.len() && (#[trigger] items[a]).0 != k ==> after.contains(items[a]),
        forall|a: int|
            0 <= a < after.len() && (#[trigger] after[a]).0 != k ==> items.contains(after[a]),
    ensures
        map_of(after) == map_of(items).insert(k, v),
{
    let m = map_of(items).insert(k, v);
    let n = map_of(after);
    lemma_item(after, at);
    assert forall|x: u64| #[trigger] n.dom().contains(x) == m.dom().contains(x) by {
        if x != k {
            if has_key(after, x) {
                let a = choose|a: int| 0 <= a < after.len() && (#[trigger] after[a]).0 == x;
                let b = choose|b: int| 0 <= b < items.len() && items[b] == after[a];
                assert(items[b].0 == x);
            }
            if has_key(items, x) {
                let a = choose|a: int| 0 <= a < items.len() && (#[trigger] items[a]).0 == x;
                let b = choose|b: int| 0 <= b < after.len() && after[b] == items[a];
                assert(after[b].0 == x);
            }
        }
    }
    assert forall|x: u64| #[trigger] n.dom().contains(x) implies n[x] == m[x] by {
        if x != k {
            let a = choose|a: int| 0 <= a < after.len() && (#[trigger] after[a]).0 == x;
            let b = choose|b: int| 0 <= b < items.len() && items[b] == after[a];
            lemma_item(after, a);
            lemma_item(items, b);
        }
    }
    assert(n =~= m);
}

proof fn lemma_removed<V>(items: Seq<(u64, V)>, i: int)
    requires
        sorted(items),
        0 <= i < items.len(),
    ensures
        sorted(items.remove(i)),
        map_of(items.remove(i)) == map_of(items).remove(items[i].0),
{
    let after = items.remove(i);
    let m = map_of(items).remove(items[i].0);
    let n = map_of(after);
    assert forall|a: int, b: int| 0 <= a < b < after.len() implies (#[trigger] after[a]).0 < (
    #[trigger] after[b]).0 by {
        let ia = if a < i { a } else { a + 1 };
        let ib = if b < i { b } else { b + 1 };
        assert(items[ia].0 < items[ib].0);
    }
    assert forall|x: u64| #[trigger] n.dom().contains(x) == m.dom().contains(x) by {
        if has_key(after, x) {
            let a = choose|a: int| 0 <= a < after.len() && (#[trigger] after[a]).0 == x;
            let b = if a < i { a } else { a + 1 };
            assert(items[b].0 == x);
            if b < i {
                assert(items[b].0 < items[i].0);
            } else {
                assert(items[i].0 < items[b].0);
            }
        }
        if x != items[i].0 && has_key(items, x) {
            let b = choose|b: int| 0 <= b < items.len() && (#[trigger] items[b]).0 == x;
            assert(after[if b < i { b } else { b - 1 }].0 == x);
        }
    }
    assert forall|x: u64| #[trigger] n.dom().contains(x) implies n[x] == m[x] by {
        let a = choose|a: int| 0 <= a < after.len() && (#[trigger] after[a]).0 == x;
        lemma_item(after, a);
        lemma_item(items, if a < i { a } else { a + 1 });
    }
    assert(n =~= m);
}

impl<V> Table<V> {
    pub open spec fn wf(&self) -> bool {
        sorted(self.items@)
    }

    pub fn new() -> (t: Table<V>)
        ensures
            t.wf(),
            t.items@.len() == 0,
            t@ == Map::<u64, V>::empty(),
    {
        let t: Table<V> = Table { items: Vec::new() };
        assert(t@ =~= Map::<u64, V>::empty());
        t
    }

    pub fn len(&self) -> (n: usize)
        ensures
            n == self.items@.len(),
    {
        self.items.len()
    }

    /// How many items have a smaller key.
    fn place(&self, k: u64) -> (i: usize)
        requires
            self.wf(),
        ensures
            i <= self.items@.len(),
            forall|a: int| 0 <= a < i ==> (#[trigger] self.items@[a]).0 < k,
            forall|a: int| i <= a < self.items@.len() ==> k <= (#[trigger] self.items@[a]).0,
    {
        let mut lo: usize = 0;
        let mut hi: usize = self.items.len();
        while lo < hi
            invariant
                self.wf(),
                lo <= hi <= self.items@.len(),
                forall|a: int| 0 <= a < lo ==> (#[trigger] self.items@[a]).0 < k,
                forall|a: int| hi <= a < self.items@.len() ==> k <= (#[trigger] self.items@[a]).0,
            decreases hi - lo,
        {
            let mid: usize = lo + (hi - lo) / 2;
            if self.items[mid].0 < k {
                assert forall|a: int| 0 <= a < mid + 1 implies (#[trigger] self.items@[a]).0 < k by {
                    if a < mid {
                        assert(self.items@[a].0 < self.items@[mid as int].0);
                    }
                }
                lo = mid + 1;
            } else {
                assert forall|a: int| mid <= a < self.items@.len() implies k <= (
                #[trigger] self.items@[a]).0 by {
                    if mid < a {
                        assert(self.items@[mid as int].0 < self.items@[a].0);
                    }
                }
                hi = mid;
            }
        }
        lo
    }

    /// Where the key's item stands.
    pub fn find(&self, k: u64) -> (r: Option<usize>)
        requires
            self.wf(),
        ensures
            r is Some == self@.dom().contains(k),
            r matches Some(i) ==> i < self.items@.len() && self.items@[i as int].0 == k
                && self.items@[i as int].1 == self@[k],
    {
        let i: usize = self.place(k);
        if i < self.items.len() && self.items[i].0 == k {
            proof {
                lemma_item(self.items@, i as int);
            }
            Some(i)
        } else {
            assert(!has_key(self.items@, k)) by {
                if has_key(self.items@, k) {
                    let a = choose|a: int|
                        0 <= a < self.items@.len() && (#[trigger] self.items@[a]).0 == k;
                    if a < i {
                        assert(self.items@[a].0 < k);
                    } else if a > i {
                        assert(self.items@[i as int].0 < self.items@[a].0);
                    }
                }
            }
            None
        }
    }

    pub fn get(&self, k: u64) -> (r: Option<&V>)
        requires
            self.wf(),
        ensures
            r is Some == self@.dom().contains(k),
            r is Some ==> *r->0 == self@[k],
    {
        match self.find(k) {
            Some(i) => Some(&self.items[i].1),
            None => None,
        }
    }

    /// Gives the key this value, whether or not it had one.
    pub fn put(&mut self, k: u64, v: V)
        requires
            old(self).wf(),
        ensures
            final(self).wf(),
            final(self)@ == old(self)@.insert(k, v),
    {
        let i: usize = self.place(k);
        if i < self.items.len() && self.items[i].0 == k {
            proof {
                lemma_set(self.items@, i as int, v);
            }
            self.items.set(i, (k, v));
        } else {
            proof {
                assert forall|a: int| i <= a < self.items@.len() implies k < (
                #[trigger] self.items@[a]).0 by {
                    if a > i {
                        assert(self.items@[i as int].0 < self.items@[a].0);
                    }
                }
                lemma_insert(self.items@, i as int, k, v);
            }
            self.items.insert(i, (k, v));
        }
    }

    /// Takes the key out.
    pub fn remove(&mut self, k: u64)
        requires
            old(self).wf(),
        ensures
            final(self).wf(),
            final(self)@ == old(self)@.remove(k),
    {
        let ghost before = self.items@;
        match self.find(k) {
            Some(i) => {
                self.items.remove(i);
                proof {
                    lemma_removed(before, i as int);
                }
            },
            None => {
                assert(self@ =~= old(self)@.remove(k));
            },
        }
    }

    pub fn clear(&mut self)
        ensures
            final(self).wf(),
            final(self).items@.len() == 0,
            final(self)@ == Map::<u64, V>::empty(),
    {
        self.items = Vec::new();
        assert(self@ =~= Map::<u64, V>::empty());
    }
}

/// How far apart the keys of two buses lie.
pub const BUS_UNIT: u64 = 0x8_0000_0000;

/// The number that stands for a message on a bus. Keys ascend with the bus, then
/// the id, then the class; the two lowest bits are free.
pub open spec fn message_key(ch: u8, id: u32, ext: bool) -> u64 {
    (ch as u64 * BUS_UNIT + id as u64 * 8 + if ext {
        4u64
    } else {
        0u64
    }) as u64
}

pub fn key_of_message(ch: u8, id: u32, ext: bool) -> (r: u64)
    ensures
        r == message_key(ch, id, ext),
{
    ch as u64 * BUS_UNIT + id as u64 * 8 + if ext {
        4u64
    } else {
        0u64
    }
}

/// The bus, id and class that a key stands for.
pub open spec fn key_bus(k: u64) -> u64 {
    k / BUS_UNIT
}

pub open spec fn key_id(k: u64) -> u64 {
    (k % BUS_UNIT) / 8
}

pub open spec fn key_ext(k: u64) -> bool {
    (k / 4) % 2 == 1
}

/// A key reads back as the message it was made of.
pub proof fn lemma_key_parts(ch: u8, id: u32, ext: bool, low: u64)
    requires
        low < 4,
    ensures
        key_bus((message_key(ch, id, ext) + low) as u64) == ch,
        key_id((message_key(ch, id, ext) + low) as u64) == id,
        key_ext((message_key(ch, id, ext) + low) as u64) == ext,
        (message_key(ch, id, ext) + low) as u64 % 4 == low,
{
}

/// Different messages have different keys, in the order of bus, id and class.
pub proof fn law_keys_order_as_their_messages(a: (u8, u32, bool), b: (u8, u32, bool))
    ensures
        message_key(a.0, a.1, a.2) == message_key(b.0, b.1, b.2) <==> a == b,
        a.0 < b.0 ==> message_key(a.0, a.1, a.2) < message_key(b.0, b.1, b.2),
        a.0 == b.0 && a.1 < b.1 ==> message_key(a.0, a.1, a.2) < message_key(b.0, b.1, b.2),
{
}

/// A key after the bus `gone` is removed: its own keys go, those of the buses
/// above shift down by one bus.
pub open spec fn remapped_key(k: u64, gone: u64) -> Option<u64> {
    if key_bus(k) < gone {
        Some(k)
    } else if key_bus(k) == gone {
        None
    } else {
        Some((k - BUS_UNIT) as u64)
    }
}

/// The first `n` items after the bus `gone` is removed.
pub open spec fn remapped_items<V>(items: Seq<(u64, V)>, gone: u64, n: int) -> Seq<(u64, V)>
    decreases n,
{
    if n <= 0 {
        Seq::empty()
    } else {
        let before = remapped_items(items, gone, n - 1);
        match remapped_key(items[n - 1].0, gone) {
            Some(k) => before.push((k, items[n - 1].1)),
            None => before,
        }
    }
}

proof fn lemma_remap_order(a: u64, b: u64, gone: u64)
    requires
        a < b,
        remapped_key(a, gone) is Some,
        remapped_key(b, gone) is Some,
    ensures
        remapped_key(a, gone)->0 < remapped_key(b, gone)->0,
{
}

/// Where the items of the buses that stay are found after a removal.
pub proof fn lemma_remapped_items<V>(items: Seq<(u64, V)>, gone: u64, n: int)
    requires
        sorted(items),
        0 <= n <= items.len(),
    ensures
        sorted(remapped_items(items, gone, n)),
        forall|i: int|
            0 <= i < remapped_items(items, gone, n).len() ==> exists|j: int|
                0 <= j < n && remapped_key((#[trigger] items[j]).0, gone) == Some(
                    (#[trigger] remapped_items(items, gone, n)[i]).0,
                ) && items[j].1 == remapped_items(items, gone, n)[i].1,
        forall|j: int|
            0 <= j < n && remapped_key((#[trigger] items[j]).0, gone) is Some
                ==> remapped_items(items, gone, n).contains(
                (remapped_key(items[j].0, gone)->0, items[j].1),
            ),
    decreases n,
{
    if n > 0 {
        lemma_remapped_items(items, gone, n - 1);
        let before = remapped_items(items, gone, n - 1);
        let after = remapped_items(items, gone, n);
        if remapped_key(items[n - 1].0, gone) is Some {
            let k = remapped_key(items[n - 1].0, gone)->0;
            assert forall|i: int, j: int| 0 <= i < j < after.len() implies (#[trigger] after[i]).0 < (
            #[trigger] after[j]).0 by {
                if j < before.len() {
                    assert(before[i].0 < before[j].0);
                } else {
                    let a = choose|a: int|
                        0 <= a < n - 1 && remapped_key((#[trigger] items[a]).0, gone) == Some(
                            before[i].0,
                        ) && items[a].1 == before[i].1;
                    assert(items[a].0 < items[n - 1].0);
                    lemma_remap_order(items[a].0, items[n - 1].0, gone);
                }
            }
            assert forall|i: int| 0 <= i < after.len() implies exists|j: int|
                0 <= j < n && remapped_key((#[trigger] items[j]).0, gone) == Some(
                    (#[trigger] after[i]).0,
                ) && items[j].1 == after[i].1 by {
                if i < before.len() {
                    assert(after[i] == before[i]);
                } else {
                    assert(items[n - 1].1 == after[i].1);
                }
            }
            assert forall|j: int|
                0 <= j < n && remapped_key((#[trigger] items[j]).0, gone) is Some implies after.contains(
                (remapped_key(items[j].0, gone)->0, items[j].1),
            ) by {
                if j < n - 1 {
                    let x = (remapped_key(items[j].0, gone)->0, items[j].1);
                    let i = choose|i: int| 0 <= i < before.len() && before[i] == x;
                    assert(after[i] == x);
                } else {
                    assert(after[before.len() as int] == (k, items[j].1));
                }
            }
        }
    }
}

/// What is kept for a message of another bus is found under its new key after a
/// bus is removed.
pub proof fn law_values_follow_their_bus<V>(items: Seq<(u64, V)>, gone: u64, k: u64)
    requires
        sorted(items),
        map_of(items).dom().contains(k),
        key_bus(k) != gone,
    ensures
        remapped_key(k, gone) is Some,
        ({
            let after = map_of(remapped_items(items, gone, items.len() as int));
            after.dom().contains(remapped_key(k, gone)->0) && after[remapped_key(k, gone)->0]
                == map_of(items)[k]
        }),
{
    let after = remapped_items(items, gone, items.len() as int);
    lemma_remapped_items(items, gone, items.len() as int);
    let j = choose|j: int| 0 <= j < items.len() && (#[trigger] items[j]).0 == k;
    lemma_item(items, j);
    let x = (remapped_key(items[j].0, gone)->0, items[j].1);
    assert(after.contains(x));
    let i = choose|i: int| 0 <= i < after.len() && after[i] == x;
    lemma_item(after, i);
}

impl<V: Copy> Table<V> {
    /// Removes what is kept for a bus and shifts the buses above it down.
    pub fn drop_bus(&mut self, gone: u64)
        requires
            old(self).wf(),
        ensures
            final(self).wf(),
            final(self).items@ == remapped_items(
                old(self).items@,
                gone,
                old(self).items@.len() as int,
            ),
    {
        let mut kept: Vec<(u64, V)> = Vec::new();
        for i in 0..self.items.len()
            invariant
                kept@ == remapped_items(self.items@, gone, i as int),
        {
            let k: u64 = self.items[i].0;
            let v: V = self.items[i].1;
            if k / BUS_UNIT < gone {
                kept.push((k, v));
            } else if k / BUS_UNIT > gone {
                kept.push((k - BUS_UNIT, v));
            }
        }
        proof {
            lemma_remapped_items(self.items@, gone, self.items@.len() as int);
        }
        self.items = kept;
    }
}

} // verus!
