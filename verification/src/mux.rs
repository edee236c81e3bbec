//! Multiplexing: which switch values show a signal, and how a signal behind a
//! nested switch inherits the conditions of the switches above it.

use vstd::prelude::*;

verus! {

/// One gating condition on a multiplexed signal: the named switch signal in
/// the same message must read a value inside one of the inclusive ranges.
/// `m` markers yield a single one-value range; `SG_MUL_VAL_` lines can carry
/// wide ranges, several of them, and nested switches.
#[derive(Clone)]
pub struct MuxCondition {
    pub switch: String,
    pub ranges: Vec<(u64, u64)>,
}

/// A signal's name with the conditions stated for it alone.
pub struct SignalGate {
    pub name: String,
    pub when: Vec<MuxCondition>,
}

/// Some condition names the switch `w`.
pub open spec fn has_switch(when: Seq<MuxCondition>, w: Seq<char>) -> bool {
    exists|i: int| 0 <= i < when.len() && #[trigger] when[i].switch@ == w
}

/// Some condition on the switch `w` holds the range `r`.
pub open spec fn has_range(when: Seq<MuxCondition>, w: Seq<char>, r: (u64, u64)) -> bool {
    exists|i: int|
        0 <= i < when.len() && #[trigger] when[i].switch@ == w && when[i].ranges@.contains(r)
}

/// No two conditions name the same switch.
pub open spec fn distinct_switches(when: Seq<MuxCondition>) -> bool {
    forall|i: int, j: int|
        0 <= i < j < when.len() ==> #[trigger] when[i].switch@ != #[trigger] when[j].switch@
}

/// The index of the last signal of that name, or -1.
pub open spec fn owner(gates: Seq<SignalGate>, name: Seq<char>) -> int
    decreases gates.len(),
{
    if gates.len() == 0 {
        -1
    } else if gates.last().name@ == name {
        gates.len() - 1
    } else {
        owner(gates.drop_last(), name)
    }
}

/// The conditions stated for the signal of that name; none where the message
/// has no such signal.
pub open spec fn conditions_of(gates: Seq<SignalGate>, name: Seq<char>) -> Seq<MuxCondition> {
    let k = owner(gates, name);
    if 0 <= k < gates.len() {
        gates[k].when@
    } else {
        Seq::<MuxCondition>::empty()
    }
}

/// The switch `w` is met after `k` steps up: `start` names it, or a switch met
/// one step before is itself gated on it.
pub open spec fn reaches_in(
    gates: Seq<SignalGate>,
    start: Seq<MuxCondition>,
    k: nat,
    w: Seq<char>,
) -> bool
    decreases k,
{
    if k == 0 {
        has_switch(start, w)
    } else {
        exists|n: Seq<char>|
            reaches_in(gates, start, (k - 1) as nat, n) && #[trigger] has_switch(
                conditions_of(gates, n),
                w,
            )
    }
}

/// The switch `w` stands somewhere above `start`.
pub open spec fn reaches(
    gates: Seq<SignalGate>,
    start: Seq<MuxCondition>,
    w: Seq<char>,
) -> bool {
    exists|k: nat| #[trigger] reaches_in(gates, start, k, w)
}

/// Some switch above `start` is itself gated on `w` with the range `r`.
pub open spec fn inherits_range(
    gates: Seq<SignalGate>,
    start: Seq<MuxCondition>,
    w: Seq<char>,
    r: (u64, u64),
) -> bool {
    exists|n: Seq<char>| #[trigger]
        reaches(gates, start, n) && has_range(conditions_of(gates, n), w, r)
}

/// `merged` holds one condition for each switch above `start`, with the ranges
/// that `start` or any switch above it states.
pub open spec fn is_merged(
    gates: Seq<SignalGate>,
    start: Seq<MuxCondition>,
    merged: Seq<MuxCondition>,
) -> bool {
    &&& distinct_switches(merged)
    &&& forall|w: Seq<char>| #[trigger] has_switch(merged, w) == reaches(gates, start, w)
    &&& forall|w: Seq<char>, r: (u64, u64)| #[trigger]
        has_range(merged, w, r) == (has_range(start, w, r) || inherits_range(gates, start, w, r))
}

/// Every switch name that some condition states.
spec fn all_switches(gates: Seq<SignalGate>, start: Seq<MuxCondition>) -> Seq<Seq<char>>
    decreases gates.len(),
{
    if gates.len() == 0 {
        start.map_values(|c: MuxCondition| c.switch@)
    } else {
        all_switches(gates.drop_last(), start) + gates.last().when@.map_values(
            |c: MuxCondition| c.switch@,
        )
    }
}

proof fn lemma_switch_listed(when: Seq<MuxCondition>, w: Seq<char>)
    ensures
        has_switch(when, w) == when.map_values(|c: MuxCondition| c.switch@).contains(w),
{
    let names = when.map_values(|c: MuxCondition| c.switch@);
    if has_switch(when, w) {
        let i = choose|i: int| 0 <= i < when.len() && #[trigger] when[i].switch@ == w;
        assert(names[i] == w);
    }
    if names.contains(w) {
        let i = choose|i: int| 0 <= i < names.len() && names[i] == w;
        assert(when[i].switch@ == w);
    }
}

proof fn lemma_start_listed(gates: Seq<SignalGate>, start: Seq<MuxCondition>, w: Seq<char>)
    requires
        has_switch(start, w),
    ensures
        all_switches(gates, start).contains(w),
    decreases gates.len(),
{
    if gates.len() == 0 {
        lemma_switch_listed(start, w);
    } else {
        lemma_start_listed(gates.drop_last(), start, w);
        lemma_contains_add(
            all_switches(gates.drop_last(), start),
            gates.last().when@.map_values(|c: MuxCondition| c.switch@),
            w,
        );
    }
}

proof fn lemma_gate_listed(
    gates: Seq<SignalGate>,
    start: Seq<MuxCondition>,
    k: int,
    w: Seq<char>,
)
    requires
        0 <= k < gates.len(),
        has_switch(gates[k].when@, w),
    ensures
        all_switches(gates, start).contains(w),
    decreases gates.len(),
{
    let last = gates.last().when@.map_values(|c: MuxCondition| c.switch@);
    let rest = all_switches(gates.drop_last(), start);
    if k == gates.len() - 1 {
        lemma_switch_listed(gates.last().when@, w);
    } else {
        lemma_gate_listed(gates.drop_last(), start, k, w);
    }
    lemma_contains_add(rest, last, w);
}

proof fn lemma_contains_add(a: Seq<Seq<char>>, b: Seq<Seq<char>>, w: Seq<char>)
    ensures
        (a + b).contains(w) == (a.contains(w) || b.contains(w)),
{
    if a.contains(w) {
        let i = choose|i: int| 0 <= i < a.len() && a[i] == w;
        assert((a + b)[i] == w);
    }
    if b.contains(w) {
        let i = choose|i: int| 0 <= i < b.len() && b[i] == w;
        assert((a + b)[a.len() + i] == w);
    }
    if (a + b).contains(w) {
        let i = choose|i: int| 0 <= i < (a + b).len() && (a + b)[i] == w;
        if i < a.len() {
            assert(a[i] == w);
        } else {
            assert(b[i - a.len()] == w);
        }
    }
}

proof fn lemma_owner(gates: Seq<SignalGate>, name: Seq<char>)
    ensures
        -1 <= owner(gates, name) < gates.len(),
        owner(gates, name) >= 0 ==> gates[owner(gates, name)].name@ == name,
        forall|i: int|
            owner(gates, name) < i < gates.len() ==> #[trigger] gates[i].name@ != name,
    decreases gates.len(),
{
    if gates.len() > 0 && gates.last().name@ != name {
        lemma_owner(gates.drop_last(), name);
        assert forall|i: int| owner(gates, name) < i < gates.len() implies #[trigger] gates[i].name@
            != name by {
            if i < gates.len() - 1 {
                assert(gates.drop_last()[i].name@ != name);
            }
        }
    }
}

/// A list of different names that all stand in another list is no longer than
/// that list has different names.
proof fn lemma_visited_bound(visited: Seq<Seq<char>>, all: Seq<Seq<char>>)
    requires
        visited.no_duplicates(),
        forall|i: int| 0 <= i < visited.len() ==> all.contains(#[trigger] visited[i]),
    ensures
        visited.len() <= all.to_set().len(),
{
    visited.unique_seq_to_set();
    vstd::seq_lib::seq_to_set_is_finite(all);
    assert(visited.to_set().subset_of(all.to_set())) by {
        assert forall|n: Seq<char>| visited.to_set().contains(n) implies all.to_set().contains(
            n,
        ) by {
            let i = choose|i: int| 0 <= i < visited.len() && visited[i] == n;
            assert(all.contains(visited[i]));
        }
    }
    vstd::set_lib::lemma_len_subset(visited.to_set(), all.to_set());
}

fn contains_name(names: &Vec<String>, name: &String) -> (r: bool)
    ensures
        r == exists|i: int| 0 <= i < names@.len() && #[trigger] names@[i]@ == name@,
{
    for i in 0..names.len()
        invariant
            forall|j: int| 0 <= j < i ==> #[trigger] names@[j]@ != name@,
    {
        if names[i] == *name {
            return true;
        }
    }
    false
}

fn find_owner(gates: &Vec<SignalGate>, name: &String) -> (r: Option<usize>)
    ensures
        match r {
            Some(k) => owner(gates@, name@) == k && k < gates@.len(),
            None => owner(gates@, name@) == -1,
        },
{
    let mut i: usize = gates.len();
    assert(gates@.subrange(0, gates@.len() as int) =~= gates@);
    while i > 0
        invariant
            i <= gates@.len(),
            owner(gates@, name@) == owner(gates@.subrange(0, i as int), name@),
        decreases i,
    {
        i = i - 1;
        assert(gates@.subrange(0, i + 1).drop_last() =~= gates@.subrange(0, i as int));
        if gates[i].name == *name {
            return Some(i);
        }
    }
    None
}

fn copy_ranges(ranges: &Vec<(u64, u64)>) -> (r: Vec<(u64, u64)>)
    ensures
        r@ == ranges@,
{
    let mut r: Vec<(u64, u64)> = Vec::new();
    for i in 0..ranges.len()
        invariant
            r@ == ranges@.subrange(0, i as int),
    {
        r.push(ranges[i]);
        assert(r@ =~= ranges@.subrange(0, i + 1));
    }
    assert(r@ =~= ranges@);
    r
}

/// Folds one condition into a list: the ranges join those of the same switch.
pub fn merge_condition(merged: &mut Vec<MuxCondition>, switch: &String, ranges: &Vec<(u64, u64)>)
    requires
        distinct_switches(old(merged)@),
    ensures
        distinct_switches(final(merged)@),
        forall|w: Seq<char>| #[trigger]
            has_switch(final(merged)@, w) == (has_switch(old(merged)@, w) || w == switch@),
        forall|w: Seq<char>, r: (u64, u64)| #[trigger]
            has_range(final(merged)@, w, r) == (has_range(old(merged)@, w, r) || (w == switch@
                && ranges@.contains(r))),
{
    let ghost before: Seq<MuxCondition> = merged@;
    let mut at: usize = 0;
    while at < merged.len() && merged[at].switch != *switch
        invariant
            merged@ == before,
            at <= merged@.len(),
            forall|j: int| 0 <= j < at ==> #[trigger] before[j].switch@ != switch@,
        decreases merged.len() - at,
    {
        at = at + 1;
    }
    if at < merged.len() {
        let mut joined: Vec<(u64, u64)> = copy_ranges(&merged[at].ranges);
        let ghost own: Seq<(u64, u64)> = joined@;
        for i in 0..ranges.len()
            invariant
                joined@ == own + ranges@.subrange(0, i as int),
        {
            joined.push(ranges[i]);
            assert(joined@ =~= own + ranges@.subrange(0, i + 1));
        }
        assert(joined@ =~= own + ranges@);
        let entry: MuxCondition = MuxCondition { switch: switch.clone(), ranges: joined };
        merged.set(at, entry);
        proof {
            let after = merged@;
            assert(after == before.update(at as int, entry));
            assert forall|w: Seq<char>| #[trigger] has_switch(after, w) == (has_switch(before, w)
                || w == switch@) by {
                if has_switch(after, w) {
                    let i = choose|i: int| 0 <= i < after.len() && #[trigger] after[i].switch@ == w;
                    assert(before[i].switch@ == w);
                }
                if has_switch(before, w) {
                    let i = choose|i: int|
                        0 <= i < before.len() && #[trigger] before[i].switch@ == w;
                    assert(after[i].switch@ == w);
                }
                assert(after[at as int].switch@ == switch@);
            }
            assert forall|w: Seq<char>, r: (u64, u64)| #[trigger] has_range(after, w, r) == (
            has_range(before, w, r) || (w == switch@ && ranges@.contains(r))) by {
                lemma_contains_pair(own, ranges@, r);
                if has_range(after, w, r) {
                    let i = choose|i: int|
                        0 <= i < after.len() && #[trigger] after[i].switch@ == w
                            && after[i].ranges@.contains(r);
                    assert(before[i].switch@ == w);
                }
                if has_range(before, w, r) {
                    let i = choose|i: int|
                        0 <= i < before.len() && #[trigger] before[i].switch@ == w
                            && before[i].ranges@.contains(r);
                    assert(after[i].switch@ == w);
                    assert(after[i].ranges@.contains(r));
                }
                assert(after[at as int].switch@ == switch@);
            }
            assert forall|i: int, j: int| 0 <= i < j < after.len() implies #[trigger] after[i].switch@
                != #[trigger] after[j].switch@ by {
                assert(before[i].switch@ != before[j].switch@);
            }
        }
    } else {
        let entry: MuxCondition = MuxCondition {
            switch: switch.clone(),
            ranges: copy_ranges(ranges),
        };
        merged.push(entry);
        proof {
            let after = merged@;
            let n = before.len();
            assert(after[n as int].switch@ == switch@);
            assert forall|w: Seq<char>| #[trigger] has_switch(after, w) == (has_switch(before, w)
                || w == switch@) by {
                if has_switch(after, w) {
                    let i = choose|i: int| 0 <= i < after.len() && #[trigger] after[i].switch@ == w;
                    if i < n {
                        assert(before[i].switch@ == w);
                    }
                }
                if has_switch(before, w) {
                    let i = choose|i: int|
                        0 <= i < before.len() && #[trigger] before[i].switch@ == w;
                    assert(after[i].switch@ == w);
                }
            }
            assert forall|w: Seq<char>, r: (u64, u64)| #[trigger] has_range(after, w, r) == (
            has_range(before, w, r) || (w == switch@ && ranges@.contains(r))) by {
                if has_range(after, w, r) {
                    let i = choose|i: int|
                        0 <= i < after.len() && #[trigger] after[i].switch@ == w
                            && after[i].ranges@.contains(r);
                    if i < n {
                        assert(before[i].switch@ == w);
                    }
                }
                if has_range(before, w, r) {
                    let i = choose|i: int|
                        0 <= i < before.len() && #[trigger] before[i].switch@ == w
                            && before[i].ranges@.contains(r);
                    assert(after[i].switch@ == w);
                }
            }
        }
    }
}

proof fn lemma_contains_pair(a: Seq<(u64, u64)>, b: Seq<(u64, u64)>, r: (u64, u64))
    ensures
        (a + b).contains(r) == (a.contains(r) || b.contains(r)),
{
    if a.contains(r) {
        let i = choose|i: int| 0 <= i < a.len() && a[i] == r;
        assert((a + b)[i] == r);
    }
    if b.contains(r) {
        let i = choose|i: int| 0 <= i < b.len() && b[i] == r;
        assert((a + b)[a.len() + i] == r);
    }
    if (a + b).contains(r) {
        let i = choose|i: int| 0 <= i < (a + b).len() && (a + b)[i] == r;
        if i < a.len() {
            assert(a[i] == r);
        } else {
            assert(b[i - a.len()] == r);
        }
    }
}

/// The names in `list`.
spec fn texts(list: Seq<String>) -> Seq<Seq<char>> {
    list.map_values(|s: String| s@)
}

/// Folds every condition of `when` into `merged` and puts its switches on the
/// worklist.
fn absorb_conditions(
    merged: &mut Vec<MuxCondition>,
    worklist: &mut Vec<String>,
    when: &Vec<MuxCondition>,
)
    requires
        distinct_switches(old(merged)@),
    ensures
        distinct_switches(final(merged)@),
        forall|w: Seq<char>| #[trigger]
            has_switch(final(merged)@, w) == (has_switch(old(merged)@, w) || has_switch(when@, w)),
        forall|w: Seq<char>, r: (u64, u64)| #[trigger]
            has_range(final(merged)@, w, r) == (has_range(old(merged)@, w, r) || has_range(
                when@,
                w,
                r,
            )),
        texts(final(worklist)@) == texts(old(worklist)@) + when@.map_values(
            |c: MuxCondition| c.switch@,
        ),
{
    let ghost m0: Seq<MuxCondition> = merged@;
    let ghost w0: Seq<Seq<char>> = texts(worklist@);
    assert(when@.subrange(0, 0) =~= Seq::<MuxCondition>::empty());
    for i in 0..when.len()
        invariant
            distinct_switches(merged@),
            forall|w: Seq<char>| #[trigger]
                has_switch(merged@, w) == (has_switch(m0, w) || has_switch(
                    when@.subrange(0, i as int),
                    w,
                )),
            forall|w: Seq<char>, r: (u64, u64)| #[trigger]
                has_range(merged@, w, r) == (has_range(m0, w, r) || has_range(
                    when@.subrange(0, i as int),
                    w,
                    r,
                )),
            texts(worklist@) =~= w0 + when@.subrange(0, i as int).map_values(
                |c: MuxCondition| c.switch@,
            ),
    {
        let ghost mid: Seq<MuxCondition> = merged@;
        let ghost listed: Seq<String> = worklist@;
        merge_condition(merged, &when[i].switch, &when[i].ranges);
        worklist.push(when[i].switch.clone());
        proof {
            let upto = when@.subrange(0, i as int);
            let next = when@.subrange(0, i + 1);
            let c = when@[i as int];
            assert(next =~= upto.push(c));
            assert(worklist@ =~= listed.push(when@[i as int].switch));
            assert(texts(worklist@) =~= texts(listed).push(c.switch@));
            assert(texts(worklist@) =~= w0 + next.map_values(|c: MuxCondition| c.switch@));
            assert forall|w: Seq<char>| #[trigger] has_switch(merged@, w) == (has_switch(m0, w)
                || has_switch(next, w)) by {
                lemma_push_condition(upto, c, w, (0, 0));
                assert(has_switch(mid, w) == (has_switch(m0, w) || has_switch(upto, w)));
            }
            assert forall|w: Seq<char>, r: (u64, u64)| #[trigger] has_range(merged@, w, r) == (
            has_range(m0, w, r) || has_range(next, w, r)) by {
                lemma_push_condition(upto, c, w, r);
                assert(has_range(mid, w, r) == (has_range(m0, w, r) || has_range(upto, w, r)));
            }
        }
    }
    assert(when@.subrange(0, when@.len() as int) =~= when@);
}

proof fn lemma_push_condition(
    when: Seq<MuxCondition>,
    c: MuxCondition,
    w: Seq<char>,
    r: (u64, u64),
)
    ensures
        has_switch(when.push(c), w) == (has_switch(when, w) || w == c.switch@),
        has_range(when.push(c), w, r) == (has_range(when, w, r) || (w == c.switch@
            && c.ranges@.contains(r))),
{
    let after = when.push(c);
    let n = when.len();
    assert(after[n as int] == c);
    if has_switch(after, w) {
        let i = choose|i: int| 0 <= i < after.len() && #[trigger] after[i].switch@ == w;
        if i < n {
            assert(when[i].switch@ == w);
        }
    }
    if has_switch(when, w) {
        let i = choose|i: int| 0 <= i < n && #[trigger] when[i].switch@ == w;
        assert(after[i].switch@ == w);
    }
    if w == c.switch@ {
        assert(after[n as int].switch@ == w);
    }
    if has_range(after, w, r) {
        let i = choose|i: int|
            0 <= i < after.len() && #[trigger] after[i].switch@ == w && after[i].ranges@.contains(
                r,
            );
        if i < n {
            assert(when[i].switch@ == w);
        }
    }
    if has_range(when, w, r) {
        let i = choose|i: int|
            0 <= i < n && #[trigger] when[i].switch@ == w && when[i].ranges@.contains(r);
        assert(after[i].switch@ == w);
    }
}

/// A set of switches that holds those of `start`, and with each switch those
/// that gate it, holds every switch above `start`.
proof fn lemma_closed_holds_reached(
    gates: Seq<SignalGate>,
    start: Seq<MuxCondition>,
    merged: Seq<MuxCondition>,
    k: nat,
    w: Seq<char>,
)
    requires
        forall|n: Seq<char>| has_switch(start, n) ==> #[trigger] has_switch(merged, n),
        forall|n: Seq<char>, m: Seq<char>|
            has_switch(merged, n) && has_switch(conditions_of(gates, n), m)
                ==> #[trigger] has_switch(merged, m) || !#[trigger] has_switch(merged, n),
        reaches_in(gates, start, k, w),
    ensures
        has_switch(merged, w),
    decreases k,
{
    if k > 0 {
        let n = choose|n: Seq<char>|
            reaches_in(gates, start, (k - 1) as nat, n) && #[trigger] has_switch(
                conditions_of(gates, n),
                w,
            );
        lemma_closed_holds_reached(gates, start, merged, (k - 1) as nat, n);
    } else {
        assert(has_switch(start, w));
    }
}

/// One step further up.
proof fn lemma_reach_step(
    gates: Seq<SignalGate>,
    start: Seq<MuxCondition>,
    n: Seq<char>,
    w: Seq<char>,
)
    requires
        reaches(gates, start, n),
        has_switch(conditions_of(gates, n), w),
    ensures
        reaches(gates, start, w),
{
    let k = choose|k: nat| #[trigger] reaches_in(gates, start, k, n);
    assert(reaches_in(gates, start, (k + 1) as nat, w));
}

/// A signal's conditions together with those of every switch above it. A nested
/// switch's own bytes mean something only while the switch above it is active,
/// so a signal gated on a nested switch inherits that switch's conditions, and
/// so on all the way up. The same switch met twice unions the ranges. A switch
/// that ends up gating on itself stops the walk there.
pub fn inherit_conditions(gates: &Vec<SignalGate>, start: &Vec<MuxCondition>) -> (merged: Vec<
    MuxCondition,
>)
    requires
        distinct_switches(start@),
    ensures
        is_merged(gates@, start@, merged@),
{
    let mut merged: Vec<MuxCondition> = Vec::new();
    let mut worklist: Vec<String> = Vec::new();
    absorb_conditions(&mut merged, &mut worklist, start);
    let mut visited: Vec<String> = Vec::new();
    let ghost all: Seq<Seq<char>> = all_switches(gates@, start@);
    proof {
        assert forall|w: Seq<char>| #[trigger] has_switch(start@, w) implies reaches(
            gates@,
            start@,
            w,
        ) && all.contains(w) by {
            assert(reaches_in(gates@, start@, 0, w));
            lemma_start_listed(gates@, start@, w);
        }
        assert forall|w: Seq<char>| #[trigger] has_switch(start@, w) == texts(
            worklist@,
        ).contains(w) by {
            lemma_switch_listed(start@, w);
            assert(texts(worklist@) =~= start@.map_values(|c: MuxCondition| c.switch@));
        }
        assert forall|w: Seq<char>| #[trigger] texts(worklist@).contains(w) implies has_switch(
            start@,
            w,
        ) by {
            lemma_switch_listed(start@, w);
            assert(texts(worklist@) =~= start@.map_values(|c: MuxCondition| c.switch@));
        }
    }
    while worklist.len() > 0
        invariant
            all == all_switches(gates@, start@),
            distinct_switches(merged@),
            texts(visited@).no_duplicates(),
            forall|w: Seq<char>|
                has_switch(start@, w) ==> #[trigger] has_switch(merged@, w),
            forall|w: Seq<char>, r: (u64, u64)|
                has_range(start@, w, r) ==> #[trigger] has_range(merged@, w, r),
            forall|w: Seq<char>| #[trigger]
                has_switch(merged@, w) ==> reaches(gates@, start@, w) && (texts(
                    visited@,
                ).contains(w) || texts(worklist@).contains(w)),
            forall|w: Seq<char>, r: (u64, u64)| #[trigger]
                has_range(merged@, w, r) ==> has_range(start@, w, r) || inherits_range(
                    gates@,
                    start@,
                    w,
                    r,
                ),
            forall|n: Seq<char>, w: Seq<char>| #[trigger]
                texts(visited@).contains(n) && has_switch(conditions_of(gates@, n), w)
                    ==> #[trigger] has_switch(merged@, w),
            forall|n: Seq<char>, w: Seq<char>, r: (u64, u64)| #[trigger]
                texts(visited@).contains(n) && has_range(conditions_of(gates@, n), w, r)
                    ==> #[trigger] has_range(merged@, w, r),
            forall|w: Seq<char>| #[trigger]
                texts(worklist@).contains(w) ==> reaches(gates@, start@, w) && all.contains(w),
            forall|w: Seq<char>| #[trigger]
                texts(visited@).contains(w) ==> reaches(gates@, start@, w) && all.contains(w),
        decreases all.to_set().len() - visited@.len(), worklist@.len(),
    {
        let ghost wl: Seq<Seq<char>> = texts(worklist@);
        let ghost vs: Seq<Seq<char>> = texts(visited@);
        let ghost before: Seq<MuxCondition> = merged@;
        let name: String = worklist.pop().unwrap();
        proof {
            assert(wl.drop_last() =~= texts(worklist@));
            assert(wl.last() == name@);
            assert(wl.contains(name@));
            assert forall|w: Seq<char>| #[trigger] texts(worklist@).contains(w) implies wl.contains(
                w,
            ) by {
                lemma_contains_add(wl.drop_last(), seq![name@], w);
                assert(wl =~= wl.drop_last() + seq![name@]);
            }
            assert forall|w: Seq<char>| #[trigger] wl.contains(w) == (texts(worklist@).contains(w)
                || w == name@) by {
                lemma_contains_add(wl.drop_last(), seq![name@], w);
                assert(wl =~= wl.drop_last() + seq![name@]);
                assert(seq![name@].contains(w) == (w == name@)) by {
                    if w == name@ {
                        assert(seq![name@][0] == w);
                    }
                }
            }
            assert forall|i: int| 0 <= i < vs.len() implies all.contains(#[trigger] vs[i]) by {
                assert(vs.contains(vs[i]));
            }
            lemma_visited_bound(vs, all);
        }
        if contains_name(&visited, &name) {
            proof {
                let i = choose|i: int| 0 <= i < visited@.len() && #[trigger] visited@[i]@ == name@;
                assert(vs[i] == name@);
            }
            continue;
        }
        visited.push(name.clone());
        proof {
            assert(texts(visited@) =~= vs.push(name@));
            assert forall|w: Seq<char>| #[trigger] texts(visited@).contains(w) == (vs.contains(w)
                || w == name@) by {
                lemma_contains_add(vs, seq![name@], w);
                assert(vs.push(name@) =~= vs + seq![name@]);
                assert(seq![name@].contains(w) == (w == name@)) by {
                    if w == name@ {
                        assert(seq![name@][0] == w);
                    }
                }
            }
            assert forall|i: int| 0 <= i < vs.len() implies vs[i] != name@ by {
                assert(visited@[i]@ != name@);
            }
            assert forall|i: int| 0 <= i < texts(visited@).len() implies all.contains(
                #[trigger] texts(visited@)[i],
            ) by {
                if i < vs.len() {
                    assert(vs.contains(vs[i]));
                }
            }
            lemma_visited_bound(texts(visited@), all);
            lemma_owner(gates@, name@);
        }
        match find_owner(gates, &name) {
            Some(k) => {
                let ghost rest: Seq<Seq<char>> = texts(worklist@);
                absorb_conditions(&mut merged, &mut worklist, &gates[k].when);
                proof {
                    let stated = conditions_of(gates@, name@);
                    assert(stated == gates@[k as int].when@);
                    assert forall|w: Seq<char>| #[trigger] texts(worklist@).contains(w) == (
                    rest.contains(w) || has_switch(stated, w)) by {
                        lemma_switch_listed(stated, w);
                        lemma_contains_add(
                            rest,
                            stated.map_values(|c: MuxCondition| c.switch@),
                            w,
                        );
                    }
                    assert forall|w: Seq<char>| has_switch(stated, w) implies reaches(
                        gates@,
                        start@,
                        w,
                    ) && all.contains(w) by {
                        lemma_reach_step(gates@, start@, name@, w);
                        lemma_gate_listed(gates@, start@, k as int, w);
                    }
                    assert forall|w: Seq<char>, r: (u64, u64)| has_range(
                        stated,
                        w,
                        r,
                    ) implies inherits_range(gates@, start@, w, r) by {
                        assert(reaches(gates@, start@, name@));
                    }
                }
            },
            None => {
                assert(conditions_of(gates@, name@) =~= Seq::<MuxCondition>::empty());
                assert(forall|w: Seq<char>| !has_switch(conditions_of(gates@, name@), w));
                assert(forall|w: Seq<char>, r: (u64, u64)|
                    !has_range(conditions_of(gates@, name@), w, r));
            },
        }
    }
    proof {
        assert(texts(worklist@) =~= Seq::<Seq<char>>::empty());
        assert forall|w: Seq<char>| #[trigger] has_switch(merged@, w) == reaches(
            gates@,
            start@,
            w,
        ) by {
            if reaches(gates@, start@, w) {
                let k = choose|k: nat| #[trigger] reaches_in(gates@, start@, k, w);
                lemma_closed_holds_reached(gates@, start@, merged@, k, w);
            }
        }
        assert forall|w: Seq<char>, r: (u64, u64)| #[trigger] has_range(merged@, w, r) == (
        has_range(start@, w, r) || inherits_range(gates@, start@, w, r)) by {
            if inherits_range(gates@, start@, w, r) {
                let n = choose|n: Seq<char>| #[trigger]
                    reaches(gates@, start@, n) && has_range(conditions_of(gates@, n), w, r);
                assert(has_switch(merged@, n));
                assert(texts(visited@).contains(n));
            }
        }
    }
    merged
}

} // verus!
