//! Frame aggregation for each bus and id: the running tally behind the Messages
//! and Statistics views.

use vstd::prelude::*;
use crate::can::frame::{CanFrame, Direction, FrameFlags};
use crate::table;
use crate::table::Table;
use crate::trace;
use crate::trace::FrRow;

verus! {

/// The tally of one message on one bus. Copied freely, so that a snapshot never
/// aliases the live tallies.
#[derive(Clone, Copy, Debug)]
pub struct MessageAgg {
    pub id: u32,
    pub extended: bool,
    pub channel: u8,
    pub dir: Direction,
    pub count: u64,
    /// Frames seen in each direction. One row counts both.
    pub rx: u64,
    pub tx: u64,
    pub last_t_us: u64,
    /// The shortest interval between two frames; the largest number before there
    /// is one.
    pub min_us: u64,
    pub max_us: u64,
    pub len: u8,
    pub data: [u8; 64],
    pub flags: FrameFlags,
}

/// A tally that has counted nothing yet.
pub open spec fn blank_agg(f: CanFrame) -> MessageAgg {
    MessageAgg {
        id: f.id,
        extended: f.extended,
        channel: f.channel,
        dir: f.dir,
        count: 0,
        rx: 0,
        tx: 0,
        last_t_us: 0,
        min_us: u64::MAX,
        max_us: 0,
        len: f.len,
        data: f.data,
        flags: f.flags,
    }
}

/// The time since the message's last frame. Only a strictly later timestamp marks
/// a real cycle: a backwards or repeated one is a discontinuity.
pub open spec fn interval(count: u64, last_t_us: u64, t_us: u64) -> Option<u64> {
    if count > 0 && t_us > last_t_us {
        Some((t_us - last_t_us) as u64)
    } else {
        None
    }
}

/// The tally with one more frame.
pub open spec fn folded(a: MessageAgg, f: CanFrame) -> MessageAgg {
    let dt = interval(a.count, a.last_t_us, f.t_us);
    MessageAgg {
        id: a.id,
        extended: a.extended,
        channel: f.channel,
        dir: f.dir,
        count: trace::counted(a.count, 1) as u64,
        rx: if f.dir == Direction::Rx {
            trace::counted(a.rx, 1) as u64
        } else {
            a.rx
        },
        tx: if f.dir == Direction::Tx {
            trace::counted(a.tx, 1) as u64
        } else {
            a.tx
        },
        last_t_us: f.t_us,
        min_us: match dt {
            Some(d) => if d < a.min_us {
                d
            } else {
                a.min_us
            },
            None => a.min_us,
        },
        max_us: match dt {
            Some(d) => if d > a.max_us {
                d
            } else {
                a.max_us
            },
            None => a.max_us,
        },
        len: f.len,
        data: f.data,
        flags: f.flags,
    }
}

/// The key of a frame's message.
pub open spec fn frame_key(f: CanFrame) -> u64 {
    table::message_key(f.channel, f.id, f.extended)
}

/// What a table holds for a frame's message before the frame lands.
pub open spec fn agg_before(aggs: Map<u64, MessageAgg>, f: CanFrame) -> MessageAgg {
    if aggs.dom().contains(frame_key(f)) {
        aggs[frame_key(f)]
    } else {
        blank_agg(f)
    }
}

/// A real interval between two frames of one message, and whether it is the
/// first.
#[derive(Clone, Copy, Debug)]
pub struct Interval {
    pub dt_us: u64,
    pub first: bool,
}

/// The interval that a frame closes.
pub open spec fn closed_interval(count: u64, last_t_us: u64, t_us: u64) -> Option<Interval> {
    match interval(count, last_t_us, t_us) {
        Some(d) => Some(Interval { dt_us: d, first: count == 1 }),
        None => None,
    }
}

fn close_interval(count: u64, last_t_us: u64, t_us: u64) -> (r: Option<Interval>)
    ensures
        r == closed_interval(count, last_t_us, t_us),
{
    if count > 0 && t_us > last_t_us {
        Some(Interval { dt_us: t_us - last_t_us, first: count == 1 })
    } else {
        None
    }
}

/// Every tally's payload fits a frame.
pub open spec fn aggs_fit(aggs: Map<u64, MessageAgg>) -> bool {
    forall|k: u64| #[trigger] aggs.dom().contains(k) ==> aggs[k].len <= 64
}

/// Folds one frame into the table and returns the interval it closes.
pub fn fold_frame(aggs: &mut Table<MessageAgg>, f: &CanFrame) -> (r: Option<Interval>)
    requires
        old(aggs).wf(),
        aggs_fit(old(aggs)@),
        f.wf(),
    ensures
        final(aggs).wf(),
        aggs_fit(final(aggs)@),
        final(aggs)@ == old(aggs)@.insert(frame_key(*f), folded(agg_before(old(aggs)@, *f), *f)),
        r == closed_interval(
            agg_before(old(aggs)@, *f).count,
            agg_before(old(aggs)@, *f).last_t_us,
            f.t_us,
        ),
{
    let k: u64 = table::key_of_message(f.channel, f.id, f.extended);
    let mut a: MessageAgg = match aggs.get(k) {
        Some(a) => *a,
        None => MessageAgg {
            id: f.id,
            extended: f.extended,
            channel: f.channel,
            dir: f.dir,
            count: 0,
            rx: 0,
            tx: 0,
            last_t_us: 0,
            min_us: u64::MAX,
            max_us: 0,
            len: f.len,
            data: f.data,
            flags: f.flags,
        },
    };
    let ghost before = a;
    let closed: Option<Interval> = close_interval(a.count, a.last_t_us, f.t_us);
    match closed {
        Some(i) => {
            if i.dt_us < a.min_us {
                a.min_us = i.dt_us;
            }
            if i.dt_us > a.max_us {
                a.max_us = i.dt_us;
            }
        },
        None => {},
    }
    match f.dir {
        Direction::Rx => {
            a.rx = trace::count_one(a.rx);
        },
        Direction::Tx => {
            a.tx = trace::count_one(a.tx);
        },
    }
    a.count = trace::count_one(a.count);
    a.last_t_us = f.t_us;
    a.channel = f.channel;
    a.dir = f.dir;
    a.len = f.len;
    a.data = f.data;
    a.flags = f.flags;
    assert(a == folded(before, *f));
    aggs.put(k, a);
    closed
}

/// The tallies of the buses that outlive a removal, under their new indices.
pub open spec fn renumbered(items: Seq<(u64, MessageAgg)>) -> Seq<(u64, MessageAgg)> {
    Seq::new(
        items.len(),
        |i: int|
            (
                items[i].0,
                MessageAgg { channel: table::key_bus(items[i].0) as u8, ..items[i].1 },
            ),
    )
}

/// Removes the tallies of a bus and renumbers those of the buses above it.
pub fn drop_bus(aggs: &mut Table<MessageAgg>, gone: usize)
    requires
        old(aggs).wf(),
        aggs_fit(old(aggs)@),
    ensures
        final(aggs).wf(),
        aggs_fit(final(aggs)@),
        final(aggs).items@ == renumbered(
            table::remapped_items(old(aggs).items@, gone as u64, old(aggs).items@.len() as int),
        ),
{
    let ghost all = aggs.items@;
    aggs.drop_bus(gone as u64);
    let ghost moved = aggs.items@;
    let total: usize = aggs.items.len();
    for i in 0..total
        invariant
            total == moved.len(),
            aggs.items@.len() == moved.len(),
            forall|k: int| 0 <= k < i ==> aggs.items@[k] == renumbered(moved)[k],
            forall|k: int| i <= k < moved.len() ==> aggs.items@[k] == moved[k],
    {
        let k: u64 = aggs.items[i].0;
        let mut a: MessageAgg = aggs.items[i].1;
        a.channel = (k / table::BUS_UNIT) as u8;
        aggs.items.set(i, (k, a));
    }
    assert(aggs.items@ =~= renumbered(moved));
    proof {
        assert forall|i: int, j: int| 0 <= i < j < moved.len() implies (#[trigger] aggs.items@[i]).0 < (
        #[trigger] aggs.items@[j]).0 by {
            assert(moved[i].0 < moved[j].0);
        }
        table::lemma_remapped_items(all, gone as u64, all.len() as int);
        assert forall|k: u64| #[trigger] aggs@.dom().contains(k) implies aggs@[k].len <= 64 by {
            let i = choose|i: int|
                0 <= i < aggs.items@.len() && (#[trigger] aggs.items@[i]).0 == k;
            table::lemma_item(aggs.items@, i);
            assert(moved[i].1.len == aggs.items@[i].1.len);
            let j = choose|j: int|
                0 <= j < all.len() && table::remapped_key((#[trigger] all[j]).0, gone as u64)
                    == Some(moved[i].0) && all[j].1 == moved[i].1;
            table::lemma_item(all, j);
        }
    }
}

impl MessageAgg {
    pub open spec fn wf(self) -> bool {
        self.len <= 64
    }

    /// The payload of the last frame; nothing for error and remote frames.
    pub open spec fn payload_spec(self) -> Seq<u8> {
        if self.flags.has(FrameFlags::error()) || self.flags.has(FrameFlags::rtr()) {
            Seq::empty()
        } else {
            self.data@.subrange(0, self.len as int)
        }
    }

    /// The most recent frame's payload; empty for error and remote frames, so
    /// callers can render it without a separate kind check.
    pub fn payload(&self) -> (r: &[u8])
        requires
            self.wf(),
        ensures
            r@ == self.payload_spec(),
    {
        let all: &[u8] = self.data.as_slice();
        if self.flags.contains(FrameFlags::error()) || self.flags.contains(FrameFlags::rtr()) {
            vstd::slice::slice_subrange(all, 0, 0)
        } else {
            vstd::slice::slice_subrange(all, 0, self.len as usize)
        }
    }

    /// The last frame as it was seen.
    pub open spec fn frame_spec(self) -> CanFrame {
        CanFrame {
            t_us: self.last_t_us,
            channel: self.channel,
            id: self.id,
            extended: self.extended,
            len: self.len,
            data: self.data,
            dir: self.dir,
            flags: self.flags,
        }
    }

    pub fn frame(&self) -> (r: CanFrame)
        ensures
            r == self.frame_spec(),
    {
        CanFrame {
            t_us: self.last_t_us,
            channel: self.channel,
            id: self.id,
            extended: self.extended,
            len: self.len,
            data: self.data,
            dir: self.dir,
            flags: self.flags,
        }
    }
}

/// The tally of one FlexRay slot.
pub struct FrSlotAgg {
    pub slot: u16,
    pub count: u64,
    pub last_t_us: u64,
    pub ab: u8,
    /// The cycle number of the last frame: slots shared across repetitions
    /// resolve their frame name by it.
    pub last_cycle: u8,
    pub payload: Vec<u8>,
}

/// The slot's tally after one more row.
pub open spec fn is_slot_folded(
    before: Option<FrSlotAgg>,
    after: FrSlotAgg,
    row: FrRow,
    t_us: u64,
) -> bool {
    &&& after.slot == row.slot
    &&& after.count == trace::counted(
        match before {
            Some(b) => b.count,
            None => 0,
        },
        1,
    )
    &&& after.last_t_us == t_us
    &&& after.ab == row.ab
    &&& after.last_cycle == row.cycle
    &&& after.payload@ == row.payload@
}

/// What a table holds for a slot.
pub open spec fn slot_before(aggs: Map<u64, FrSlotAgg>, slot: u16) -> Option<FrSlotAgg> {
    if aggs.dom().contains(slot as u64) {
        Some(aggs[slot as u64])
    } else {
        None
    }
}

/// A copy of a payload.
pub fn copy_bytes(v: &Vec<u8>) -> (r: Vec<u8>)
    ensures
        r@ == v@,
{
    let mut r: Vec<u8> = Vec::new();
    for i in 0..v.len()
        invariant
            r@ == v@.subrange(0, i as int),
    {
        r.push(v[i]);
    }
    assert(r@ =~= v@);
    r
}

/// Folds one FlexRay row into its slot's tally and returns the interval it
/// closes.
pub fn fold_slot(aggs: &mut Table<FrSlotAgg>, row: &FrRow, t_us: u64) -> (r: Option<Interval>)
    requires
        old(aggs).wf(),
    ensures
        final(aggs).wf(),
        final(aggs)@.dom() == old(aggs)@.dom().insert(row.slot as u64),
        is_slot_folded(
            slot_before(old(aggs)@, row.slot),
            final(aggs)@[row.slot as u64],
            *row,
            t_us,
        ),
        forall|k: u64|
            k != row.slot && old(aggs)@.dom().contains(k) ==> #[trigger] final(aggs)@[k] == old(
                aggs,
            )@[k],
        r == (match slot_before(old(aggs)@, row.slot) {
            Some(b) => closed_interval(b.count, b.last_t_us, t_us),
            None => None,
        }),
{
    let k: u64 = row.slot as u64;
    let (count, last): (u64, u64) = match aggs.get(k) {
        Some(a) => (a.count, a.last_t_us),
        None => (0, 0),
    };
    let closed: Option<Interval> = close_interval(count, last, t_us);
    let a: FrSlotAgg = FrSlotAgg {
        slot: row.slot,
        count: trace::count_one(count),
        last_t_us: t_us,
        ab: row.ab,
        last_cycle: row.cycle,
        payload: copy_bytes(&row.payload),
    };
    aggs.put(k, a);
    assert(aggs@.dom() =~= old(aggs)@.dom().insert(row.slot as u64));
    closed
}

/// A message's intervals stay inside its shortest and longest ones, over any
/// further frame.
pub proof fn law_interval_bounds(a: MessageAgg, f: CanFrame)
    ensures
        folded(a, f).min_us <= a.min_us,
        folded(a, f).max_us >= a.max_us,
        interval(a.count, a.last_t_us, f.t_us) matches Some(d) ==> folded(a, f).min_us <= d
            && d <= folded(a, f).max_us,
{
}

/// Both directions add up to the count, as long as neither overflows.
pub proof fn law_directions_add_up(a: MessageAgg, f: CanFrame)
    requires
        a.count == a.rx + a.tx,
        a.count < u64::MAX,
    ensures
        folded(a, f).count == folded(a, f).rx + folded(a, f).tx,
{
}

/// A tally describes the frame that it took in last: its payload, length, flags,
/// direction, bus and time are the frame's.
pub proof fn law_a_tally_shows_its_last_frame(a: MessageAgg, f: CanFrame)
    requires
        a.id == f.id,
        a.extended == f.extended,
    ensures
        folded(a, f).frame_spec() == f,
        folded(a, f).payload_spec() == f.payload_spec(),
        folded(a, f).data@ == f.data@,
        folded(a, f).len == f.len,
        folded(a, f).flags == f.flags,
        folded(a, f).dir == f.dir,
        folded(a, f).channel == f.channel,
        folded(a, f).last_t_us == f.t_us,
{
}

/// A frame adds one to the count and one to the count of its direction, and nothing to
/// that of the other direction.
pub proof fn law_a_tally_counts_each_frame_once(a: MessageAgg, f: CanFrame)
    requires
        a.count < u64::MAX,
        a.rx < u64::MAX,
        a.tx < u64::MAX,
    ensures
        folded(a, f).count == a.count + 1,
        f.dir == Direction::Rx ==> folded(a, f).rx == a.rx + 1 && folded(a, f).tx == a.tx,
        f.dir == Direction::Tx ==> folded(a, f).tx == a.tx + 1 && folded(a, f).rx == a.rx,
        folded(a, f).id == a.id,
        folded(a, f).extended == a.extended,
{
}

/// Three frames of a message in the order of their times: the shortest and the longest
/// interval are those between neighbours. A first frame closes no interval.
pub proof fn law_intervals_lie_between_neighbours(f: CanFrame, g: CanFrame, h: CanFrame)
    requires
        f.t_us < g.t_us < h.t_us,
    ensures
        ({
            let one = folded(blank_agg(f), f);
            let two = folded(one, g);
            let three = folded(two, h);
            let first = g.t_us - f.t_us;
            let second = h.t_us - g.t_us;
            &&& one.count == 1 && one.max_us == 0 && one.min_us == u64::MAX
            &&& closed_interval(0, 0, f.t_us) is None
            &&& two.min_us == first && two.max_us == first
            &&& closed_interval(one.count, one.last_t_us, g.t_us) matches Some(i) && i.dt_us
                == first && i.first
            &&& three.min_us == (if first <= second { first } else { second })
            &&& three.max_us == (if first <= second { second } else { first })
            &&& closed_interval(two.count, two.last_t_us, h.t_us) matches Some(i) && i.dt_us
                == second && !i.first
        }),
{
}

/// A frame that is not later than the last one closes no interval: it leaves the shortest
/// and the longest one.
pub proof fn law_a_step_back_closes_no_interval(a: MessageAgg, f: CanFrame)
    requires
        f.t_us <= a.last_t_us,
    ensures
        closed_interval(a.count, a.last_t_us, f.t_us) is None,
        folded(a, f).min_us == a.min_us,
        folded(a, f).max_us == a.max_us,
{
}

/// Two frames share a tally where they share bus, identifier and frame kind, and nowhere
/// else.
pub proof fn law_tallies_are_kept_apart(f: CanFrame, g: CanFrame)
    ensures
        (frame_key(f) == frame_key(g)) == (f.channel == g.channel && f.id == g.id && f.extended
            == g.extended),
{
    table::lemma_key_parts(f.channel, f.id, f.extended, 0);
    table::lemma_key_parts(g.channel, g.id, g.extended, 0);
}

/// A slot's tally shows the row that it took in last, counted once.
pub proof fn law_a_slot_shows_its_last_row(
    before: Option<FrSlotAgg>,
    after: FrSlotAgg,
    row: FrRow,
    t_us: u64,
)
    requires
        is_slot_folded(before, after, row, t_us),
        before matches Some(b) ==> b.count < u64::MAX,
    ensures
        after.slot == row.slot,
        after.payload@ == row.payload@,
        after.ab == row.ab,
        after.last_cycle == row.cycle,
        after.last_t_us == t_us,
        after.count == (match before {
            Some(b) => b.count + 1,
            None => 1,
        }),
{
}

} // verus!
