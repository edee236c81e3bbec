//! One step of the bus: what it does with the frames that arrived, with the
//! generator's due slots and with the replay blocks, frame by frame and at its end.

use vstd::prelude::*;
use vstd::string::*;
use crate::aggregate::Interval;
use crate::app::Mode;
use crate::block;
use crate::block::ReplayBlock;
use crate::bus;
use crate::bus::{is_gate_open, BusCore, MAX_TX_CATCHUP};
use crate::bus_ingest;
use crate::bus_ingest::Outgoing;
use crate::bus_run;
use crate::bus_run::{saturating_later, BusAction};
use crate::bus_types;
use crate::can::frame::{CanFrame, Direction, FrameFlags};
use crate::channel;
use crate::generator;
use crate::generator::TxMsg;
use crate::monitor;

verus! {

/// The slot that lies `j` periods behind the first.
pub open spec fn slot_at(start: u64, cycle: u64, j: int) -> u64 {
    bus_run::later(start, j * cycle)
}

/// How many slots, from `start` on, the clock has passed; at most `budget`.
pub open spec fn slot_count(start: u64, cycle: u64, now: u64, budget: int) -> int
    decreases budget,
{
    if budget <= 0 || start > now {
        0
    } else {
        1 + slot_count(bus_run::later(start, cycle as int), cycle, now, budget - 1)
    }
}

proof fn lemma_slot_step(start: u64, cycle: u64, j: int)
    requires
        j >= 0,
    ensures
        slot_at(start, cycle, 0) == start,
        slot_at(start, cycle, j + 1) == bus_run::later(slot_at(start, cycle, j), cycle as int),
        slot_at(bus_run::later(start, cycle as int), cycle, j) == slot_at(start, cycle, j + 1),
{
    assert((j + 1) * cycle == j * cycle + cycle) by (nonlinear_arith);
    assert(0 * cycle == 0) by (nonlinear_arith);
    assert(j * cycle >= 0) by (nonlinear_arith)
        requires
            j >= 0,
            cycle >= 0,
    ;
}

proof fn lemma_slot_count(start: u64, cycle: u64, now: u64, budget: int)
    requires
        budget >= 0,
    ensures
        0 <= slot_count(start, cycle, now, budget) <= budget,
        forall|j: int|
            0 <= j < slot_count(start, cycle, now, budget) ==> #[trigger] slot_at(
                start,
                cycle,
                j,
            ) <= now,
        slot_count(start, cycle, now, budget) < budget ==> slot_at(
            start,
            cycle,
            slot_count(start, cycle, now, budget),
        ) > now,
    decreases budget,
{
    lemma_slot_step(start, cycle, 0);
    if budget > 0 && start <= now {
        let next = bus_run::later(start, cycle as int);
        lemma_slot_count(next, cycle, now, budget - 1);
        let n = slot_count(start, cycle, now, budget);
        assert forall|j: int| 0 <= j < n implies #[trigger] slot_at(start, cycle, j) <= now by {
            if j > 0 {
                lemma_slot_step(start, cycle, j - 1);
                assert(slot_at(next, cycle, j - 1) <= now);
            }
        }
        lemma_slot_step(start, cycle, n - 1);
    }
}

/// The frames that the first `n` replay blocks put on the bus. Together they send no
/// more than one step may catch up.
pub open spec fn block_frames(blocks: Seq<ReplayBlock>, now: u64, n: int) -> Seq<CanFrame>
    decreases n,
{
    if n <= 0 {
        Seq::empty()
    } else {
        let before = block_frames(blocks, now, n - 1);
        let b = blocks[n - 1];
        before + block::outgoing(
            b.queue@,
            b.cursor as int,
            b.anchor_us,
            b.channel,
            b.sends(now, before.len() as int, MAX_TX_CATCHUP as int),
        )
    }
}

/// The blocks after they were polled: each one's cursor moved past what it sent.
pub open spec fn polled_blocks(blocks: Seq<ReplayBlock>, now: u64) -> Seq<ReplayBlock> {
    Seq::new(
        blocks.len(),
        |i: int|
            ReplayBlock {
                cursor: (blocks[i].cursor + blocks[i].sends(
                    now,
                    block_frames(blocks, now, i).len() as int,
                    MAX_TX_CATCHUP as int,
                )) as usize,
                ..blocks[i]
            },
    )
}

/// One entry's frames of a step: one per due slot, each stamped with its slot and
/// holding the payload of that slot's values.
pub open spec fn is_entry_emitted(
    core: BusCore,
    was: TxMsg,
    now: TxMsg,
    frames: Seq<CanFrame>,
    raws: Seq<Vec<Option<u64>>>,
) -> bool {
    let n = core.slots_due(was);
    &&& frames.len() == n
    &&& forall|j: int|
        0 <= j < n ==> is_slot_frame(
            core,
            was,
            slot_at(core.first_slot(was), was.cycle_us, j),
            raws[j]@,
            #[trigger] frames[j],
        )
    &&& now.next_t_us == slot_at(core.first_slot(was), was.cycle_us, n)
    &&& n > 0 ==> now.last_sent@ == frames.last().data@ && now.last_len == frames.last().len
    &&& n == 0 ==> now.last_sent == was.last_sent && now.last_len == was.last_len
    &&& now == (TxMsg {
        next_t_us: now.next_t_us,
        last_sent: now.last_sent,
        last_len: now.last_len,
        ..was
    })
}

/// The frame of one slot.
pub open spec fn is_slot_frame(
    core: BusCore,
    tx: TxMsg,
    slot: u64,
    raws: Seq<Option<u64>>,
    f: CanFrame,
) -> bool {
    &&& bus_ingest::entry_frame(
        tx,
        slot,
        Outgoing { data: f.data@, len: f.len, flags: f.flags },
        f,
    )
    &&& generator::is_payload(
        channel::table_on(core.channels@, tx.channel),
        tx,
        raws,
        f.data@,
        f.len,
        f.flags,
    )
}

/// What is left to do outside for one frame: write it to the open file, close the
/// file behind it, and smooth the interval it closed.
pub struct FrameWork {
    pub write: bool,
    pub close: bool,
    pub interval: Option<Interval>,
}

/// A chain of one-shot sends, one per request.
pub open spec fn are_sends(
    requests: Seq<(u8, u32)>,
    now_us: u64,
    raws: Seq<Vec<Option<u64>>>,
    steps: Seq<BusCore>,
) -> bool {
    &&& steps.len() == requests.len() + 1
    &&& forall|k: int|
        #![trigger requests[k]]
        0 <= k < requests.len() ==> steps[k].is_sent(
            steps[k + 1],
            requests[k].0,
            requests[k].1,
            now_us,
            raws[k]@,
            Seq::empty(),
        )
}

/// The core after one frame went out for each request.
pub open spec fn are_all_sent(
    start: BusCore,
    after: BusCore,
    requests: Seq<(u8, u32)>,
    now_us: u64,
    raws: Seq<Vec<Option<u64>>>,
) -> bool {
    exists|steps: Seq<BusCore>|
        #[trigger] are_sends(requests, now_us, raws, steps) && steps[0] == start && steps.last()
            == after
}

impl BusCore {
    /// The log itself carries the entry's id on its bus.
    pub open spec fn is_muted(self, tx: TxMsg) -> bool {
        self.mode == Mode::Replay && self.replay_ids@.contains((tx.channel, tx.id))
    }

    /// The entry sends by itself: it is active, its role gate is open, the log does
    /// not carry its id, and it has a period.
    pub open spec fn transmits(self, tx: TxMsg) -> bool {
        tx.active && bus::gate_open(self.channels@, tx) && !self.is_muted(tx) && tx.cycle_us != 0
    }

    /// The first slot of the entry that is not out yet. Log time has no slot zero:
    /// an entry picked up in a replay is anchored at the playhead.
    pub open spec fn first_slot(self, tx: TxMsg) -> u64 {
        if self.mode == Mode::Replay && tx.next_t_us == 0 {
            self.sim_t_us
        } else {
            tx.next_t_us
        }
    }

    /// How many of the entry's slots are due.
    pub open spec fn slots_due(self, tx: TxMsg) -> int {
        if self.transmits(tx) {
            slot_count(
                self.first_slot(tx),
                tx.cycle_us,
                self.sim_t_us,
                MAX_TX_CATCHUP as int,
            )
        } else {
            0
        }
    }

    /// The slots that are due, entry by entry.
    pub open spec fn due_slots_spec(self) -> Seq<Seq<u64>> {
        Seq::new(self.tx_list@.len(), |i: int| self.entry_slots_spec(self.tx_list@[i]))
    }

    pub open spec fn entry_slots_spec(self, tx: TxMsg) -> Seq<u64> {
        Seq::new(
            self.slots_due(tx) as nat,
            |j: int| slot_at(self.first_slot(tx), tx.cycle_us, j),
        )
    }

    /// Whether the log carries the id of an entry.
    pub fn muted(&self, tx: &TxMsg) -> (r: bool)
        ensures
            r == self.is_muted(*tx),
    {
        match self.mode {
            Mode::Replay => {
                for i in 0..self.replay_ids.len()
                    invariant
                        self.mode == Mode::Replay,
                        forall|k: int| 0 <= k < i ==> self.replay_ids@[k] != (tx.channel, tx.id),
                {
                    let pair: (u8, u32) = self.replay_ids[i];
                    if pair.0 == tx.channel && pair.1 == tx.id {
                        assert(self.replay_ids@.contains((tx.channel, tx.id)));
                        return true;
                    }
                }
                false
            },
            Mode::Virtual => false,
        }
    }

    fn entry_slots(&self, tx: &TxMsg) -> (r: Vec<u64>)
        ensures
            r@ == self.entry_slots_spec(*tx),
    {
        let mut slots: Vec<u64> = Vec::new();
        if !(tx.active && is_gate_open(&self.channels, tx) && !self.muted(tx) && tx.cycle_us
            != 0) {
            assert(slots@ =~= self.entry_slots_spec(*tx));
            return slots;
        }
        let ghost start = self.first_slot(*tx);
        let mut next: u64 = match self.mode {
            Mode::Replay => if tx.next_t_us == 0 {
                self.sim_t_us
            } else {
                tx.next_t_us
            },
            Mode::Virtual => tx.next_t_us,
        };
        let mut budget: u32 = MAX_TX_CATCHUP;
        let ghost total = slot_count(start, tx.cycle_us, self.sim_t_us, MAX_TX_CATCHUP as int);
        proof {
            lemma_slot_step(start, tx.cycle_us, 0);
        }
        while budget > 0 && next <= self.sim_t_us
            invariant
                budget <= MAX_TX_CATCHUP,
                slots@.len() == MAX_TX_CATCHUP - budget,
                next == slot_at(start, tx.cycle_us, slots@.len() as int),
                total == slots@.len() + slot_count(
                    next,
                    tx.cycle_us,
                    self.sim_t_us,
                    budget as int,
                ),
                forall|j: int|
                    0 <= j < slots@.len() ==> slots@[j] == slot_at(start, tx.cycle_us, j),
            decreases budget,
        {
            proof {
                lemma_slot_step(start, tx.cycle_us, slots@.len() as int);
            }
            slots.push(next);
            budget = budget - 1;
            next = saturating_later(next, tx.cycle_us);
        }
        assert(slots@ =~= self.entry_slots_spec(*tx));
        slots
    }

    /// The slots that the clock has passed, entry by entry: each goes out at its own
    /// stamp, so that spacing stays exact even in a catch-up burst. The values that
    /// drive a slot's signals are read at the slot.
    pub fn due_slots(&self) -> (r: Vec<Vec<u64>>)
        ensures
            r@.len() == self.tx_list@.len(),
            forall|i: int|
                0 <= i < r@.len() ==> (#[trigger] r@[i])@ == self.due_slots_spec()[i],
    {
        let mut all: Vec<Vec<u64>> = Vec::new();
        for i in 0..self.tx_list.len()
            invariant
                all@.len() == i,
                forall|k: int|
                    0 <= k < i ==> (#[trigger] all@[k])@ == self.due_slots_spec()[k],
        {
            all.push(self.entry_slots(&self.tx_list[i]));
        }
        all
    }

    /// How many frames the first `n` entries emit.
    pub open spec fn emitted_before(self, n: int) -> int
        decreases n,
    {
        if n <= 0 {
            0
        } else {
            self.emitted_before(n - 1) + self.slots_due(self.tx_list@[n - 1])
        }
    }

    /// The values of every due slot are given.
    pub open spec fn covers_slots(self, raws: Seq<Vec<Vec<Option<u64>>>>) -> bool {
        &&& raws.len() == self.tx_list@.len()
        &&& forall|i: int|
            0 <= i < raws.len() ==> (#[trigger] raws[i])@.len() == self.slots_due(
                self.tx_list@[i],
            )
    }

    /// Where an entry's frames stand among this step's.
    pub open spec fn emitted_by(self, after: BusCore, i: int) -> Seq<CanFrame> {
        after.buf@.subrange(
            self.buf@.len() + self.emitted_before(i),
            self.buf@.len() + self.emitted_before(i + 1),
        )
    }

    /// Every entry's due slots went out, behind the frames that were there.
    pub open spec fn is_emitted(
        self,
        after: BusCore,
        raws: Seq<Vec<Vec<Option<u64>>>>,
    ) -> bool {
        &&& after.buf@.len() == self.buf@.len() + self.emitted_before(self.tx_list@.len() as int)
        &&& after.buf@.subrange(0, self.buf@.len() as int) == self.buf@
        &&& after.tx_list@.len() == self.tx_list@.len()
        &&& forall|i: int|
            0 <= i < self.tx_list@.len() ==> is_entry_emitted(
                self,
                self.tx_list@[i],
                #[trigger] after.tx_list@[i],
                self.emitted_by(after, i),
                raws[i]@,
            )
        &&& after == (BusCore { tx_list: after.tx_list, buf: after.buf, ..self })
    }

    /// Sends one entry's due slots.
    fn emit_entry(&mut self, i: usize, raws: &Vec<Vec<Option<u64>>>)
        requires
            old(self).wf(),
            old(self).buf_fits(),
            i < old(self).tx_list@.len(),
            raws@.len() == old(self).slots_due(old(self).tx_list@[i as int]),
        ensures
            final(self).wf(),
            final(self).buf_fits(),
            final(self).buf@.len() == old(self).buf@.len() + raws@.len(),
            final(self).buf@.subrange(0, old(self).buf@.len() as int) == old(self).buf@,
            final(self).tx_list@ == old(self).tx_list@.update(
                i as int,
                final(self).tx_list@[i as int],
            ),
            is_entry_emitted(
                *old(self),
                old(self).tx_list@[i as int],
                final(self).tx_list@[i as int],
                final(self).buf@.subrange(
                    old(self).buf@.len() as int,
                    final(self).buf@.len() as int,
                ),
                raws@,
            ),
            *final(self) == (BusCore {
                tx_list: final(self).tx_list,
                buf: final(self).buf,
                ..*old(self)
            }),
    {
        let ghost core = *self;
        let ghost was = self.tx_list@[i as int];
        let ghost held = self.buf@.len() as int;
        let slots: Vec<u64> = self.entry_slots(&self.tx_list[i]);
        let total: usize = slots.len();
        // The anchor of a replay moves even where nothing is due.
        if let Mode::Replay = self.mode {
            if self.tx_list[i].next_t_us == 0 {
                let sim: u64 = self.sim_t_us;
                let tx: &mut TxMsg = &mut self.tx_list[i];
                tx.next_t_us = sim;
            }
        }
        let ghost start = core.first_slot(was);
        proof {
            lemma_slot_step(start, was.cycle_us, 0);
        }
        assert(self.tx_list@ =~= core.tx_list@.update(i as int, self.tx_list@[i as int]));
        for j in 0..total
            invariant
                core.wf(),
                core.buf_fits(),
                core == *old(self),
                i < core.tx_list@.len(),
                was == core.tx_list@[i as int],
                start == core.first_slot(was),
                held == core.buf@.len(),
                total == slots@.len(),
                total == raws@.len(),
                total == core.slots_due(was),
                slots@ == core.entry_slots_spec(was),
                *self == (BusCore { tx_list: self.tx_list, buf: self.buf, ..core }),
                self.tx_list@.len() == core.tx_list@.len(),
                self.tx_list@ == core.tx_list@.update(i as int, self.tx_list@[i as int]),
                self.tx_list@[i as int].last_len <= 64,
                ({
                    let t = self.tx_list@[i as int];
                    &&& t == (TxMsg {
                        next_t_us: t.next_t_us,
                        last_sent: t.last_sent,
                        last_len: t.last_len,
                        ..was
                    })
                    &&& t.next_t_us == slot_at(start, was.cycle_us, j as int)
                    &&& j > 0 ==> t.last_sent@ == self.buf@.last().data@ && t.last_len
                        == self.buf@.last().len
                    &&& j == 0 ==> t.last_sent == was.last_sent && t.last_len == was.last_len
                }),
                self.buf@.len() == held + j,
                forall|k: int| 0 <= k < held ==> self.buf@[k] == core.buf@[k],
                forall|k: int|
                    held <= k < held + j ==> (#[trigger] self.buf@[k]).wf() && is_slot_frame(
                        core,
                        was,
                        slot_at(start, was.cycle_us, k - held),
                        raws@[k - held]@,
                        self.buf@[k],
                    ),
        {
            let slot: u64 = slots[j];
            assert(slot == slot_at(start, was.cycle_us, j as int));
            assert(core.tx_list@[i as int].len <= 64);
            let (data, len, flags): ([u8; 64], u8, FrameFlags) = generator::tx_payload(
                &self.channels,
                &self.tx_list[i],
                &raws[j],
            );
            proof {
                lemma_slot_step(start, was.cycle_us, j as int);
            }
            let next: u64 = saturating_later(slot, self.tx_list[i].cycle_us);
            let tx: &mut TxMsg = &mut self.tx_list[i];
            tx.next_t_us = next;
            tx.last_sent = data;
            tx.last_len = len;
            let f: CanFrame = CanFrame {
                t_us: slot,
                channel: tx.channel,
                id: tx.id,
                extended: tx.extended,
                len,
                data,
                dir: Direction::Tx,
                flags,
            };
            self.buf.push(f);
            assert(self.tx_list@ =~= core.tx_list@.update(i as int, self.tx_list@[i as int]));
            assert(is_slot_frame(core, was, slot, raws@[j as int]@, f));
        }
        assert(self.buf@.subrange(0, held) =~= core.buf@);
        let ghost frames = self.buf@.subrange(held, self.buf@.len() as int);
        assert forall|k: int| 0 <= k < total implies is_slot_frame(
            core,
            was,
            slot_at(start, was.cycle_us, k),
            raws@[k]@,
            #[trigger] frames[k],
        ) by {
            assert(frames[k] == self.buf@[held + k]);
        }
        assert forall|k: int| 0 <= k < self.buf@.len() implies (#[trigger] self.buf@[k]).wf() by {
            if k < held {
                assert(core.buf@[k].wf());
            }
        }
        assert forall|k: int| 0 <= k < self.tx_list@.len() implies (
        #[trigger] self.tx_list@[k]).len <= 64 && self.tx_list@[k].last_len <= 64 by {
            assert(core.tx_list@[k].len <= 64);
        }
    }

    /// Sends every due slot of every entry. `raws` holds, for each due slot, the raw
    /// value of each of the entry's sources at that slot.
    pub fn emit_due(&mut self, raws: &Vec<Vec<Vec<Option<u64>>>>)
        requires
            old(self).wf(),
            old(self).buf_fits(),
            old(self).covers_slots(raws@),
        ensures
            final(self).wf(),
            final(self).buf_fits(),
            old(self).is_emitted(*final(self), raws@),
    {
        let ghost core = *self;
        let total: usize = self.tx_list.len();
        proof {
            assert(self.buf@.subrange(0, core.buf@.len() as int) =~= core.buf@);
        }
        for i in 0..total
            invariant
                core == *old(self),
                core.covers_slots(raws@),
                total == core.tx_list@.len(),
                self.wf(),
                self.buf_fits(),
                *self == (BusCore { tx_list: self.tx_list, buf: self.buf, ..core }),
                self.tx_list@.len() == total,
                self.buf@.len() == core.buf@.len() + core.emitted_before(i as int),
                forall|k: int| 0 <= k < core.buf@.len() ==> self.buf@[k] == core.buf@[k],
                forall|k: int| i <= k < total ==> self.tx_list@[k] == core.tx_list@[k],
                forall|k: int|
                    0 <= k < i ==> is_entry_emitted(
                        core,
                        core.tx_list@[k],
                        #[trigger] self.tx_list@[k],
                        core.emitted_by(*self, k),
                        raws@[k]@,
                    ),
        {
            let ghost mid = *self;
            assert(raws@[i as int]@.len() == core.slots_due(core.tx_list@[i as int]));
            self.emit_entry(i, &raws[i]);
            proof {
                lemma_emitted_mono(core, i as int);
                lemma_emitted_le(core, 0, i as int);
                assert(self.buf@.subrange(0, mid.buf@.len() as int) == mid.buf@);
                assert forall|k: int| 0 <= k < mid.buf@.len() implies self.buf@[k] == mid.buf@[k] by {
                    assert(self.buf@.subrange(0, mid.buf@.len() as int)[k] == self.buf@[k]);
                }
                assert(core.emitted_by(*self, i as int) =~= self.buf@.subrange(
                    mid.buf@.len() as int,
                    self.buf@.len() as int,
                ));
                assert forall|k: int| 0 <= k < i + 1 implies is_entry_emitted(
                    core,
                    core.tx_list@[k],
                    #[trigger] self.tx_list@[k],
                    core.emitted_by(*self, k),
                    raws@[k]@,
                ) by {
                    if k < i {
                        assert(self.tx_list@[k] == mid.tx_list@[k]);
                        lemma_emitted_le(core, k + 1, i as int);
                        lemma_emitted_le(core, k, k + 1);
                        lemma_emitted_le(core, 0, k);
                        assert(core.emitted_by(*self, k) =~= core.emitted_by(mid, k));
                    } else {
                        assert(is_entry_emitted(
                            mid,
                            core.tx_list@[k],
                            self.tx_list@[k],
                            core.emitted_by(*self, k),
                            raws@[k]@,
                        ));
                        let was = core.tx_list@[k];
                        assert(mid.slots_due(was) == core.slots_due(was));
                        assert(mid.first_slot(was) == core.first_slot(was));
                        let frames = core.emitted_by(*self, k);
                        assert forall|j: int| 0 <= j < core.slots_due(was) implies is_slot_frame(
                            core,
                            was,
                            slot_at(core.first_slot(was), was.cycle_us, j),
                            raws@[k]@[j]@,
                            #[trigger] frames[j],
                        ) by {
                            assert(is_slot_frame(
                                mid,
                                was,
                                slot_at(mid.first_slot(was), was.cycle_us, j),
                                raws@[k]@[j]@,
                                frames[j],
                            ));
                        }
                    }
                }
            }
        }
        proof {
            lemma_emitted_le(core, 0, total as int);
        }
        assert(self.buf@.subrange(0, core.buf@.len() as int) =~= core.buf@);
    }

    /// Sends one frame for each request, in order.
    fn send_all(&mut self, requests: &Vec<(u8, u32)>, now_us: u64, raws: &Vec<Vec<Option<u64>>>)
        requires
            old(self).wf(),
            old(self).buf_fits(),
            raws@.len() == requests@.len(),
        ensures
            final(self).wf(),
            final(self).buf_fits(),
            are_all_sent(*old(self), *final(self), requests@, now_us, raws@),
            *final(self) == (BusCore {
                tx_list: final(self).tx_list,
                buf: final(self).buf,
                ..*old(self)
            }),
    {
        let none: Vec<(String, Option<u64>)> = Vec::new();
        assert(none@ =~= Seq::empty());
        let ghost start = *self;
        let ghost mut steps: Seq<BusCore> = seq![start];
        let total: usize = requests.len();
        for k in 0..total
            invariant
                total == requests@.len(),
                raws@.len() == total,
                none@ == Seq::<(String, Option<u64>)>::empty(),
                self.wf(),
                self.buf_fits(),
                start == *old(self),
                steps.len() == k + 1,
                steps[0] == start,
                steps[k as int] == *self,
                *self == (BusCore { tx_list: self.tx_list, buf: self.buf, ..start }),
                forall|j: int|
                    #![trigger requests@[j]]
                    0 <= j < k ==> steps[j].is_sent(
                        steps[j + 1],
                        requests@[j].0,
                        requests@[j].1,
                        now_us,
                        raws@[j]@,
                        Seq::empty(),
                    ),
        {
            let pair: (u8, u32) = requests[k];
            let ghost held = steps;
            self.send_one_shot(pair.0, pair.1, now_us, &raws[k], &none);
            proof {
                steps = steps.push(*self);
                assert forall|j: int|
                    #![trigger requests@[j]]
                    0 <= j < k + 1 implies steps[j].is_sent(
                    steps[j + 1],
                    requests@[j].0,
                    requests@[j].1,
                    now_us,
                    raws@[j]@,
                    Seq::empty(),
                ) by {
                    if j < k {
                        assert(steps[j] == held[j] && steps[j + 1] == held[j + 1]);
                    }
                }
            }
        }
        assert(are_sends(requests@, now_us, raws@, steps));
    }

    /// The step begins: the load windows drain, the frames that the source gave are
    /// this step's first, and every send-now request is built into a frame stamped
    /// with this step's clock.
    pub open spec fn is_step_opened(
        self,
        after: BusCore,
        polled: Vec<CanFrame>,
        now_us: u64,
        stride: u64,
        raws: Seq<Vec<Option<u64>>>,
        source_empty: bool,
    ) -> bool {
        exists|start: BusCore, last: BusCore|
            {
                &&& #[trigger] are_all_sent(start, last, self.injected@, now_us, raws)
                &&& start.injected@.len() == 0
                &&& start == (BusCore {
                    loads_dirty: true,
                    buf: polled,
                    injected: start.injected,
                    ..self
                })
                &&& source_empty == (last.buf@.len() == 0)
                &&& after == (BusCore {
                    sample_cover: if stride != self.applied_stride_us {
                        None
                    } else {
                        self.sample_cover
                    },
                    applied_stride_us: stride,
                    sim_t_us: if self.mode == Mode::Replay && last.buf@.len() > 0 {
                        last.buf@.last().t_us
                    } else {
                        self.sim_t_us
                    },
                    ..last
                })
            }
    }

    /// Begins a step. `polled` are the frames the source gave, `raws` the values of
    /// each requested entry's sources at `now_us`. The log clock is primary while
    /// replaying: it follows the newest frame's own stamp and holds between frames.
    /// Returns whether nothing arrived.
    pub fn open_step(
        &mut self,
        polled: Vec<CanFrame>,
        now_us: u64,
        stride: u64,
        raws: &Vec<Vec<Option<u64>>>,
    ) -> (source_empty: bool)
        requires
            old(self).wf(),
            bus_run::frames_fit(polled@),
            raws@.len() == old(self).injected@.len(),
        ensures
            final(self).wf(),
            final(self).buf_fits(),
            old(self).is_step_opened(
                *final(self),
                polled,
                now_us,
                stride,
                raws@,
                source_empty,
            ),
    {
        let ghost core = *self;
        self.loads_dirty = true;
        self.buf = polled;
        let mut requests: Vec<(u8, u32)> = Vec::new();
        std::mem::swap(&mut requests, &mut self.injected);
        self.send_all(&requests, now_us, raws);
        let source_empty: bool = self.buf.len() == 0;
        if stride != self.applied_stride_us {
            self.sample_cover = None;
            self.applied_stride_us = stride;
        }
        if let Mode::Replay = self.mode {
            if self.buf.len() > 0 {
                self.sim_t_us = self.buf[self.buf.len() - 1].t_us;
            }
        }
        source_empty
    }

    /// The replay blocks' due traffic joins the step, in a simulation: in a replay
    /// the whole log already is the source.
    pub open spec fn are_blocks_polled(self, after: BusCore) -> bool {
        if self.mode == Mode::Replay {
            after == self
        } else {
            &&& after.buf@ == self.buf@ + block_frames(
                self.replay_blocks@,
                self.sim_t_us,
                self.replay_blocks@.len() as int,
            )
            &&& after.replay_blocks@ == polled_blocks(self.replay_blocks@, self.sim_t_us)
            &&& after == (BusCore {
                buf: after.buf,
                replay_blocks: after.replay_blocks,
                ..self
            })
        }
    }

    /// Lets the replay blocks send what is due.
    pub fn poll_blocks(&mut self)
        requires
            old(self).wf(),
            old(self).buf_fits(),
        ensures
            final(self).wf(),
            final(self).buf_fits(),
            old(self).are_blocks_polled(*final(self)),
    {
        if let Mode::Replay = self.mode {
            return;
        }
        let ghost core = *self;
        let mut out: Vec<CanFrame> = Vec::new();
        let now: u64 = self.sim_t_us;
        let total: usize = self.replay_blocks.len();
        for i in 0..total
            invariant
                core == *old(self),
                core.wf(),
                core.buf_fits(),
                total == core.replay_blocks@.len(),
                self.replay_blocks@.len() == total,
                now == core.sim_t_us,
                *self == (BusCore { replay_blocks: self.replay_blocks, ..core }),
                out@ == block_frames(core.replay_blocks@, now, i as int),
                forall|k: int| 0 <= k < out@.len() ==> (#[trigger] out@[k]).wf(),
                forall|k: int|
                    0 <= k < i ==> #[trigger] self.replay_blocks@[k] == polled_blocks(
                        core.replay_blocks@,
                        now,
                    )[k] && self.replay_blocks@[k].wf(),
                forall|k: int| i <= k < total ==> self.replay_blocks@[k] == core.replay_blocks@[k],
        {
            let ghost held = out@;
            let ghost was = core.replay_blocks@[i as int];
            assert(was.wf());
            let b: &mut ReplayBlock = &mut self.replay_blocks[i];
            b.poll(now, &mut out, MAX_TX_CATCHUP as usize);
            proof {
                block::lemma_due_count(
                    was.queue@,
                    was.cursor as int,
                    was.anchor_us,
                    now,
                    MAX_TX_CATCHUP - held.len(),
                );
                assert forall|k: int| 0 <= k < out@.len() implies (#[trigger] out@[k]).wf() by {
                    if k < held.len() {
                        assert(out@[k] == held[k]);
                    } else {
                        let q = was.cursor + (k - held.len());
                        assert(was.queue@[q].1.wf());
                    }
                }
            }
        }
        assert(self.replay_blocks@ =~= polled_blocks(core.replay_blocks@, now));
        let ghost sent = out@;
        self.buf.append(&mut out);
        assert(self.buf@ =~= core.buf@ + sent);
        assert forall|k: int| 0 <= k < self.buf@.len() implies (#[trigger] self.buf@[k]).wf() by {
            if k < core.buf@.len() {
                assert(core.buf@[k].wf());
            } else {
                assert(sent[k - core.buf@.len()].wf());
            }
        }
    }

    /// Frames that an attached adapter received join the step, in a simulation: a
    /// replay stays wire-free.
    pub fn take_received(&mut self, frames: &Vec<CanFrame>)
        requires
            old(self).wf(),
            old(self).buf_fits(),
            bus_run::frames_fit(frames@),
        ensures
            final(self).wf(),
            final(self).buf_fits(),
            final(self).buf@ == (if old(self).mode == Mode::Replay {
                old(self).buf@
            } else {
                old(self).buf@ + frames@
            }),
            *final(self) == (BusCore { buf: final(self).buf, ..*old(self) }),
    {
        if let Mode::Replay = self.mode {
            return;
        }
        let total: usize = frames.len();
        let ghost before = self.buf@;
        assert(before =~= before + frames@.subrange(0, 0));
        for i in 0..total
            invariant
                total == frames@.len(),
                bus_run::frames_fit(frames@),
                self.wf(),
                self.buf_fits(),
                before == old(self).buf@,
                *self == (BusCore { buf: self.buf, ..*old(self) }),
                self.buf@ == before + frames@.subrange(0, i as int),
        {
            let ghost held = self.buf@;
            self.buf.push(frames[i]);
            assert(self.buf@ =~= before + frames@.subrange(0, i + 1));
            assert forall|k: int| 0 <= k < self.buf@.len() implies (#[trigger] self.buf@[k]).wf() by {
                if k < held.len() {
                    assert(self.buf@[k] == held[k]);
                    assert(held[k].wf());
                } else {
                    assert(frames@[i as int].wf());
                }
            }
        }
        assert(frames@.subrange(0, total as int) =~= frames@);
    }

    /// Whether a bus's frames go onto the wire too: the hardware is connected and
    /// the bus's attachment can transmit.
    pub fn reaches_wire(&self, ch: u8) -> (r: bool)
        requires
            self.wf(),
        ensures
            r == (self.hw.live && self.hw.buses@.dom().contains(bus_types::bus_key(ch))
                && self.hw.buses@[bus_types::bus_key(ch)].can_tx),
    {
        if !self.hw.live {
            return false;
        }
        match self.hw.buses.get(bus_types::key_of_bus(ch)) {
            Some(b) => b.can_tx,
            None => false,
        }
    }

    /// The frames before a triggered recording: one more, and the oldest leaves once
    /// the ring outgrows its limit.
    pub open spec fn remembered(self, f: CanFrame) -> Seq<CanFrame> {
        let all = self.pre_buffer@.push(f);
        if all.len() > self.pre_frames {
            all.drop_first()
        } else {
            all
        }
    }

    /// One frame passes the record filter, or not. A frame that passes is written,
    /// remembered, and counted against a running post-roll.
    pub open spec fn is_recorded(
        self,
        after: BusCore,
        f: CanFrame,
        write: bool,
        close: bool,
        before: Seq<char>,
        status: Seq<char>,
    ) -> bool {
        if !self.recorder.admits_spec(f) {
            after == self && !write && !close && status == before
        } else {
            &&& write
            &&& after.pre_buffer@ == self.remembered(f)
            &&& close == (self.post_roll matches Some(left) && left <= 1)
            &&& after.post_roll == (match self.post_roll {
                Some(left) => if left <= 1 {
                    None
                } else {
                    Some((left - 1) as u32)
                },
                None => None,
            })
            &&& after.recorder == (bus_types::Recorder {
                recording: self.recorder.recording && !close,
                ..self.recorder
            })
            &&& status == (if close {
                "trigger post-roll finished"@
            } else {
                before
            })
            &&& after == (BusCore {
                pre_buffer: after.pre_buffer,
                post_roll: after.post_roll,
                recorder: after.recorder,
                ..self
            })
        }
    }

    fn record(&mut self, f: CanFrame, status: &mut String) -> (r: (bool, bool))
        requires
            old(self).wf(),
        ensures
            final(self).wf(),
            old(self).is_recorded(
                *final(self),
                f,
                r.0,
                r.1,
                old(status)@,
                final(status)@,
            ),
    {
        if !self.recorder.admits(&f) {
            return (false, false);
        }
        let ghost before = self.pre_buffer@;
        self.pre_buffer.push_back(f);
        if self.pre_buffer.len() > self.pre_frames {
            self.pre_buffer.pop_front();
            assert(self.pre_buffer@ =~= before.push(f).drop_first());
        }
        let mut close: bool = false;
        match self.post_roll {
            Some(left) => {
                if left <= 1 {
                    self.post_roll = None;
                    self.recorder.recording = false;
                    *status = "trigger post-roll finished".to_owned();
                    close = true;
                } else {
                    self.post_roll = Some(left - 1);
                }
            },
            None => {},
        }
        (true, close)
    }

    /// One frame of the step, after the rules judged it: it is recorded, then folded
    /// into everything that watches the bus.
    pub open spec fn is_frame_taken(
        self,
        after: BusCore,
        f: CanFrame,
        stride: u64,
        work: FrameWork,
        before: Seq<char>,
        status: Seq<char>,
    ) -> bool {
        exists|mid: BusCore|
            {
                &&& #[trigger] self.is_recorded(mid, f, work.write, work.close, before, status)
                &&& mid.is_ingested(after, f, stride, work.interval)
            }
    }

    /// Takes in one frame of the step. The record filter gates only what lands in
    /// the file; trace, tallies and specification always see the whole bus.
    pub fn take_frame(&mut self, f: CanFrame, stride: u64, status: &mut String) -> (work: FrameWork)
        requires
            old(self).wf(),
            f.wf(),
        ensures
            final(self).wf(),
            old(self).is_frame_taken(
                *final(self),
                f,
                stride,
                work,
                old(status)@,
                final(status)@,
            ),
    {
        let (write, close): (bool, bool) = self.record(f, status);
        let ghost mid = *self;
        let interval: Option<Interval> = self.ingest(f, stride);
        let work: FrameWork = FrameWork { write, close, interval };
        assert(old(self).is_recorded(mid, f, work.write, work.close, old(status)@, status@));
        assert(mid.is_ingested(*self, f, stride, work.interval));
        work
    }

    /// A replay has come to its end: its log gave nothing and has nothing left.
    pub open spec fn is_replay_done(self, source_empty: bool, source_done: bool) -> bool {
        self.mode == Mode::Replay && source_empty && source_done
    }

    pub fn replay_done(&self, source_empty: bool, source_done: bool) -> (r: bool)
        ensures
            r == self.is_replay_done(source_empty, source_done),
    {
        match self.mode {
            Mode::Replay => source_empty && source_done,
            Mode::Virtual => false,
        }
    }

    /// The frames of a step are all in: what arrived is published, and the databases'
    /// promises are checked.
    pub open spec fn is_step_closed(
        self,
        after: BusCore,
        landed: bool,
        tol_pct: u64,
        grace: u64,
    ) -> bool {
        &&& if landed {
            &&& after.published_trace@ == self.trace@
            &&& after.published_fr@ == self.fr_trace@
        } else {
            &&& after.published_trace == self.published_trace
            &&& after.published_fr == self.published_fr
        }
        &&& after.monitor.rows@ == monitor::swept(
            self.monitor.rows@,
            self.monitor.seen@,
            self.channels@,
            self.aggs.items@,
            self.sim_t_us,
            self.is_live(),
            tol_pct,
            grace,
            self.aggs.items@.len() as int,
        )
        &&& after.monitor.seen@ == monitor::noted(
            self.monitor.seen@,
            self.aggs.items@,
            self.aggs.items@.len() as int,
        )
        &&& after == (BusCore {
            published_trace: after.published_trace,
            published_fr: after.published_fr,
            monitor: after.monitor,
            ..self
        })
    }

    /// Ends the walk through a step's frames. `landed` tells whether anything
    /// arrived.
    pub fn close_step(&mut self, landed: bool, tol_pct: u64, grace: u64)
        requires
            old(self).wf(),
        ensures
            final(self).wf(),
            old(self).is_step_closed(*final(self), landed, tol_pct, grace),
    {
        if landed {
            self.publish_trace();
        }
        self.check_spec(tol_pct, grace);
    }

    /// Settles a finished replay: the measurement ends and the recorder closes.
    /// `duration` is the log's length in seconds, in words.
    pub fn finish_replay(&mut self, duration: &str, status: &mut String) -> (actions: Vec<
        BusAction,
    >)
        requires
            old(self).wf(),
        ensures
            final(self).wf(),
            *final(self) == (BusCore { measuring: false, ..*old(self) }),
            final(status)@ == "replay finished at "@ + duration@ + "s"@,
            actions@ == seq![BusAction::CloseRecorder],
    {
        self.measuring = false;
        let mut line: String = "replay finished at ".to_owned();
        line.append(duration);
        line.append("s");
        *status = line;
        let mut actions: Vec<BusAction> = Vec::new();
        actions.push(BusAction::CloseRecorder);
        assert(actions@ =~= seq![BusAction::CloseRecorder]);
        actions
    }
}

proof fn lemma_emitted_mono(core: BusCore, i: int)
    requires
        0 <= i < core.tx_list@.len(),
    ensures
        core.emitted_before(i + 1) == core.emitted_before(i) + core.slots_due(core.tx_list@[i]),
        core.slots_due(core.tx_list@[i]) >= 0,
{
    let tx = core.tx_list@[i];
    lemma_slot_count(core.first_slot(tx), tx.cycle_us, core.sim_t_us, MAX_TX_CATCHUP as int);
}

proof fn lemma_emitted_le(core: BusCore, i: int, j: int)
    requires
        0 <= i <= j <= core.tx_list@.len(),
    ensures
        core.emitted_before(i) <= core.emitted_before(j),
    decreases j - i,
{
    if i < j {
        lemma_emitted_le(core, i, j - 1);
        lemma_emitted_mono(core, j - 1);
    }
}

/// Every slot that the clock has passed goes out, at most as many as one step may
/// catch up; and once fewer than that went out, the next slot lies ahead.
pub proof fn law_no_slot_is_skipped(core: BusCore, tx: TxMsg)
    requires
        core.transmits(tx),
    ensures
        0 <= core.slots_due(tx) <= MAX_TX_CATCHUP,
        forall|j: int|
            0 <= j < core.slots_due(tx) ==> (#[trigger] core.entry_slots_spec(tx)[j])
                <= core.sim_t_us,
        core.slots_due(tx) < MAX_TX_CATCHUP ==> slot_at(
            core.first_slot(tx),
            tx.cycle_us,
            core.slots_due(tx),
        ) > core.sim_t_us,
{
    lemma_slot_count(core.first_slot(tx), tx.cycle_us, core.sim_t_us, MAX_TX_CATCHUP as int);
    assert forall|j: int| 0 <= j < core.slots_due(tx) implies (
    #[trigger] core.entry_slots_spec(tx)[j]) <= core.sim_t_us by {
        assert(slot_at(core.first_slot(tx), tx.cycle_us, j) <= core.sim_t_us);
    }
}

/// Two slots of an entry lie exactly their periods apart, in a catch-up burst too.
pub proof fn law_slots_are_cycle_spaced(start: u64, cycle: u64, j: int, k: int)
    requires
        0 <= j <= k,
        start + k * cycle <= u64::MAX,
    ensures
        slot_at(start, cycle, k) - slot_at(start, cycle, j) == (k - j) * cycle,
{
    assert(0 <= j * cycle <= k * cycle) by (nonlinear_arith)
        requires
            0 <= j <= k,
            cycle >= 0,
    ;
    assert((k - j) * cycle == k * cycle - j * cycle) by (nonlinear_arith);
}

/// An entry without a period, one that is off, one whose node is not simulated, and
/// in a replay one whose id the log carries, sends nothing by itself.
pub proof fn law_idle_entries_stay_silent(core: BusCore, tx: TxMsg)
    requires
        tx.cycle_us == 0 || !tx.active || !bus::gate_open(core.channels@, tx) || core.is_muted(tx),
    ensures
        core.slots_due(tx) == 0,
        core.entry_slots_spec(tx).len() == 0,
{
}

/// Stepping twice sends what one step to the later time sends, as long as neither
/// exhausts what a step may catch up.
pub proof fn law_steps_add_up(start: u64, cycle: u64, first: u64, second: u64, budget: int)
    requires
        first <= second,
        budget >= 0,
        slot_count(start, cycle, second, budget) < budget,
    ensures
        ({
            let a = slot_count(start, cycle, first, budget);
            let next = slot_at(start, cycle, a);
            slot_count(start, cycle, second, budget) == a + slot_count(
                next,
                cycle,
                second,
                budget,
            )
        }),
    decreases budget,
{
    lemma_slot_step(start, cycle, 0);
    lemma_slot_count(start, cycle, second, budget);
    lemma_slot_count(start, cycle, first, budget);
    if budget > 0 && start <= first {
        let next = bus_run::later(start, cycle as int);
        law_steps_add_up(next, cycle, first, second, budget - 1);
        let a = slot_count(next, cycle, first, budget - 1);
        lemma_slot_count(next, cycle, first, budget - 1);
        lemma_slot_step(start, cycle, a);
        lemma_more_budget(slot_at(start, cycle, a + 1), cycle, second, budget - 1);
    }
}

/// A larger budget changes nothing where the smaller one was not exhausted.
proof fn lemma_more_budget(start: u64, cycle: u64, now: u64, budget: int)
    requires
        budget >= 0,
        slot_count(start, cycle, now, budget) < budget,
    ensures
        slot_count(start, cycle, now, budget + 1) == slot_count(start, cycle, now, budget),
    decreases budget,
{
    if budget > 0 && start <= now {
        lemma_more_budget(bus_run::later(start, cycle as int), cycle, now, budget - 1);
    }
}

/// The memory before a trigger never outgrows its limit.
pub proof fn law_memory_stays_in_its_limit(core: BusCore, f: CanFrame)
    requires
        core.pre_buffer@.len() <= core.pre_frames,
    ensures
        core.remembered(f).len() <= core.pre_frames,
        core.pre_frames > 0 ==> core.remembered(f).last() == f,
{
}

/// A recording that was told to stop closes with the last frame of its post-roll,
/// and not before.
pub proof fn law_post_roll_counts_down(
    core: BusCore,
    after: BusCore,
    f: CanFrame,
    write: bool,
    close: bool,
    before: Seq<char>,
    status: Seq<char>,
    left: u32,
)
    requires
        core.post_roll == Some(left),
        core.recorder.recording,
        core.recorder.admits_spec(f),
        core.is_recorded(after, f, write, close, before, status),
    ensures
        write,
        close == (left <= 1),
        left > 1 ==> after.post_roll == Some((left - 1) as u32) && after.recorder.recording,
        left <= 1 ==> after.post_roll is None && !after.recorder.recording,
{
}

/// A frame that the record filter holds back leaves the recording as it was.
pub proof fn law_the_filter_gates_the_file(
    core: BusCore,
    after: BusCore,
    f: CanFrame,
    write: bool,
    close: bool,
    before: Seq<char>,
    status: Seq<char>,
)
    requires
        !core.recorder.admits_spec(f),
        core.is_recorded(after, f, write, close, before, status),
    ensures
        !write,
        !close,
        after.pre_buffer == core.pre_buffer,
        after.post_roll == core.post_roll,
        after.recorder == core.recorder,
{
}

/// A replay block never adds to a replay: there the log is the source, and nothing is
/// delivered twice.
pub proof fn law_blocks_stay_out_of_a_replay(core: BusCore, after: BusCore)
    requires
        core.mode == Mode::Replay,
        core.are_blocks_polled(after),
    ensures
        after == core,
{
}

} // verus!
