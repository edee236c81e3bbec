//! What the generator puts on the bus: which bytes a generated frame carries, how long it
//! is, when it goes out and what the recorder keeps of it.

use vstd::arithmetic::power2::pow2;
use vstd::prelude::*;
use crate::app::Mode;
use crate::bus;
use crate::bus::BusCore;
use crate::bus_step;
use crate::can::frame;
use crate::can::frame::{CanFrame, Direction, FrameFlags};
use crate::channel::{Channel, NodeRole};
use crate::dbc::{SignalInfo, SymbolTable};
use crate::decode_laws;
use crate::generator;
use crate::generator::TxMsg;

verus! {

/// Source `k` sets the signal `s` to `v`.
pub open spec fn drives(
    t: SymbolTable,
    tx: TxMsg,
    raws: Seq<Option<u64>>,
    k: int,
    s: SignalInfo,
    v: u64,
) -> bool {
    &&& 0 <= k < tx.srcs@.len()
    &&& k < raws.len()
    &&& raws[k] == Some(v)
    &&& t.signal_spec(tx.id, tx.srcs@[k].name@) == Some(s)
}

/// Source `k` sets nothing: it has no value, or the message has no such signal.
pub open spec fn is_idle(t: SymbolTable, tx: TxMsg, raws: Seq<Option<u64>>, k: int) -> bool {
    ||| k >= raws.len()
    ||| raws[k] is None
    ||| t.signal_spec(tx.id, tx.srcs@[k].name@) is None
}

/// The signal owns the place.
pub open spec fn owns(s: SignalInfo, pos: int) -> bool {
    0 < s.size <= 64 && exists|i: nat|
        i < s.size && #[trigger] decode_laws::place(s.start_bit as int, s.big_endian, i) == pos
}

proof fn lemma_step_keeps(
    t: SymbolTable,
    tx: TxMsg,
    raws: Seq<Option<u64>>,
    before: Seq<u8>,
    after: Seq<u8>,
    k: int,
    pos: int,
)
    requires
        0 <= k < tx.srcs@.len(),
        generator::is_laid(
            t,
            tx.id,
            tx.srcs@[k].name@,
            generator::raw_at(raws, k),
            before,
            after,
        ),
        0 <= pos < 8 * before.len(),
        is_idle(t, tx, raws, k) || !owns(t.signal_spec(tx.id, tx.srcs@[k].name@)->0, pos),
    ensures
        after.len() == before.len(),
        decode_laws::bit_at(after, pos) == decode_laws::bit_at(before, pos),
{
    if !is_idle(t, tx, raws, k) {
        let s = t.signal_spec(tx.id, tx.srcs@[k].name@)->0;
        let v = raws[k]->0;
        decode_laws::law_packing_sets_the_places_of_the_field(
            before,
            after,
            s.start_bit,
            s.size,
            s.big_endian,
            v,
            pos,
        );
    }
}

proof fn lemma_steps_keep(
    t: SymbolTable,
    tx: TxMsg,
    raws: Seq<Option<u64>>,
    steps: Seq<Seq<u8>>,
    from: int,
    to: int,
    pos: int,
)
    requires
        generator::are_steps(t, tx.id, tx.srcs@, raws, tx.data@, steps),
        0 <= from <= to <= tx.srcs@.len(),
        0 <= pos < 8 * steps[from].len(),
        forall|k: int|
            from <= k < to ==> is_idle(t, tx, raws, k) || !owns(
                t.signal_spec(tx.id, (#[trigger] tx.srcs@[k]).name@)->0,
                pos,
            ),
    ensures
        steps[to].len() == steps[from].len(),
        decode_laws::bit_at(steps[to], pos) == decode_laws::bit_at(steps[from], pos),
    decreases to - from,
{
    if from < to {
        lemma_steps_keep(t, tx, raws, steps, from, to - 1, pos);
        assert(is_idle(t, tx, raws, to - 1) || !owns(
            t.signal_spec(tx.id, tx.srcs@[to - 1].name@)->0,
            pos,
        ));
        lemma_step_keeps(t, tx, raws, steps[to - 1], steps[to], to - 1, pos);
    }
}

/// A bit of a generated payload that no driven signal owns is the bit of the base bytes.
pub proof fn law_undriven_bits_are_the_base(
    t: SymbolTable,
    tx: TxMsg,
    raws: Seq<Option<u64>>,
    data: Seq<u8>,
    len: u8,
    flags: FrameFlags,
    pos: int,
)
    requires
        generator::is_payload(Some(t), tx, raws, data, len, flags),
        0 <= pos < 512,
        forall|k: int|
            0 <= k < tx.srcs@.len() ==> is_idle(t, tx, raws, k) || !owns(
                t.signal_spec(tx.id, (#[trigger] tx.srcs@[k]).name@)->0,
                pos,
            ),
    ensures
        decode_laws::bit_at(data, pos) == decode_laws::bit_at(tx.data@, pos),
{
    if generator::knows(t, tx.id) {
        let steps = choose|steps: Seq<Seq<u8>>|
            #[trigger] generator::are_steps(t, tx.id, tx.srcs@, raws, tx.data@, steps) && data
                == steps.last();
        lemma_steps_keep(t, tx, raws, steps, 0, tx.srcs@.len() as int, pos);
    }
}

/// A bit of a driven signal is the bit of its value, where no source behind it sets that
/// place again.
pub proof fn law_driven_bits_are_the_value(
    t: SymbolTable,
    tx: TxMsg,
    raws: Seq<Option<u64>>,
    data: Seq<u8>,
    len: u8,
    flags: FrameFlags,
    k: int,
    s: SignalInfo,
    v: u64,
    i: nat,
)
    requires
        generator::is_payload(Some(t), tx, raws, data, len, flags),
        drives(t, tx, raws, k, s, v),
        0 < s.size <= 64,
        i < s.size,
        0 <= decode_laws::place(s.start_bit as int, s.big_endian, i) < 512,
        forall|j: int|
            k < j < tx.srcs@.len() ==> is_idle(t, tx, raws, j) || !owns(
                t.signal_spec(tx.id, (#[trigger] tx.srcs@[j]).name@)->0,
                decode_laws::place(s.start_bit as int, s.big_endian, i),
            ),
    ensures
        decode_laws::bit_at(data, decode_laws::place(s.start_bit as int, s.big_endian, i)) == (
        v as int / pow2(decode_laws::bit_number(s.size as int, s.big_endian, i as int) as nat)
            as int) % 2,
{
    let pos = decode_laws::place(s.start_bit as int, s.big_endian, i);
    assert(generator::knows(t, tx.id));
    let steps = choose|steps: Seq<Seq<u8>>|
        #[trigger] generator::are_steps(t, tx.id, tx.srcs@, raws, tx.data@, steps) && data
            == steps.last();
    lemma_steps_length(t, tx, raws, steps, k);
    assert(generator::is_laid(
        t,
        tx.id,
        tx.srcs@[k].name@,
        generator::raw_at(raws, k),
        steps[k],
        steps[k + 1],
    ));
    decode_laws::law_packing_sets_the_places_of_the_field(
        steps[k],
        steps[k + 1],
        s.start_bit,
        s.size,
        s.big_endian,
        v,
        pos,
    );
    lemma_steps_keep(t, tx, raws, steps, k + 1, tx.srcs@.len() as int, pos);
}

proof fn lemma_steps_length(
    t: SymbolTable,
    tx: TxMsg,
    raws: Seq<Option<u64>>,
    steps: Seq<Seq<u8>>,
    k: int,
)
    requires
        generator::are_steps(t, tx.id, tx.srcs@, raws, tx.data@, steps),
        0 <= k <= tx.srcs@.len(),
    ensures
        steps[k].len() == tx.data@.len(),
    decreases k,
{
    if k > 0 {
        lemma_steps_length(t, tx, raws, steps, k - 1);
        assert(generator::is_laid(
            t,
            tx.id,
            tx.srcs@[k - 1].name@,
            generator::raw_at(raws, k - 1),
            steps[k - 1],
            steps[k],
        ));
    }
}

proof fn lemma_reached(t: SymbolTable, tx: TxMsg, raws: Seq<Option<u64>>, n: int)
    requires
        0 <= n <= tx.srcs@.len(),
        tx.len <= 64,
    ensures
        tx.len <= generator::driven_length(t, tx.id, tx.srcs@, raws, tx.len as int, n) <= 64,
        forall|k: int|
            0 <= k < n ==> is_idle(t, tx, raws, k) || generator::bytes_needed(
                t.signal_spec(tx.id, (#[trigger] tx.srcs@[k]).name@)->0,
            ) <= generator::driven_length(t, tx.id, tx.srcs@, raws, tx.len as int, n),
        (forall|k: int|
            0 <= k < n ==> is_idle(t, tx, raws, k) || generator::bytes_needed(
                t.signal_spec(tx.id, (#[trigger] tx.srcs@[k]).name@)->0,
            ) <= tx.len) ==> generator::driven_length(
            t,
            tx.id,
            tx.srcs@,
            raws,
            tx.len as int,
            n,
        ) == tx.len,
    decreases n,
{
    if n > 0 {
        lemma_reached(t, tx, raws, n - 1);
        let all = forall|k: int|
            0 <= k < n ==> is_idle(t, tx, raws, k) || generator::bytes_needed(
                t.signal_spec(tx.id, (#[trigger] tx.srcs@[k]).name@)->0,
            ) <= tx.len;
        if all {
            assert(is_idle(t, tx, raws, n - 1) || generator::bytes_needed(
                t.signal_spec(tx.id, tx.srcs@[n - 1].name@)->0,
            ) <= tx.len);
        }
        assert forall|k: int| 0 <= k < n implies is_idle(t, tx, raws, k) || generator::bytes_needed(
            t.signal_spec(tx.id, (#[trigger] tx.srcs@[k]).name@)->0,
        ) <= generator::driven_length(t, tx.id, tx.srcs@, raws, tx.len as int, n) by {}
    }
}

/// A generated frame is never shorter than its base, and long enough for every signal that
/// it drives. Past eight bytes it is an FD frame of a length that such a frame can have; a
/// base that already holds every driven signal keeps its length.
pub proof fn law_generated_frames_hold_their_signals(
    t: SymbolTable,
    tx: TxMsg,
    raws: Seq<Option<u64>>,
    data: Seq<u8>,
    len: u8,
    flags: FrameFlags,
    k: int,
    s: SignalInfo,
    v: u64,
)
    requires
        generator::is_payload(Some(t), tx, raws, data, len, flags),
        tx.len <= 64,
    ensures
        data.len() == 64,
        tx.len <= len <= 64,
        drives(t, tx, raws, k, s, v) && s.start_bit + s.size <= 512 ==> s.start_bit + s.size <= 8
            * len,
        generator::knows(t, tx.id) && len > 8 ==> flags.0 == tx.flags.0 | 1 && (len == 12 || len
            == 16 || len == 20 || len == 24 || len == 32 || len == 48 || len == 64),
        len <= 8 ==> flags == tx.flags,
        tx.len <= 8 && (forall|j: int|
            0 <= j < tx.srcs@.len() ==> is_idle(t, tx, raws, j) || {
                let o = t.signal_spec(tx.id, (#[trigger] tx.srcs@[j]).name@)->0;
                o.start_bit + o.size <= 8 * tx.len
            }) ==> len == tx.len && flags == tx.flags,
        !generator::knows(t, tx.id) ==> data == tx.data@ && len == tx.len && flags == tx.flags,
{
    lemma_reached(t, tx, raws, tx.srcs@.len() as int);
    let reached = generator::driven_length(
        t,
        tx.id,
        tx.srcs@,
        raws,
        tx.len as int,
        tx.srcs@.len() as int,
    );
    frame::law_dlc_covers(reached as u8);
    if reached > 0 {
        frame::law_codes_are_tight(reached as u8);
    }
    if generator::knows(t, tx.id) {
        let steps = choose|steps: Seq<Seq<u8>>|
            #[trigger] generator::are_steps(t, tx.id, tx.srcs@, raws, tx.data@, steps) && data
                == steps.last();
        lemma_steps_length(t, tx, raws, steps, tx.srcs@.len() as int);
        let fits = forall|j: int|
            0 <= j < tx.srcs@.len() ==> is_idle(t, tx, raws, j) || {
                let o = t.signal_spec(tx.id, (#[trigger] tx.srcs@[j]).name@)->0;
                o.start_bit + o.size <= 8 * tx.len
            };
        if tx.len <= 8 && fits {
            assert forall|j: int| 0 <= j < tx.srcs@.len() implies is_idle(t, tx, raws, j)
                || generator::bytes_needed(
                t.signal_spec(tx.id, (#[trigger] tx.srcs@[j]).name@)->0,
            ) <= tx.len by {
                let o = t.signal_spec(tx.id, tx.srcs@[j].name@)->0;
                assert(is_idle(t, tx, raws, j) || o.start_bit + o.size <= 8 * tx.len);
            }
        }
    }
    if drives(t, tx, raws, k, s, v) {
        assert(!is_idle(t, tx, raws, k));
        assert(tx.srcs@[k].name@ == tx.srcs@[k].name@);
    }
}

/// A frame of an entry bears the entry's id, bus and kind of id, goes out, and stands a whole
/// number of periods behind the entry's first open slot, none later than the clock. The
/// entry then waits for the slot behind its last one.
pub proof fn law_entry_frames_keep_their_time(
    core: BusCore,
    was: TxMsg,
    now: TxMsg,
    frames: Seq<CanFrame>,
    raws: Seq<Vec<Option<u64>>>,
    j: int,
)
    requires
        bus_step::is_entry_emitted(core, was, now, frames, raws),
        core.first_slot(was) + frames.len() * was.cycle_us <= u64::MAX,
    ensures
        0 <= j < frames.len() ==> {
            let f = frames[j];
            &&& f.id == was.id
            &&& f.channel == was.channel
            &&& f.extended == was.extended
            &&& f.dir == Direction::Tx
            &&& f.t_us == core.first_slot(was) + j * was.cycle_us
            &&& f.t_us <= core.sim_t_us
        },
        now.next_t_us == core.first_slot(was) + frames.len() * was.cycle_us,
        now.active == was.active,
        now.cycle_us == was.cycle_us,
        now.data == was.data,
        now.len == was.len,
        now.srcs == was.srcs,
        frames.len() > 0 ==> was.active && was.cycle_us > 0 && now.last_sent@ == frames.last().data@
            && now.last_len == frames.last().len,
        frames.len() < bus::MAX_TX_CATCHUP && was.active && was.cycle_us > 0
            && was.node@.len() == 0 && core.mode == Mode::Virtual ==> now.next_t_us
            > core.sim_t_us,
{
    if core.transmits(was) {
        bus_step::law_no_slot_is_skipped(core, was);
    }
    if 0 <= j < frames.len() {
        assert(core.entry_slots_spec(was)[j] <= core.sim_t_us);
        let n = frames.len() as int;
        assert(j * was.cycle_us <= n * was.cycle_us) by (nonlinear_arith)
            requires
                0 <= j < n,
                was.cycle_us >= 0,
        ;
        assert(bus_step::is_slot_frame(
            core,
            was,
            bus_step::slot_at(core.first_slot(was), was.cycle_us, j),
            raws[j]@,
            frames[j],
        ));
    }
}

/// An entry sends by itself just where it is switched on, has a period, belongs to no node
/// or to one that its bus simulates, and no log that is being replayed carries its id.
pub proof fn law_who_sends_by_itself(core: BusCore, tx: TxMsg)
    ensures
        core.transmits(tx) ==> tx.active && tx.cycle_us > 0,
        tx.active && tx.cycle_us > 0 && tx.node@.len() == 0 && core.mode == Mode::Virtual
            ==> core.transmits(tx),
        tx.active && tx.cycle_us > 0 && tx.node@.len() == 0 && !core.replay_ids@.contains(
            (tx.channel, tx.id),
        ) ==> core.transmits(tx),
        core.mode == Mode::Replay && core.replay_ids@.contains((tx.channel, tx.id))
            ==> !core.transmits(tx),
        tx.node@.len() > 0 && tx.channel >= core.channels@.len() ==> !core.transmits(tx),
        core.transmits(tx) && core.first_slot(tx) <= core.sim_t_us ==> core.slots_due(tx) > 0,
        core.first_slot(tx) > core.sim_t_us ==> core.slots_due(tx) == 0,
{
    if core.transmits(tx) {
        bus_step::law_no_slot_is_skipped(core, tx);
        assert(0 * tx.cycle_us == 0) by (nonlinear_arith);
        assert(bus_step::slot_at(core.first_slot(tx), tx.cycle_us, 0) == core.first_slot(tx));
    }
}

/// The role of a node decides whether its messages go out: just where some first role entry
/// for it says that it is simulated.
pub proof fn law_roles_gate_their_nodes(channels: Seq<Channel>, tx: TxMsg, k: int)
    requires
        tx.node@.len() > 0,
        tx.channel < channels.len(),
        ({
            let roles = channels[tx.channel as int].node_roles@;
            &&& 0 <= k < roles.len()
            &&& roles[k].node@ == tx.node@
            &&& forall|i: int| 0 <= i < k ==> (#[trigger] roles[i]).node@ != tx.node@
        }),
    ensures
        bus::gate_open(channels, tx) == (channels[tx.channel as int].node_roles@[k].role
            == NodeRole::Simulated),
{
    lemma_role(channels[tx.channel as int].node_roles@, tx.node@, k);
}

proof fn lemma_role(roles: Seq<crate::channel::RoleEntry>, node: Seq<char>, k: int)
    requires
        0 <= k < roles.len(),
        roles[k].node@ == node,
        forall|i: int| 0 <= i < k ==> (#[trigger] roles[i]).node@ != node,
    ensures
        crate::channel::role_in(roles, node) == roles[k].role,
    decreases roles.len(),
{
    if k > 0 {
        let rest = roles.drop_first();
        assert(roles[0].node@ != node);
        assert(rest[k - 1] == roles[k]);
        assert forall|i: int| 0 <= i < k - 1 implies (#[trigger] rest[i]).node@ != node by {
            assert(rest[i] == roles[i + 1]);
        }
        lemma_role(rest, node, k - 1);
    }
}

/// A new entry is off, unscheduled and all zeros. It has its message's name, sender, length
/// and period where the database knows it, and eight bytes else; an id that needs 29 bits is
/// an extended one.
pub proof fn law_new_entries_follow_the_database(
    table: Option<SymbolTable>,
    ch: u8,
    id: u32,
    tx: TxMsg,
)
    requires
        bus::is_new_entry(table, ch, id, tx),
    ensures
        tx.channel == ch && tx.id == id,
        !tx.active && tx.next_t_us == 0 && tx.srcs@.len() == 0,
        tx.extended == (id >= 2048),
        forall|i: int| 0 <= i < 64 ==> #[trigger] tx.data@[i] == 0,
        table matches Some(t) && t.messages@.contains_key(id) ==> {
            let m = table->0.messages@[id];
            &&& tx.name@ == m.name@
            &&& tx.node@ == m.transmitter@
            &&& m.dlc <= 64 ==> tx.len == m.dlc
            &&& m.dlc > 64 ==> tx.len == 64
            &&& m.cycle_us is Some ==> tx.cycle_us == m.cycle_us->0
            &&& m.cycle_us is None ==> tx.cycle_us == 100_000
        },
        table is None ==> tx.len == 8 && tx.node@.len() == 0 && tx.cycle_us == 100_000,
        tx.flags.0 == (if tx.len > 8 {
            1u32
        } else {
            0u32
        }),
{
}

/// A message has at most one entry: adding one that is there changes nothing, and adding
/// another puts it last and keeps the others as they are.
pub proof fn law_entries_are_added_once(
    channels: Seq<Channel>,
    before: Seq<TxMsg>,
    after: Seq<TxMsg>,
    ch: u8,
    id: u32,
    k: int,
)
    requires
        bus::is_entry_added(channels, before, after, ch, id),
    ensures
        0 <= k < before.len() ==> after[k] == before[k],
        0 <= k < before.len() && before[k].channel == ch && before[k].id == id ==> after == before,
        (forall|i: int|
            0 <= i < before.len() ==> (#[trigger] before[i]).channel != ch || before[i].id != id)
            ==> after.len() == before.len() + 1 && after.last().channel == ch && after.last().id
            == id,
{
    if 0 <= k < before.len() {
        if bus::entry_index(before, ch, id, 0) < 0 {
            assert(after.drop_last()[k] == before[k]);
        }
        if before[k].channel == ch && before[k].id == id {
            lemma_entry_there(before, ch, id, 0, k);
        }
    }
    if forall|i: int|
        0 <= i < before.len() ==> (#[trigger] before[i]).channel != ch || before[i].id != id {
        lemma_entry_absent(before, ch, id, 0);
    }
}

proof fn lemma_entry_there(list: Seq<TxMsg>, ch: u8, id: u32, from: int, k: int)
    requires
        0 <= from <= k < list.len(),
        list[k].channel == ch,
        list[k].id == id,
    ensures
        from <= bus::entry_index(list, ch, id, from) <= k,
    decreases list.len() - from,
{
    if !(list[from].channel == ch && list[from].id == id) {
        lemma_entry_there(list, ch, id, from + 1, k);
    }
}

proof fn lemma_entry_absent(list: Seq<TxMsg>, ch: u8, id: u32, from: int)
    requires
        0 <= from,
        forall|i: int|
            0 <= i < list.len() ==> (#[trigger] list[i]).channel != ch || list[i].id != id,
    ensures
        bus::entry_index(list, ch, id, from) == -1,
    decreases list.len() - from,
{
    if from < list.len() {
        lemma_entry_absent(list, ch, id, from + 1);
    }
}

/// The recorder keeps what passes its filter: with an empty filter every frame, else just
/// the frames whose id and kind of id it lists. What it keeps is written, and stands last
/// in the memory before a trigger.
pub proof fn law_the_recorder_keeps_what_it_lists(
    core: BusCore,
    after: BusCore,
    f: CanFrame,
    write: bool,
    close: bool,
    before: Seq<char>,
    status: Seq<char>,
)
    requires
        core.is_recorded(after, f, write, close, before, status),
        core.pre_frames > 0,
        core.pre_buffer@.len() <= core.pre_frames,
    ensures
        write == (core.recorder.ids@.len() == 0 || core.recorder.ids@.contains((f.id, f.extended))),
        write ==> after.pre_buffer@.last() == f,
        write && core.pre_buffer@.len() < core.pre_frames ==> after.pre_buffer@
            == core.pre_buffer@.push(f),
        write && core.pre_buffer@.len() == core.pre_frames ==> after.pre_buffer@.len()
            == core.pre_frames && forall|i: int|
            0 <= i < after.pre_buffer@.len() - 1 ==> #[trigger] after.pre_buffer@[i]
                == core.pre_buffer@[i + 1],
        !write ==> after.pre_buffer == core.pre_buffer,
        core.post_roll is None ==> !close && after.post_roll is None,
        after.recorder.ids == core.recorder.ids,
        after.trace == core.trace,
        after.aggs == core.aggs,
{
}

} // verus!
