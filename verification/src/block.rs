//! Replay blocks: a recorded log, filtered, replayed back onto the simulated bus
//! as an independently toggleable traffic driver. The nodes that the simulation
//! does not play are covered by the frames they actually sent, exactly as
//! recorded, without dragging the whole log's timeline in with them.
//!
//! A block is declarative state (name, bus, log path, filters, the enable bit);
//! the preloaded, time-normalized frame queue is runtime state, rebuilt at every
//! measurement start. Blocks emit in simulation only: while a log is replayed the
//! whole log is already the source.

use vstd::prelude::*;
use vstd::string::*;
use crate::can::frame::{CanFrame, Direction};
use crate::dbc::SymbolTable;
use crate::text;

verus! {

/// One replay block: the declaration plus its runtime queue.
pub struct ReplayBlock {
    pub id: u64,
    pub name: String,
    /// The bus the recorded traffic is injected onto. Recorded channel numbers
    /// are a property of the source log, so every emitted frame is retargeted.
    pub channel: u8,
    pub path: String,
    /// Replay only the frames this database node sends.
    pub node_filter: Option<String>,
    /// The database node this block belongs to.
    pub attached: Option<(u8, String)>,
    /// Replay only these `(id, extended)` frames; empty means no id filter.
    pub ids: Vec<(u32, bool)>,
    pub enabled: bool,
    /// Set when the last load failed.
    pub last_error: Option<String>,
    /// Preloaded frames, timestamps normalized so the first one is due at the
    /// block's anchor point.
    pub queue: Vec<(u64, CanFrame)>,
    /// Next queue index to emit.
    pub cursor: usize,
    /// Where the queue's zero sits on the simulated timeline.
    pub anchor_us: u64,
}

/// What a node filter lets through: every id, or the ids that the node sends.
pub open spec fn filter_ids(node: Option<String>, dbc: Option<SymbolTable>) -> Option<Seq<u32>> {
    match node {
        Some(n) => Some(dbc->0.sent_by(n@, dbc->0.order@.len() as int)),
        None => None,
    }
}

/// The node filter can be resolved: there is none, or the database lists its node.
pub open spec fn node_known(node: Option<String>, dbc: Option<SymbolTable>) -> bool {
    match (node, dbc) {
        (Some(n), Some(t)) => text::lists(t.nodes@, n@),
        (Some(_), None) => false,
        (None, _) => true,
    }
}

/// Both filters let the frame through.
pub open spec fn admits(node_ids: Option<Seq<u32>>, ids: Seq<(u32, bool)>, f: CanFrame) -> bool {
    &&& (node_ids is Some ==> (node_ids->0).contains(f.id))
    &&& (ids.len() == 0 || ids.contains((f.id, f.extended)))
}

/// The frames among the first `n` that the filters let through.
pub open spec fn kept(
    frames: Seq<CanFrame>,
    node_ids: Option<Seq<u32>>,
    ids: Seq<(u32, bool)>,
    n: int,
) -> Seq<CanFrame>
    decreases n,
{
    if n <= 0 {
        Seq::empty()
    } else {
        let before = kept(frames, node_ids, ids, n - 1);
        if admits(node_ids, ids, frames[n - 1]) {
            before.push(frames[n - 1])
        } else {
            before
        }
    }
}

/// No frame lies before the first one, and every payload fits.
pub open spec fn is_queueable(frames: Seq<CanFrame>) -> bool {
    forall|i: int|
        0 <= i < frames.len() ==> frames[0].t_us <= (#[trigger] frames[i]).t_us
            && frames[i].wf()
}

/// The frames with their times counted from the first one's.
pub open spec fn normalized(frames: Seq<CanFrame>) -> Seq<(u64, CanFrame)> {
    Seq::new(frames.len(), |i: int| ((frames[i].t_us - frames[0].t_us) as u64, frames[i]))
}

/// How a load ends: with the frames to queue, or with the reason it failed.
pub open spec fn loaded(
    path: Seq<char>,
    node: Option<String>,
    ids: Seq<(u32, bool)>,
    dbc: Option<SymbolTable>,
    log: Result<Vec<CanFrame>, String>,
) -> Result<Seq<CanFrame>, Seq<char>> {
    if text::trimmed(path).len() == 0 {
        Err("no log file"@)
    } else {
        match log {
            Err(e) => Err(e@),
            Ok(frames) => if !node_known(node, dbc) {
                Err("node `"@ + node->0@ + "` is not in the bus's database"@)
            } else {
                let out = kept(
                    frames@,
                    filter_ids(node, dbc),
                    ids,
                    frames@.len() as int,
                );
                if out.len() == 0 {
                    Err("the log carries no matching frames"@)
                } else {
                    Ok(out)
                }
            },
        }
    }
}

/// When a queued frame is due.
pub open spec fn due_at(anchor: u64, rel: u64) -> u64 {
    if anchor + rel > u64::MAX {
        u64::MAX
    } else {
        (anchor + rel) as u64
    }
}

/// How many frames, from `cursor` on, are due at `now`, at most `room`.
pub open spec fn due_count(
    queue: Seq<(u64, CanFrame)>,
    cursor: int,
    anchor: u64,
    now: u64,
    room: int,
) -> int
    decreases queue.len() - cursor,
{
    if room <= 0 || cursor >= queue.len() || cursor < 0 || due_at(anchor, queue[cursor].0) > now {
        0
    } else {
        1 + due_count(queue, cursor + 1, anchor, now, room - 1)
    }
}

/// A queued frame as it goes out.
pub open spec fn retargeted(item: (u64, CanFrame), anchor: u64, channel: u8) -> CanFrame {
    CanFrame { t_us: due_at(anchor, item.0), channel, dir: Direction::Tx, ..item.1 }
}

/// The `k` queued frames from `cursor` on as they go out.
pub open spec fn outgoing(
    queue: Seq<(u64, CanFrame)>,
    cursor: int,
    anchor: u64,
    channel: u8,
    k: int,
) -> Seq<CanFrame> {
    Seq::new(k as nat, |i: int| retargeted(queue[cursor + i], anchor, channel))
}

pub proof fn lemma_due_count(queue: Seq<(u64, CanFrame)>, cursor: int, anchor: u64, now: u64, room: int)
    requires
        0 <= cursor <= queue.len(),
    ensures
        0 <= due_count(queue, cursor, anchor, now, room) <= queue.len() - cursor,
        room >= 0 ==> due_count(queue, cursor, anchor, now, room) <= room,
        forall|i: int|
            cursor <= i < cursor + due_count(queue, cursor, anchor, now, room) ==> due_at(
                anchor,
                (#[trigger] queue[i]).0,
            ) <= now,
    decreases queue.len() - cursor,
{
    if room > 0 && cursor < queue.len() && due_at(anchor, queue[cursor].0) <= now {
        lemma_due_count(queue, cursor + 1, anchor, now, room - 1);
    }
}

/// Frames go out with the spacing that the log recorded, however late the clock
/// is read.
pub proof fn law_recorded_spacing(
    queue: Seq<(u64, CanFrame)>,
    cursor: int,
    anchor: u64,
    channel: u8,
    k: int,
    i: int,
    j: int,
)
    requires
        0 <= cursor,
        cursor + k <= queue.len(),
        0 <= i < j < k,
        anchor + queue[cursor + i].0 <= u64::MAX,
        anchor + queue[cursor + j].0 <= u64::MAX,
    ensures
        outgoing(queue, cursor, anchor, channel, k)[j].t_us - outgoing(
            queue,
            cursor,
            anchor,
            channel,
            k,
        )[i].t_us == queue[cursor + j].0 - queue[cursor + i].0,
{
}

/// Reading the clock twice sends what reading it once at the later time sends:
/// no frame is lost or doubled by how often the block is polled.
pub proof fn law_polls_add_up(
    queue: Seq<(u64, CanFrame)>,
    cursor: int,
    anchor: u64,
    earlier: u64,
    later: u64,
    room: int,
)
    requires
        0 <= cursor <= queue.len(),
        earlier <= later,
        room >= 0,
    ensures
        due_count(queue, cursor, anchor, later, room) == {
            let first = due_count(queue, cursor, anchor, earlier, room);
            first + due_count(queue, cursor + first, anchor, later, room - first)
        },
    decreases queue.len() - cursor,
{
    if room > 0 && cursor < queue.len() && due_at(anchor, queue[cursor].0) <= earlier {
        law_polls_add_up(queue, cursor + 1, anchor, earlier, later, room - 1);
    }
}

/// Nothing goes out before its time, and a block whose queue begins at its anchor
/// sends its first frame there.
pub proof fn law_first_frame_at_anchor(
    queue: Seq<(u64, CanFrame)>,
    anchor: u64,
    now: u64,
    room: int,
)
    requires
        queue.len() > 0,
        queue[0].0 == 0,
        room > 0,
    ensures
        due_count(queue, 0, anchor, now, room) > 0 <==> now >= anchor,
{
    lemma_due_count(queue, 0, anchor, now, room);
    lemma_due_count(queue, 1, anchor, now, room - 1);
}

/// The database behind a reference.
pub open spec fn read_table(dbc: Option<&SymbolTable>) -> Option<SymbolTable> {
    match dbc {
        Some(t) => Some(*t),
        None => None,
    }
}

spec fn ids_read(ids: Option<Vec<u32>>) -> Option<Seq<u32>> {
    match ids {
        Some(v) => Some(v@),
        None => None,
    }
}

fn id_listed(ids: &Vec<u32>, id: u32) -> (r: bool)
    ensures
        r == ids@.contains(id),
{
    for i in 0..ids.len()
        invariant
            forall|k: int| 0 <= k < i ==> ids@[k] != id,
    {
        if ids[i] == id {
            return true;
        }
    }
    false
}

/// Whether the list holds the frame's id in its class.
pub fn pair_listed(ids: &Vec<(u32, bool)>, id: u32, ext: bool) -> (r: bool)
    ensures
        r == ids@.contains((id, ext)),
{
    for i in 0..ids.len()
        invariant
            forall|k: int| 0 <= k < i ==> ids@[k] != (id, ext),
    {
        if ids[i].0 == id && ids[i].1 == ext {
            return true;
        }
    }
    false
}

fn keep(frames: &Vec<CanFrame>, node_ids: &Option<Vec<u32>>, ids: &Vec<(u32, bool)>) -> (r: Vec<
    CanFrame,
>)
    ensures
        r@ == kept(
            frames@,
            ids_read(*node_ids),
            ids@,
            frames@.len() as int,
        ),
{
    let ghost names: Option<Seq<u32>> = ids_read(*node_ids);
    let mut out: Vec<CanFrame> = Vec::new();
    for i in 0..frames.len()
        invariant
            names == ids_read(*node_ids),
            out@ == kept(frames@, names, ids@, i as int),
    {
        let f: CanFrame = frames[i];
        let by_node: bool = match node_ids {
            Some(v) => id_listed(v, f.id),
            None => true,
        };
        if by_node && (ids.len() == 0 || pair_listed(ids, f.id, f.extended)) {
            out.push(f);
        }
    }
    out
}

fn missing_node(node: &String) -> (r: String)
    ensures
        r@ == "node `"@ + node@ + "` is not in the bus's database"@,
{
    let mut s: String = "node `".to_owned();
    s.append(node.as_str());
    s.append("` is not in the bus's database");
    s
}

fn select(
    path: &str,
    node: &Option<String>,
    ids: &Vec<(u32, bool)>,
    dbc: Option<&SymbolTable>,
    log: &Result<Vec<CanFrame>, String>,
) -> (r: Result<Vec<CanFrame>, String>)
    ensures
        r is Ok == loaded(path@, *node, ids@, read_table(dbc), *log) is Ok,
        match r {
            Ok(v) => v@ == loaded(path@, *node, ids@, read_table(dbc), *log)->Ok_0,
            Err(e) => e@ == loaded(path@, *node, ids@, read_table(dbc), *log)->Err_0,
        },
{
    if text::trim_chars(path).len() == 0 {
        return Err("no log file".to_owned());
    }
    let frames: &Vec<CanFrame> = match log {
        Ok(f) => f,
        Err(e) => {
            return Err(e.clone());
        },
    };
    let node_ids: Option<Vec<u32>> = match node {
        Some(node) => match dbc {
            Some(t) => if text::listed(&t.nodes, node.as_str()) {
                Some(t.node_tx_ids(node.as_str()))
            } else {
                return Err(missing_node(node));
            },
            None => {
                return Err(missing_node(node));
            },
        },
        None => None,
    };
    let out: Vec<CanFrame> = keep(frames, &node_ids, ids);
    if out.len() == 0 {
        return Err("the log carries no matching frames".to_owned());
    }
    Ok(out)
}

/// Whether what a block keeps of a log can be queued: none of its frames lies before the
/// first, and every payload fits. A load that fails queues nothing.
pub fn recording_fits(
    path: &str,
    node: &Option<String>,
    ids: &Vec<(u32, bool)>,
    dbc: Option<&SymbolTable>,
    log: &Result<Vec<CanFrame>, String>,
) -> (r: bool)
    ensures
        r == (loaded(path@, *node, ids@, read_table(dbc), *log) matches Ok(frames)
            ==> is_queueable(frames)),
{
    match select(path, node, ids, dbc, log) {
        Ok(frames) => {
            for i in 0..frames.len()
                invariant
                    loaded(path@, *node, ids@, read_table(dbc), *log) == Ok::<
                        Seq<CanFrame>,
                        Seq<char>,
                    >(frames@),
                    forall|k: int|
                        0 <= k < i ==> frames@[0].t_us <= (#[trigger] frames@[k]).t_us
                            && frames@[k].wf(),
            {
                if frames[i].t_us < frames[0].t_us || frames[i].len > 64 {
                    assert(!is_queueable(frames@));
                    return false;
                }
            }
            true
        },
        Err(_) => true,
    }
}

impl ReplayBlock {
    pub open spec fn wf(self) -> bool {
        &&& self.cursor <= self.queue@.len()
        &&& forall|i: int| 0 <= i < self.queue@.len() ==> (#[trigger] self.queue@[i]).1.wf()
    }

    pub fn new(
        id: u64,
        name: String,
        channel: u8,
        path: String,
        node_filter: Option<String>,
        attached: Option<(u8, String)>,
        ids: Vec<(u32, bool)>,
        enabled: bool,
    ) -> (b: ReplayBlock)
        ensures
            b.wf(),
            b.id == id,
            b.name == name,
            b.channel == channel,
            b.path == path,
            b.node_filter == node_filter,
            b.attached == attached,
            b.ids == ids,
            b.enabled == enabled,
            b.last_error is None,
            b.queue@.len() == 0,
            b.cursor == 0,
            b.anchor_us == 0,
    {
        ReplayBlock {
            id,
            name,
            channel,
            path,
            node_filter,
            attached,
            ids,
            enabled,
            last_error: None,
            queue: Vec::new(),
            cursor: 0,
            anchor_us: 0,
        }
    }

    /// How a load of this block ends.
    pub open spec fn load_result(
        self,
        dbc: Option<SymbolTable>,
        log: Result<Vec<CanFrame>, String>,
    ) -> Result<Seq<CanFrame>, Seq<char>> {
        loaded(self.path@, self.node_filter, self.ids@, dbc, log)
    }

    /// The block after a load: the queue starts over at the anchor; a failure
    /// disables the block and says why.
    pub open spec fn is_reloaded(
        self,
        after: ReplayBlock,
        dbc: Option<SymbolTable>,
        log: Result<Vec<CanFrame>, String>,
        sim_t_us: u64,
    ) -> bool {
        &&& after.cursor == 0
        &&& after.anchor_us == sim_t_us
        &&& match self.load_result(dbc, log) {
            Ok(frames) => {
                &&& after.queue@ == normalized(frames)
                &&& after.last_error is None
                &&& after.enabled == self.enabled
            },
            Err(e) => {
                &&& after.queue@.len() == 0
                &&& after.last_error is Some
                &&& (after.last_error->0)@ == e
                &&& !after.enabled
            },
        }
        &&& after == (ReplayBlock {
            queue: after.queue,
            cursor: after.cursor,
            anchor_us: after.anchor_us,
            enabled: after.enabled,
            last_error: after.last_error,
            ..self
        })
    }

    /// Rebuilds the queue from what was read of the log, anchoring the queue's
    /// zero at `sim_t_us`: a block loaded at run start anchors at 0, one enabled
    /// mid-run starts at the current clock. The node filter resolves against the
    /// bus's current database. A failed load disables the block and records why.
    pub fn load_queue(
        &mut self,
        dbc: Option<&SymbolTable>,
        log: Result<Vec<CanFrame>, String>,
        sim_t_us: u64,
    )
        requires
            old(self).load_result(
                read_table(dbc),
                log,
            ) matches Ok(frames) ==> is_queueable(frames),
        ensures
            final(self).wf(),
            old(self).is_reloaded(
                *final(self),
                read_table(dbc),
                log,
                sim_t_us,
            ),
    {
        let load: Result<Vec<CanFrame>, String> = select(
            self.path.as_str(),
            &self.node_filter,
            &self.ids,
            dbc,
            &log,
        );
        self.cursor = 0;
        self.anchor_us = sim_t_us;
        match load {
            Ok(frames) => {
                let mut queue: Vec<(u64, CanFrame)> = Vec::new();
                let total: usize = frames.len();
                for i in 0..total
                    invariant
                        total == frames@.len(),
                        is_queueable(frames@),
                        queue@ == normalized(frames@).subrange(0, i as int),
                        forall|k: int| 0 <= k < i ==> (#[trigger] queue@[k]).1.wf(),
                {
                    assert(frames@[0].t_us <= frames@[i as int].t_us);
                    queue.push((frames[i].t_us - frames[0].t_us, frames[i]));
                    assert(queue@ =~= normalized(frames@).subrange(0, i + 1));
                }
                assert(queue@ =~= normalized(frames@));
                self.queue = queue;
                self.last_error = None;
            },
            Err(e) => {
                self.queue = Vec::new();
                self.enabled = false;
                self.last_error = Some(e);
            },
        }
    }

    /// How many frames a poll sends.
    pub open spec fn sends(self, sim_t_us: u64, held: int, budget: int) -> int {
        if self.enabled {
            due_count(self.queue@, self.cursor as int, self.anchor_us, sim_t_us, budget - held)
        } else {
            0
        }
    }

    /// Emits every queued frame the clock has passed, until `out` holds `budget`,
    /// retargeted to the block's bus. Frames carry their recorded spacing past the
    /// anchor, so catch-up bursts keep the exact gaps the log captured.
    pub fn poll(&mut self, sim_t_us: u64, out: &mut Vec<CanFrame>, budget: usize)
        requires
            old(self).wf(),
        ensures
            final(self).wf(),
            final(out)@ == old(out)@ + outgoing(
                old(self).queue@,
                old(self).cursor as int,
                old(self).anchor_us,
                old(self).channel,
                old(self).sends(sim_t_us, old(out)@.len() as int, budget as int),
            ),
            final(self).cursor == old(self).cursor + old(self).sends(
                sim_t_us,
                old(out)@.len() as int,
                budget as int,
            ),
            *final(self) == (ReplayBlock { cursor: final(self).cursor, ..*old(self) }),
    {
        let ghost k = self.sends(sim_t_us, out@.len() as int, budget as int);
        proof {
            lemma_due_count(
                self.queue@,
                self.cursor as int,
                self.anchor_us,
                sim_t_us,
                budget - out@.len(),
            );
        }
        if !self.enabled {
            assert(out@ =~= out@ + outgoing(
                self.queue@,
                self.cursor as int,
                self.anchor_us,
                self.channel,
                0,
            ));
            return;
        }
        let ghost start = self.cursor as int;
        let ghost held = out@;
        let ghost mut done: int = 0;
        assert(out@ =~= held + outgoing(self.queue@, start, self.anchor_us, self.channel, 0));
        while self.cursor < self.queue.len() && budget > out.len()
            invariant
                *self == (ReplayBlock { cursor: self.cursor, ..*old(self) }),
                start == old(self).cursor,
                self.cursor == start + done,
                self.cursor <= self.queue@.len(),
                done >= 0,
                out@.len() == held.len() + done,
                out@ == held + outgoing(self.queue@, start, self.anchor_us, self.channel, done),
                k == done + due_count(
                    self.queue@,
                    self.cursor as int,
                    self.anchor_us,
                    sim_t_us,
                    budget - out@.len(),
                ),
            ensures
                k == done,
            decreases self.queue@.len() - self.cursor,
        {
            let item: (u64, CanFrame) = self.queue[self.cursor];
            let due: u64 = match self.anchor_us.checked_add(item.0) {
                Some(d) => d,
                None => u64::MAX,
            };
            if due > sim_t_us {
                break;
            }
            let mut f: CanFrame = item.1;
            f.t_us = due;
            f.channel = self.channel;
            f.dir = Direction::Tx;
            out.push(f);
            self.cursor = self.cursor + 1;
            proof {
                done = done + 1;
                assert(out@ =~= held + outgoing(
                    self.queue@,
                    start,
                    self.anchor_us,
                    self.channel,
                    done,
                ));
            }
        }
    }

    /// Rewinds to the run start without reading the log again. The anchor goes to
    /// 0 with the clock.
    pub fn rewind(&mut self)
        requires
            old(self).wf(),
        ensures
            final(self).wf(),
            *final(self) == (ReplayBlock { cursor: 0, anchor_us: 0, ..*old(self) }),
    {
        self.cursor = 0;
        self.anchor_us = 0;
    }

    /// How many frames the loaded queue carries, after the filters.
    pub fn queue_len(&self) -> (n: usize)
        ensures
            n == self.queue@.len(),
    {
        self.queue.len()
    }
}

/// A replayed frame is the recorded one: identifier, frame kind, length, bytes and flags,
/// and so its payload. Only its time, its bus and its direction are set anew: the time to
/// the anchor and the recorded distance, the bus to the block's, the direction to sent.
pub proof fn law_replayed_frames_are_the_recorded_ones(
    queue: Seq<(u64, CanFrame)>,
    cursor: int,
    anchor: u64,
    channel: u8,
    k: int,
    i: int,
)
    requires
        0 <= i < k,
    ensures
        outgoing(queue, cursor, anchor, channel, k).len() == k,
        ({
            let out = outgoing(queue, cursor, anchor, channel, k)[i];
            let was = queue[cursor + i].1;
            let rel = queue[cursor + i].0;
            &&& out.id == was.id
            &&& out.extended == was.extended
            &&& out.len == was.len
            &&& out.data@ == was.data@
            &&& out.flags == was.flags
            &&& out.payload_spec() == was.payload_spec()
            &&& out.channel == channel
            &&& out.dir == Direction::Tx
            &&& anchor + rel <= u64::MAX ==> out.t_us == anchor + rel
        }),
{
}

/// A loaded queue holds the kept frames as they were recorded, each with its distance
/// from the first one.
pub proof fn law_a_queue_holds_the_recorded_frames(frames: Seq<CanFrame>, i: int)
    requires
        is_queueable(frames),
        0 <= i < frames.len(),
    ensures
        normalized(frames).len() == frames.len(),
        normalized(frames)[i].1 == frames[i],
        normalized(frames)[i].0 + frames[0].t_us == frames[i].t_us,
{
    assert(frames[0].t_us <= frames[i].t_us);
}

/// The filters decide frame by frame: a frame is kept where its node's identifiers and the
/// listed identifiers both let it through, an empty list letting everything through; and
/// what is kept stays in its order.
pub proof fn law_filters_keep_what_they_name(
    frames: Seq<CanFrame>,
    node_ids: Option<Seq<u32>>,
    ids: Seq<(u32, bool)>,
    n: int,
)
    requires
        0 <= n < frames.len(),
    ensures
        ({
            let f = frames[n];
            let by_node = node_ids is None || (node_ids->0).contains(f.id);
            let by_id = ids.len() == 0 || ids.contains((f.id, f.extended));
            kept(frames, node_ids, ids, n + 1) == (if by_node && by_id {
                kept(frames, node_ids, ids, n).push(f)
            } else {
                kept(frames, node_ids, ids, n)
            })
        }),
        kept(frames, node_ids, ids, 0).len() == 0,
{
}

/// A poll sends every frame that is due and no other: those it sends are due, and where it
/// has room left, the next one is not.
pub proof fn law_polls_send_what_is_due(
    queue: Seq<(u64, CanFrame)>,
    cursor: int,
    anchor: u64,
    now: u64,
    room: int,
)
    requires
        0 <= cursor <= queue.len(),
        room >= 0,
        forall|i: int|
            0 <= i < queue.len() ==> anchor + (#[trigger] queue[i]).0 <= u64::MAX,
    ensures
        ({
            let k = due_count(queue, cursor, anchor, now, room);
            &&& 0 <= k <= room
            &&& cursor + k <= queue.len()
            &&& forall|i: int| cursor <= i < cursor + k ==> anchor + (#[trigger] queue[i]).0 <= now
            &&& k < room && cursor + k < queue.len() ==> anchor + queue[cursor + k].0 > now
        }),
    decreases queue.len() - cursor,
{
    if room > 0 && cursor < queue.len() && due_at(anchor, queue[cursor].0) <= now {
        assert(anchor + queue[cursor].0 <= u64::MAX);
        law_polls_send_what_is_due(queue, cursor + 1, anchor, now, room - 1);
    } else if cursor < queue.len() {
        assert(anchor + queue[cursor].0 <= u64::MAX);
    }
}

} // verus!
