//! What the node scripts do to the bus once their handlers ran: the frames they sent,
//! the values they derived, the system variables they set and the lines they logged.

use vstd::prelude::*;
use vstd::string::*;
use crate::bus::BusCore;
use crate::bus_ingest;
use crate::bus_ingest::node_frame;
use crate::bus_types;
use crate::bus_types::{Double, ScriptNode, WriteLine};
use crate::bus_view;
use crate::bus_view::may_send;
use crate::can::frame::CanFrame;
use crate::channel::Channel;
use crate::observers;

verus! {

/// A frame that a script asks for.
pub struct ScriptFrame {
    pub id: u32,
    /// The script forces the extended format.
    pub extended: bool,
    pub data: Vec<u8>,
}

/// What one node's handlers left behind.
pub struct NodeTurn {
    pub frames: Vec<ScriptFrame>,
    pub emitted: Vec<(String, Double)>,
    pub sys_sets: Vec<(String, Double)>,
    pub lines: Vec<String>,
    /// The node's own log changed.
    pub log_changed: bool,
}

/// A frame that a script asks for, with the bus that its node lives on.
pub ghost struct Asked {
    pub channel: u8,
    pub id: u32,
    pub extended: bool,
    pub data: Seq<u8>,
}

/// The first `n` frames of a node's turn.
pub open spec fn asked_by(node: ScriptNode, frames: Seq<ScriptFrame>) -> Seq<Asked> {
    Seq::new(
        frames.len(),
        |i: int|
            Asked {
                channel: node.channel,
                id: frames[i].id,
                extended: frames[i].extended,
                data: frames[i].data@,
            },
    )
}

/// The frames of the first `n` nodes that may send, in the order of the nodes. A script
/// that is bound to a database node is silent while that node is not simulated.
pub open spec fn asked_frames(
    channels: Seq<Channel>,
    nodes: Seq<ScriptNode>,
    turns: Seq<NodeTurn>,
    n: int,
) -> Seq<Asked>
    decreases n,
{
    if n <= 0 {
        Seq::empty()
    } else {
        let before = asked_frames(channels, nodes, turns, n - 1);
        if bus_view::script_allowed(channels, nodes[n - 1].attached) {
            before + asked_by(nodes[n - 1], turns[n - 1].frames@)
        } else {
            before
        }
    }
}

/// The frames that were built for what was asked.
pub open spec fn are_built(asked: Seq<Asked>, t_us: u64, frames: Seq<CanFrame>) -> bool {
    &&& frames.len() == asked.len()
    &&& forall|i: int|
        #![trigger frames[i]]
        0 <= i < asked.len() ==> bus_ingest::scripted_frame(
            asked[i].channel,
            asked[i].id,
            asked[i].extended,
            asked[i].data,
            t_us,
            frames[i],
        )
}

/// One value, variable or line that a turn hands to the core.
pub enum NodeEvent {
    Emitted { channel: u8, node_id: u64, node_name: String, name: String, value: Double },
    VarSet { node_id: u64, key: String, value: Double },
    Line { node_name: String, line: String },
}

/// The derived values of the first `n` nodes.
pub open spec fn emits(nodes: Seq<ScriptNode>, turns: Seq<NodeTurn>, n: int) -> Seq<NodeEvent>
    decreases n,
{
    if n <= 0 {
        Seq::empty()
    } else {
        let node = nodes[n - 1];
        let all = turns[n - 1].emitted@;
        emits(nodes, turns, n - 1) + Seq::new(
            all.len(),
            |i: int|
                NodeEvent::Emitted {
                    channel: node.channel,
                    node_id: node.id,
                    node_name: node.name,
                    name: all[i].0,
                    value: all[i].1,
                },
        )
    }
}

/// The variable writes of the first `n` nodes.
pub open spec fn sets(nodes: Seq<ScriptNode>, turns: Seq<NodeTurn>, n: int) -> Seq<NodeEvent>
    decreases n,
{
    if n <= 0 {
        Seq::empty()
    } else {
        let node = nodes[n - 1];
        let all = turns[n - 1].sys_sets@;
        sets(nodes, turns, n - 1) + Seq::new(
            all.len(),
            |i: int| NodeEvent::VarSet { node_id: node.id, key: all[i].0, value: all[i].1 },
        )
    }
}

/// The log lines of the first `n` nodes.
pub open spec fn lines(nodes: Seq<ScriptNode>, turns: Seq<NodeTurn>, n: int) -> Seq<NodeEvent>
    decreases n,
{
    if n <= 0 {
        Seq::empty()
    } else {
        let node = nodes[n - 1];
        let all = turns[n - 1].lines@;
        lines(nodes, turns, n - 1) + Seq::new(
            all.len(),
            |i: int| NodeEvent::Line { node_name: node.name, line: all[i] },
        )
    }
}

/// What the turns hand to the core, in this order: every derived value, then every
/// variable, then every line.
pub open spec fn events_of(nodes: Seq<ScriptNode>, turns: Seq<NodeTurn>) -> Seq<NodeEvent> {
    let n = turns.len() as int;
    emits(nodes, turns, n) + sets(nodes, turns, n) + lines(nodes, turns, n)
}

/// Some of the first `n` nodes changed its log.
pub open spec fn some_log_changed(turns: Seq<NodeTurn>, n: int) -> bool {
    exists|i: int| 0 <= i < n && (#[trigger] turns[i]).log_changed
}

/// The line that a write to an undefined variable leaves in the writing node's log.
pub open spec fn undefined_line(key: Seq<char>) -> Seq<char> {
    "[sysvar] 未定义，写入被丢弃: \""@ + key + "\""@
}

/// One event is taken by the core; `note` is what the writing node is told.
pub open spec fn is_event_taken(
    before: BusCore,
    e: NodeEvent,
    after: BusCore,
    note: Option<(u64, Seq<char>)>,
) -> bool {
    match e {
        NodeEvent::Emitted { channel, node_id, node_name, name, value } => {
            let key = observers::stream_key(channel, node_id, name@);
            &&& after.obs@ == before.obs@.emitted(
                key,
                node_name@,
                bus_ingest::meta_by(before.channels@, key),
                value.bits,
                value.whole,
                before.sim_t_us,
                before.applied_stride_us,
            )
            &&& after.nodes_dirty == (before.nodes_dirty || (!observers::has_stream(
                before.obs@.streams,
                key,
            ) && !before.obs@.is_full(key)))
            &&& after == (BusCore { obs: after.obs, nodes_dirty: after.nodes_dirty, ..before })
            &&& note is None
        },
        NodeEvent::VarSet { node_id, key, value } => {
            &&& before.is_var_written(after, key@, value)
            &&& note == (if bus_types::var_index(before.sysvars@, key@, 0) < 0
                && bus_types::node_index(before.nodes@, node_id, 0) >= 0 {
                Some((node_id, undefined_line(key@)))
            } else {
                None
            })
        },
        NodeEvent::Line { node_name, line } => {
            &&& exists|w: WriteLine|
                #[trigger] before.is_written(after, w) && w.kind == bus_types::line_kind(line@)
                    && w.text@ == "["@ + node_name@ + "] "@ + line@
            &&& note is None
        },
    }
}

/// The events are taken one after the other.
pub open spec fn are_events_taken(
    events: Seq<NodeEvent>,
    steps: Seq<BusCore>,
    notes: Seq<Option<(u64, Seq<char>)>>,
) -> bool {
    &&& steps.len() == events.len() + 1
    &&& notes.len() == events.len()
    &&& forall|k: int|
        #![trigger events[k]]
        0 <= k < events.len() ==> is_event_taken(steps[k], events[k], steps[k + 1], notes[k])
}

/// The notes that were left.
pub open spec fn left_notes(notes: Seq<Option<(u64, Seq<char>)>>, n: int) -> Seq<(u64, Seq<char>)>
    decreases n,
{
    if n <= 0 {
        Seq::empty()
    } else {
        match notes[n - 1] {
            Some(note) => left_notes(notes, n - 1).push(note),
            None => left_notes(notes, n - 1),
        }
    }
}

/// A note by its contents.
pub open spec fn note_view(note: Option<(u64, String)>) -> Option<(u64, Seq<char>)> {
    match note {
        Some(n) => Some((n.0, n.1@)),
        None => None,
    }
}

/// The notes by their contents.
pub open spec fn note_views(notes: Seq<(u64, String)>) -> Seq<(u64, Seq<char>)> {
    notes.map_values(|p: (u64, String)| (p.0, p.1@))
}

fn gather_emits(nodes: &Vec<ScriptNode>, turns: &Vec<NodeTurn>, out: &mut Vec<NodeEvent>)
    requires
        turns@.len() == nodes@.len(),
    ensures
        final(out)@ == old(out)@ + emits(nodes@, turns@, turns@.len() as int),
{
    let ghost held = out@;
    assert(held + emits(nodes@, turns@, 0) =~= held);
    for i in 0..turns.len()
        invariant
            turns@.len() == nodes@.len(),
            out@ == held + emits(nodes@, turns@, i as int),
    {
        let node: &ScriptNode = &nodes[i];
        let all: &Vec<(String, Double)> = &turns[i].emitted;
        let ghost more = Seq::new(
            all@.len(),
            |k: int|
                NodeEvent::Emitted {
                    channel: node.channel,
                    node_id: node.id,
                    node_name: node.name,
                    name: all@[k].0,
                    value: all@[k].1,
                },
        );
        let ghost start = out@;
        for k in 0..all.len()
            invariant
                more == Seq::new(
                    all@.len(),
                    |k: int|
                        NodeEvent::Emitted {
                            channel: node.channel,
                            node_id: node.id,
                            node_name: node.name,
                            name: all@[k].0,
                            value: all@[k].1,
                        },
                ),
                out@ == start + more.subrange(0, k as int),
        {
            out.push(
                NodeEvent::Emitted {
                    channel: node.channel,
                    node_id: node.id,
                    node_name: node.name.clone(),
                    name: all[k].0.clone(),
                    value: all[k].1,
                },
            );
            assert(out@ =~= start + more.subrange(0, k + 1));
        }
        assert(out@ =~= held + emits(nodes@, turns@, i + 1));
    }
}

fn gather_sets(nodes: &Vec<ScriptNode>, turns: &Vec<NodeTurn>, out: &mut Vec<NodeEvent>)
    requires
        turns@.len() == nodes@.len(),
    ensures
        final(out)@ == old(out)@ + sets(nodes@, turns@, turns@.len() as int),
{
    let ghost held = out@;
    assert(held + sets(nodes@, turns@, 0) =~= held);
    for i in 0..turns.len()
        invariant
            turns@.len() == nodes@.len(),
            out@ == held + sets(nodes@, turns@, i as int),
    {
        let node: &ScriptNode = &nodes[i];
        let all: &Vec<(String, Double)> = &turns[i].sys_sets;
        let ghost more = Seq::new(
            all@.len(),
            |k: int| NodeEvent::VarSet { node_id: node.id, key: all@[k].0, value: all@[k].1 },
        );
        let ghost start = out@;
        for k in 0..all.len()
            invariant
                more == Seq::new(
                    all@.len(),
                    |k: int| NodeEvent::VarSet { node_id: node.id, key: all@[k].0, value: all@[k].1 },
                ),
                out@ == start + more.subrange(0, k as int),
        {
            out.push(
                NodeEvent::VarSet { node_id: node.id, key: all[k].0.clone(), value: all[k].1 },
            );
            assert(out@ =~= start + more.subrange(0, k + 1));
        }
        assert(out@ =~= held + sets(nodes@, turns@, i + 1));
    }
}

fn gather_lines(nodes: &Vec<ScriptNode>, turns: &Vec<NodeTurn>, out: &mut Vec<NodeEvent>)
    requires
        turns@.len() == nodes@.len(),
    ensures
        final(out)@ == old(out)@ + lines(nodes@, turns@, turns@.len() as int),
{
    let ghost held = out@;
    assert(held + lines(nodes@, turns@, 0) =~= held);
    for i in 0..turns.len()
        invariant
            turns@.len() == nodes@.len(),
            out@ == held + lines(nodes@, turns@, i as int),
    {
        let node: &ScriptNode = &nodes[i];
        let all: &Vec<String> = &turns[i].lines;
        let ghost more = Seq::new(
            all@.len(),
            |k: int| NodeEvent::Line { node_name: node.name, line: all@[k] },
        );
        let ghost start = out@;
        for k in 0..all.len()
            invariant
                more == Seq::new(
                    all@.len(),
                    |k: int| NodeEvent::Line { node_name: node.name, line: all@[k] },
                ),
                out@ == start + more.subrange(0, k as int),
        {
            out.push(NodeEvent::Line { node_name: node.name.clone(), line: all[k].clone() });
            assert(out@ =~= start + more.subrange(0, k + 1));
        }
        assert(out@ =~= held + lines(nodes@, turns@, i + 1));
    }
}

fn gather(nodes: &Vec<ScriptNode>, turns: &Vec<NodeTurn>) -> (r: Vec<NodeEvent>)
    requires
        turns@.len() == nodes@.len(),
    ensures
        r@ == events_of(nodes@, turns@),
{
    let mut r: Vec<NodeEvent> = Vec::new();
    gather_emits(nodes, turns, &mut r);
    gather_sets(nodes, turns, &mut r);
    gather_lines(nodes, turns, &mut r);
    assert(r@ =~= events_of(nodes@, turns@));
    r
}

fn any_log_changed(turns: &Vec<NodeTurn>) -> (r: bool)
    ensures
        r == some_log_changed(turns@, turns@.len() as int),
{
    for i in 0..turns.len()
        invariant
            !some_log_changed(turns@, i as int),
    {
        if turns[i].log_changed {
            assert(turns@[i as int].log_changed);
            return true;
        }
    }
    false
}

impl BusCore {
    /// The frames that the scripts sent at `t_us`, gated by the roles of the nodes they
    /// are bound to. They go out on the wire and join the step.
    pub fn scripted_frames(&self, turns: &Vec<NodeTurn>, t_us: u64) -> (r: Vec<CanFrame>)
        requires
            turns@.len() == self.nodes@.len(),
        ensures
            are_built(
                asked_frames(self.channels@, self.nodes@, turns@, turns@.len() as int),
                t_us,
                r@,
            ),
            forall|i: int| 0 <= i < r@.len() ==> (#[trigger] r@[i]).wf(),
    {
        let mut r: Vec<CanFrame> = Vec::new();
        for i in 0..turns.len()
            invariant
                turns@.len() == self.nodes@.len(),
                are_built(
                    asked_frames(self.channels@, self.nodes@, turns@, i as int),
                    t_us,
                    r@,
                ),
                forall|k: int| 0 <= k < r@.len() ==> (#[trigger] r@[k]).wf(),
        {
            let node: &ScriptNode = &self.nodes[i];
            if may_send(&self.channels, &node.attached) {
                let frames: &Vec<ScriptFrame> = &turns[i].frames;
                let ghost before = asked_frames(self.channels@, self.nodes@, turns@, i as int);
                let ghost more = asked_by(*node, frames@);
                for k in 0..frames.len()
                    invariant
                        more == asked_by(*node, frames@),
                        are_built(before + more.subrange(0, k as int), t_us, r@),
                        forall|j: int| 0 <= j < r@.len() ==> (#[trigger] r@[j]).wf(),
                {
                    let f: &ScriptFrame = &frames[k];
                    let ghost held = r@;
                    let ghost was = before + more.subrange(0, k as int);
                    let g: CanFrame = node_frame(
                        node.channel,
                        f.id,
                        f.extended,
                        f.data.as_slice(),
                        t_us,
                    );
                    r.push(g);
                    proof {
                        let now = before + more.subrange(0, k + 1);
                        assert(now =~= was.push(more[k as int]));
                        assert forall|j: int|
                            #![trigger r@[j]]
                            0 <= j < now.len() implies bus_ingest::scripted_frame(
                            now[j].channel,
                            now[j].id,
                            now[j].extended,
                            now[j].data,
                            t_us,
                            r@[j],
                        ) by {
                            if j < was.len() {
                                assert(held[j] == r@[j]);
                            }
                        }
                    }
                }
                assert(more.subrange(0, more.len() as int) =~= more);
                assert(before + more.subrange(0, 0) =~= before);
            }
        }
        r
    }

    /// The turns' values, variables and lines have been taken.
    pub open spec fn are_turns_taken(
        self,
        after: BusCore,
        turns: Seq<NodeTurn>,
        told: Seq<(u64, Seq<char>)>,
    ) -> bool {
        exists|steps: Seq<BusCore>, notes: Seq<Option<(u64, Seq<char>)>>|
            {
                &&& #[trigger] are_events_taken(events_of(self.nodes@, turns), steps, notes)
                &&& steps[0] == (BusCore {
                    nodes_dirty: self.nodes_dirty || some_log_changed(turns, turns.len() as int),
                    ..self
                })
                &&& steps.last() == after
                &&& told == left_notes(notes, notes.len() as int)
            }
    }

    /// Takes one event.
    fn take_event(&mut self, e: &NodeEvent) -> (note: Option<(u64, String)>)
        requires
            old(self).wf(),
        ensures
            final(self).wf(),
            is_event_taken(*old(self), *e, *final(self), note_view(note)),
    {
        match e {
            NodeEvent::Emitted { channel, node_id, node_name, name, value } => {
                self.ingest_emitted(
                    *channel,
                    *node_id,
                    node_name.as_str(),
                    name.as_str(),
                    *value,
                );
                None
            },
            NodeEvent::VarSet { node_id, key, value } => match self.apply_sys_write(
                *node_id,
                key.as_str(),
                *value,
            ) {
                Some(line) => Some((*node_id, line)),
                None => None,
            },
            NodeEvent::Line { node_name, line } => {
                self.write_node_line(node_name.as_str(), line.as_str());
                None
            },
        }
    }

    /// Takes what the scripts derived, set and logged: first every derived value, then
    /// every variable, then every line. Returns what the writers of undefined variables
    /// are told.
    pub fn take_node_turns(&mut self, turns: &Vec<NodeTurn>) -> (told: Vec<(u64, String)>)
        requires
            old(self).wf(),
            turns@.len() == old(self).nodes@.len(),
        ensures
            final(self).wf(),
            old(self).are_turns_taken(*final(self), turns@, note_views(told@)),
    {
        let events: Vec<NodeEvent> = gather(&self.nodes, turns);
        if any_log_changed(turns) {
            self.nodes_dirty = true;
        }
        let mut told: Vec<(u64, String)> = Vec::new();
        let ghost mut steps: Seq<BusCore> = seq![*self];
        let ghost mut notes: Seq<Option<(u64, Seq<char>)>> = Seq::empty();
        let total: usize = events.len();
        assert(note_views(told@) =~= left_notes(notes, 0));
        for i in 0..total
            invariant
                total == events@.len(),
                self.wf(),
                steps.len() == i + 1,
                notes.len() == i,
                steps[0] == (BusCore {
                    nodes_dirty: old(self).nodes_dirty || some_log_changed(
                        turns@,
                        turns@.len() as int,
                    ),
                    ..*old(self)
                }),
                steps[i as int] == *self,
                note_views(told@) == left_notes(notes, i as int),
                forall|k: int|
                    #![trigger events@[k]]
                    0 <= k < i ==> is_event_taken(steps[k], events@[k], steps[k + 1], notes[k]),
        {
            let ghost held = steps;
            let ghost kept = notes;
            let ghost heard = told@;
            let note: Option<(u64, String)> = self.take_event(&events[i]);
            let ghost n = note_view(note);
            match note {
                Some(x) => {
                    let ghost shown = x;
                    told.push(x);
                    assert(note_views(told@) =~= note_views(heard).push((shown.0, shown.1@)));
                },
                None => {},
            }
            proof {
                steps = steps.push(*self);
                notes = notes.push(n);
                lemma_left_notes(notes, kept, i as int);
                assert forall|k: int|
                    #![trigger events@[k]]
                    0 <= k < i + 1 implies is_event_taken(
                    steps[k],
                    events@[k],
                    steps[k + 1],
                    notes[k],
                ) by {
                    if k < i {
                        assert(steps[k] == held[k] && steps[k + 1] == held[k + 1]);
                        assert(notes[k] == kept[k]);
                    }
                }
            }
        }
        assert(are_events_taken(events@, steps, notes));
        told
    }
}

proof fn lemma_left_notes(
    a: Seq<Option<(u64, Seq<char>)>>,
    b: Seq<Option<(u64, Seq<char>)>>,
    n: int,
)
    requires
        0 <= n <= a.len(),
        n <= b.len(),
        forall|k: int| 0 <= k < n ==> a[k] == b[k],
    ensures
        left_notes(a, n) == left_notes(b, n),
    decreases n,
{
    if n > 0 {
        lemma_left_notes(a, b, n - 1);
    }
}

/// A script that is bound to a node which is not simulated puts nothing on the bus,
/// whatever its handlers sent.
pub proof fn law_a_muted_node_sends_nothing(
    channels: Seq<Channel>,
    nodes: Seq<ScriptNode>,
    turns: Seq<NodeTurn>,
    i: int,
)
    requires
        0 <= i < nodes.len(),
        !bus_view::script_allowed(channels, nodes[i].attached),
    ensures
        asked_frames(channels, nodes, turns, i + 1) == asked_frames(channels, nodes, turns, i),
{
}

} // verus!
