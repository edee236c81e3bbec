//! What watches the bus: the subscribed signals and the derived streams that
//! scripts and system variables open.

use vstd::prelude::*;
use vstd::string::*;
use crate::can::frame::CanFrame;
use crate::channel;
use crate::dbc::{DecodedSignal, RawValue};
use crate::observe;
use crate::observe::{SigKey, Subscription};
use crate::text;

verus! {

/// A value as it was read: a decoded signal's parts, or the bit pattern of a
/// plain double.
#[derive(Clone, Copy, Debug, PartialEq, Eq, Structural)]
pub enum Reading {
    Decoded { value: RawValue, factor: u64, offset: u64 },
    Plain(u64),
}

/// How many derived streams may exist at once. Beyond it, values under further
/// new names are ignored: a guard against a script minting names in a loop.
pub const MAX_EMITTED_STREAMS: usize = 256;

/// Ids of derived streams carry this bit, so that none can collide with a frame's
/// signals.
pub const EMITTED_ID_BASE: u32 = 0x8000_0000;

/// The stream id of system variables: one that no node can ever have.
pub const SYSVAR_STREAM_ID: u64 = 0xffff_ffff_ffff_ffff;

/// A signal's key, by its contents.
pub ghost struct KeyState {
    pub ch: u8,
    pub id: u32,
    pub ext: bool,
    pub signal: Seq<char>,
}

impl View for SigKey {
    type V = KeyState;

    open spec fn view(&self) -> KeyState {
        KeyState { ch: self.ch, id: self.id, ext: self.ext, signal: self.signal@ }
    }
}

/// A subscription, by its contents.
pub ghost struct SubState {
    pub key: KeyState,
    pub latest: Reading,
    pub last_raw: i64,
    pub unit: Seq<char>,
    pub label: Option<Seq<char>>,
    pub type_tag: Seq<char>,
    pub n: u64,
    pub pending: Seq<Reading>,
    pub last_update_us: u64,
    pub last_sample_us: u64,
    pub history: Seq<(u64, Reading)>,
    pub color: usize,
}

/// A text behind an option.
pub open spec fn label_view(l: Option<String>) -> Option<Seq<char>> {
    match l {
        Some(s) => Some(s@),
        None => None,
    }
}

/// What a subscription holds.
pub open spec fn sub_state(s: Subscription<Reading>) -> SubState {
    SubState {
        key: s.key@,
        latest: s.latest,
        last_raw: s.last_raw,
        unit: s.unit@,
        label: label_view(s.label),
        type_tag: s.type_tag@,
        n: s.n,
        pending: s.pending@,
        last_update_us: s.last_update_us,
        last_sample_us: s.last_sample_us,
        history: s.history@,
        color: s.color,
    }
}

impl SubState {
    /// A subscription that has read nothing yet.
    pub open spec fn fresh(key: KeyState, type_tag: Seq<char>, color: usize) -> SubState {
        SubState {
            key,
            latest: Reading::Plain(0),
            last_raw: 0,
            unit: Seq::empty(),
            label: None,
            type_tag,
            n: 0,
            pending: Seq::empty(),
            last_update_us: 0,
            last_sample_us: 0,
            history: Seq::empty(),
            color,
        }
    }

    /// With one sample offered.
    pub open spec fn sampled(self, t: u64, v: Reading, stride: u64) -> SubState {
        SubState {
            history: observe::trimmed(
                observe::placed(self.history, (t, v), stride),
                observe::HISTORY_SPAN_US,
            ),
            n: if observe::fits(self.history, t, stride) && self.n < u64::MAX {
                (self.n + 1) as u64
            } else {
                self.n
            },
            pending: if observe::fits(self.history, t, stride) {
                self.pending.push(v)
            } else {
                self.pending
            },
            last_sample_us: t,
            ..self
        }
    }

    /// With the sample, where one is due.
    pub open spec fn offered(self, t: u64, v: Reading, stride: u64) -> SubState {
        if t >= self.last_sample_us + stride || self.history.len() == 0 {
            self.sampled(t, v, stride)
        } else {
            self
        }
    }

    /// At the start of a run.
    pub open spec fn reset(self) -> SubState {
        SubState {
            history: Seq::empty(),
            n: 0,
            pending: Seq::empty(),
            last_update_us: 0,
            last_sample_us: 0,
            ..self
        }
    }
}

/// The watchers, by their contents.
pub ghost struct Watch {
    pub subs: Seq<SubState>,
    /// Derived streams with the name they are listed under.
    pub streams: Seq<(KeyState, Seq<char>)>,
    pub color_counter: usize,
}

/// The first subscription to a signal, or -1.
pub open spec fn sub_index(subs: Seq<SubState>, key: KeyState, from: int) -> int
    decreases subs.len() - from,
{
    if from < 0 || from >= subs.len() {
        -1
    } else if subs[from].key == key {
        from
    } else {
        sub_index(subs, key, from + 1)
    }
}

/// The stream is open.
pub open spec fn has_stream(streams: Seq<(KeyState, Seq<char>)>, key: KeyState) -> bool {
    exists|i: int| 0 <= i < streams.len() && (#[trigger] streams[i]).0 == key
}

/// The id that a node's derived streams carry.
pub open spec fn stream_id(node_id: u64) -> u32 {
    EMITTED_ID_BASE | node_id as u32
}

/// The id is that of a node's derived stream.
pub open spec fn is_owned(id: u32, node_id: u64) -> bool {
    id & 0x7fff_ffff == node_id as u32
}

fn owned(id: u32, node_id: u64) -> (r: bool)
    ensures
        r == is_owned(id, node_id),
{
    #[verifier::truncate]
    let low: u32 = node_id as u32;
    id & 0x7fff_ffff == low
}

/// The key of a derived stream.
pub open spec fn stream_key(ch: u8, node_id: u64, name: Seq<char>) -> KeyState {
    KeyState { ch, id: stream_id(node_id), ext: false, signal: name }
}

impl Watch {
    /// With the signal subscribed: a fresh subscription gets the next color, an
    /// existing one is left untouched.
    pub open spec fn subscribed(self, key: KeyState, type_tag: Seq<char>) -> Watch {
        if sub_index(self.subs, key, 0) >= 0 {
            self
        } else {
            Watch {
                subs: self.subs.push(SubState::fresh(key, type_tag, self.color_counter)),
                color_counter: next_color(self.color_counter),
                ..self
            }
        }
    }

    /// A value under a name that is new may not open another stream.
    pub open spec fn is_full(self, key: KeyState) -> bool {
        !has_stream(self.streams, key) && self.streams.len() >= MAX_EMITTED_STREAMS
    }

    /// With one derived value.
    pub open spec fn emitted(
        self,
        key: KeyState,
        owner: Seq<char>,
        type_tag: Seq<char>,
        v: u64,
        whole: i64,
        t_us: u64,
        stride: u64,
    ) -> Watch {
        if self.is_full(key) {
            self
        } else {
            let opened = if has_stream(self.streams, key) {
                self
            } else {
                Watch { streams: self.streams.push((key, owner)), ..self }
            };
            let w = opened.subscribed(key, type_tag);
            let i = sub_index(w.subs, key, 0);
            let s = SubState {
                latest: Reading::Plain(v),
                last_raw: whole,
                last_update_us: t_us,
                ..w.subs[i]
            };
            Watch { subs: w.subs.update(i, s.offered(t_us, Reading::Plain(v), stride)), ..w }
        }
    }

    /// At the start of a run.
    pub open spec fn reset(self) -> Watch {
        Watch { subs: Seq::new(self.subs.len(), |i: int| self.subs[i].reset()), ..self }
    }

    /// With what was sampled read out.
    pub open spec fn drained(self) -> Watch {
        Watch {
            subs: Seq::new(
                self.subs.len(),
                |i: int| SubState { pending: Seq::empty(), ..self.subs[i] },
            ),
            ..self
        }
    }

    /// With every sampler resumed at `t`.
    pub open spec fn rewound(self, t: u64) -> Watch {
        Watch {
            subs: Seq::new(
                self.subs.len(),
                |i: int| SubState { last_sample_us: t, ..self.subs[i] },
            ),
            ..self
        }
    }
}

/// The next palette row.
pub open spec fn next_color(n: usize) -> usize {
    if n < usize::MAX {
        (n + 1) as usize
    } else {
        0
    }
}

/// What a decoded signal reads.
pub open spec fn reading_of(d: DecodedSignal) -> Reading {
    Reading::Decoded { value: d.value, factor: d.factor, offset: d.offset }
}

/// The key of a decoded signal of a frame.
pub open spec fn decoded_key(f: CanFrame, d: DecodedSignal) -> KeyState {
    KeyState { ch: f.channel, id: f.id, ext: f.extended, signal: d.name@ }
}

/// A subscription after a frame that carries its signal.
pub open spec fn read_by(s: SubState, d: DecodedSignal, t: u64, stride: u64) -> SubState {
    SubState {
        latest: reading_of(d),
        last_raw: d.raw,
        unit: d.unit@,
        type_tag: d.type_tag@,
        label: label_view(d.label),
        last_update_us: t,
        ..s
    }.offered(t, reading_of(d), stride)
}

/// The subscriptions after the first `n` decoded signals of a frame.
pub open spec fn watched(
    subs: Seq<SubState>,
    f: CanFrame,
    decoded: Seq<DecodedSignal>,
    stride: u64,
    n: int,
) -> Seq<SubState>
    decreases n,
{
    if n <= 0 {
        subs
    } else {
        let before = watched(subs, f, decoded, stride, n - 1);
        let i = sub_index(before, decoded_key(f, decoded[n - 1]), 0);
        if i >= 0 {
            before.update(i, read_by(before[i], decoded[n - 1], f.t_us, stride))
        } else {
            before
        }
    }
}

/// The subscriptions to signals of the buses that outlive a removal.
pub open spec fn remaining_subs(subs: Seq<SubState>, gone: usize, n: int) -> Seq<SubState>
    decreases n,
{
    if n <= 0 {
        Seq::empty()
    } else {
        let before = remaining_subs(subs, gone, n - 1);
        match channel::remapped(subs[n - 1].key.ch, gone) {
            Some(c) => before.push(
                SubState { key: KeyState { ch: c, ..subs[n - 1].key }, ..subs[n - 1] },
            ),
            None => before,
        }
    }
}

/// The streams of the buses that outlive a removal.
pub open spec fn remaining_streams(
    streams: Seq<(KeyState, Seq<char>)>,
    gone: usize,
    n: int,
) -> Seq<(KeyState, Seq<char>)>
    decreases n,
{
    if n <= 0 {
        Seq::empty()
    } else {
        let before = remaining_streams(streams, gone, n - 1);
        match channel::remapped(streams[n - 1].0.ch, gone) {
            Some(c) => before.push((KeyState { ch: c, ..streams[n - 1].0 }, streams[n - 1].1)),
            None => before,
        }
    }
}

/// The streams that a predicate keeps.
pub open spec fn kept_streams(
    streams: Seq<(KeyState, Seq<char>)>,
    keep: spec_fn((KeyState, Seq<char>)) -> bool,
    n: int,
) -> Seq<(KeyState, Seq<char>)>
    decreases n,
{
    if n <= 0 {
        Seq::empty()
    } else {
        let before = kept_streams(streams, keep, n - 1);
        if keep(streams[n - 1]) {
            before.push(streams[n - 1])
        } else {
            before
        }
    }
}

/// The subscriptions without those to a signal.
pub open spec fn without_sub(subs: Seq<SubState>, key: KeyState, n: int) -> Seq<SubState>
    decreases n,
{
    if n <= 0 {
        Seq::empty()
    } else {
        let before = without_sub(subs, key, n - 1);
        if subs[n - 1].key == key {
            before
        } else {
            before.push(subs[n - 1])
        }
    }
}

/// One derived stream with the name it is listed under.
pub struct Stream {
    pub key: SigKey,
    pub owner: String,
}

/// The subscribed signals and the derived streams.
pub struct Observers {
    pub subs: Vec<Subscription<Reading>>,
    pub streams: Vec<Stream>,
    /// Next palette row for a new subscription.
    pub color_counter: usize,
}

/// What a list of subscriptions holds.
pub open spec fn sub_states(subs: Seq<Subscription<Reading>>) -> Seq<SubState> {
    Seq::new(subs.len(), |i: int| sub_state(subs[i]))
}

/// What a list of streams holds.
pub open spec fn stream_states(streams: Seq<Stream>) -> Seq<(KeyState, Seq<char>)> {
    Seq::new(streams.len(), |i: int| (streams[i].key@, streams[i].owner@))
}

impl View for Observers {
    type V = Watch;

    open spec fn view(&self) -> Watch {
        Watch {
            subs: sub_states(self.subs@),
            streams: stream_states(self.streams@),
            color_counter: self.color_counter,
        }
    }
}

/// The id of a node's derived streams.
pub fn stream_id_of(node_id: u64) -> (r: u32)
    ensures
        r == stream_id(node_id),
{
    #[verifier::truncate]
    let low: u32 = node_id as u32;
    EMITTED_ID_BASE | low
}

impl Observers {
    pub open spec fn wf(self) -> bool {
        forall|i: int| 0 <= i < self.subs@.len() ==> (#[trigger] self.subs@[i]).wf()
    }

    pub fn new() -> (o: Observers)
        ensures
            o.wf(),
            o.subs@.len() == 0,
            o.streams@.len() == 0,
            o.color_counter == 0,
    {
        Observers { subs: Vec::new(), streams: Vec::new(), color_counter: 0 }
    }

    /// Where the subscription to a signal stands.
    pub fn find(&self, key: &SigKey) -> (r: Option<usize>)
        ensures
            r is Some == (sub_index(self@.subs, key@, 0) >= 0),
            r matches Some(i) ==> i == sub_index(self@.subs, key@, 0) && i < self.subs@.len(),
    {
        for i in 0..self.subs.len()
            invariant
                sub_index(self@.subs, key@, 0) == sub_index(self@.subs, key@, i as int),
        {
            if self.subs[i].key.same_as(key) {
                assert(self@.subs[i as int].key == key@);
                return Some(i);
            }
            assert(self@.subs[i as int].key != key@);
        }
        None
    }

    /// Starts caching a signal: a fresh subscription gets the next palette color.
    /// An existing subscription is left untouched.
    pub fn subscribe(&mut self, key: SigKey, type_tag: String)
        requires
            old(self).wf(),
        ensures
            final(self).wf(),
            final(self)@ == old(self)@.subscribed(key@, type_tag@),
            final(self).streams == old(self).streams,
            sub_index(final(self)@.subs, key@, 0) >= 0,
    {
        if self.find(&key).is_some() {
            return;
        }
        let ghost before = self@;
        let ghost k = key@;
        let sub: Subscription<Reading> = Subscription::new(
            key,
            Reading::Plain(0),
            type_tag,
            self.color_counter,
        );
        self.subs.push(sub);
        self.color_counter = if self.color_counter < usize::MAX {
            self.color_counter + 1
        } else {
            0
        };
        assert(self@.subs =~= before.subs.push(
            SubState::fresh(k, type_tag@, before.color_counter),
        ));
        proof {
            lemma_pushed_found(before.subs, SubState::fresh(k, type_tag@, before.color_counter), 0);
        }
    }

    /// Drops the subscription to a signal.
    pub fn unsubscribe(&mut self, key: &SigKey)
        requires
            old(self).wf(),
        ensures
            final(self).wf(),
            final(self)@.subs == without_sub(old(self)@.subs, key@, old(self)@.subs.len() as int),
            final(self).streams == old(self).streams,
            final(self).color_counter == old(self).color_counter,
    {
        let mut all: Vec<Subscription<Reading>> = Vec::new();
        std::mem::swap(&mut all, &mut self.subs);
        let ghost before = all@;
        let mut kept: Vec<Subscription<Reading>> = Vec::new();
        for s in it: all
            invariant
                it.seq() == before,
                before == old(self).subs@,
                old(self).wf(),
                forall|i: int| 0 <= i < kept@.len() ==> (#[trigger] kept@[i]).wf(),
                sub_states(kept@) =~= without_sub(
                    sub_states(before),
                    key@,
                    it.index() as int,
                ),
        {
            assert(s == before[it.index() as int]);
            assert(sub_states(before)[it.index() as int] == sub_state(s));
            if !s.key.same_as(key) {
                let ghost held = kept@;
                kept.push(s);
                assert(sub_states(kept@) =~= sub_states(held).push(sub_state(s)));
            }
        }
        self.subs = kept;
    }

    fn stream_open(&self, key: &SigKey) -> (r: bool)
        ensures
            r == has_stream(self@.streams, key@),
    {
        for i in 0..self.streams.len()
            invariant
                forall|k: int| 0 <= k < i ==> (#[trigger] self@.streams[k]).0 != key@,
        {
            if self.streams[i].key.same_as(key) {
                assert(self@.streams[i as int].0 == key@);
                return true;
            }
            assert(self@.streams[i as int].0 != key@);
        }
        false
    }

    /// Folds one derived value into its stream, opening it on first emission.
    /// Returns whether a new stream was opened.
    pub fn emit(
        &mut self,
        key: SigKey,
        owner: &str,
        type_tag: String,
        v: u64,
        whole: i64,
        t_us: u64,
        stride: u64,
    ) -> (opened: bool)
        requires
            old(self).wf(),
        ensures
            final(self).wf(),
            final(self)@ == old(self)@.emitted(key@, owner@, type_tag@, v, whole, t_us, stride),
            opened == (!has_stream(old(self)@.streams, key@) && !old(self)@.is_full(key@)),
    {
        let ghost before = self@;
        let known: bool = self.stream_open(&key);
        if !known {
            if self.streams.len() >= MAX_EMITTED_STREAMS {
                return false;
            }
            let entry: Stream = Stream { key: key.copied(), owner: owner.to_owned() };
            self.streams.push(entry);
            assert(self@.streams =~= before.streams.push((key@, owner@)));
        }
        let ghost opened = self@;
        let again: SigKey = key.copied();
        self.subscribe(key, type_tag);
        let ghost w = self@;
        assert(w == opened.subscribed(key@, type_tag@));
        match self.find(&again) {
            Some(i) => {
                let ghost held = self.subs@;
                let sub: &mut Subscription<Reading> = &mut self.subs[i];
                sub.latest = Reading::Plain(v);
                sub.last_raw = whole;
                sub.last_update_us = t_us;
                if sub.is_sample_due(t_us, stride) {
                    sub.push_sample(t_us, Reading::Plain(v), stride);
                }
                proof {
                    let s = SubState {
                        latest: Reading::Plain(v),
                        last_raw: whole,
                        last_update_us: t_us,
                        ..w.subs[i as int]
                    };
                    assert(sub_state(self.subs@[i as int]) == s.offered(
                        t_us,
                        Reading::Plain(v),
                        stride,
                    ));
                    assert(self@.subs =~= w.subs.update(
                        i as int,
                        s.offered(t_us, Reading::Plain(v), stride),
                    ));
                }
            },
            None => {},
        }
        !known
    }

    /// Folds the decoded signals of a frame into their subscriptions.
    pub fn watch(&mut self, f: &CanFrame, decoded: &Vec<DecodedSignal>, stride: u64)
        requires
            old(self).wf(),
        ensures
            final(self).wf(),
            final(self)@.subs == watched(
                old(self)@.subs,
                *f,
                decoded@,
                stride,
                decoded@.len() as int,
            ),
            final(self).streams == old(self).streams,
            final(self).color_counter == old(self).color_counter,
    {
        let total: usize = decoded.len();
        for i in 0..total
            invariant
                total == decoded@.len(),
                self.wf(),
                self@.subs == watched(old(self)@.subs, *f, decoded@, stride, i as int),
                self.streams == old(self).streams,
                self.color_counter == old(self).color_counter,
        {
            let d: &DecodedSignal = &decoded[i];
            let key: SigKey = SigKey {
                ch: f.channel,
                id: f.id,
                ext: f.extended,
                signal: d.name.clone(),
            };
            assert(key@ == decoded_key(*f, *d));
            let ghost w = self@;
            match self.find(&key) {
                Some(k) => {
                    let r: Reading = Reading::Decoded {
                        value: d.value,
                        factor: d.factor,
                        offset: d.offset,
                    };
                    let sub: &mut Subscription<Reading> = &mut self.subs[k];
                    sub.latest = r;
                    sub.last_raw = d.raw;
                    sub.unit = d.unit.clone();
                    sub.type_tag = d.type_tag.clone();
                    sub.label = crate::bus_types::copy_text(&d.label);
                    sub.last_update_us = f.t_us;
                    if sub.is_sample_due(f.t_us, stride) {
                        sub.push_sample(f.t_us, r, stride);
                    }
                    assert(sub_state(self.subs@[k as int]) == read_by(
                        w.subs[k as int],
                        *d,
                        f.t_us,
                        stride,
                    ));
                    assert(self@.subs =~= w.subs.update(
                        k as int,
                        read_by(w.subs[k as int], *d, f.t_us, stride),
                    ));
                },
                None => {},
            }
        }
    }

    /// Starts a run: the samples go, the subscriptions stay.
    pub fn reset(&mut self)
        requires
            old(self).wf(),
        ensures
            final(self).wf(),
            final(self)@ == old(self)@.reset(),
    {
        let total: usize = self.subs.len();
        for i in 0..total
            invariant
                total == old(self).subs@.len(),
                self.subs@.len() == total,
                self.wf(),
                self.streams == old(self).streams,
                self.color_counter == old(self).color_counter,
                forall|k: int|
                    0 <= k < i ==> sub_state(#[trigger] self.subs@[k]) == sub_state(
                        old(self).subs@[k],
                    ).reset(),
                forall|k: int| i <= k < total ==> self.subs@[k] == old(self).subs@[k],
        {
            let sub: &mut Subscription<Reading> = &mut self.subs[i];
            sub.reset_measurement();
        }
        assert(self@.subs =~= old(self)@.reset().subs);
    }

    /// Reads out the values that each subscription sampled since the last time.
    pub fn drain(&mut self) -> (r: Vec<Vec<Reading>>)
        requires
            old(self).wf(),
        ensures
            final(self).wf(),
            final(self)@ == old(self)@.drained(),
            r@.len() == old(self).subs@.len(),
            forall|i: int|
                0 <= i < r@.len() ==> (#[trigger] r@[i])@ == old(self).subs@[i].pending@,
    {
        let mut r: Vec<Vec<Reading>> = Vec::new();
        let total: usize = self.subs.len();
        for i in 0..total
            invariant
                total == old(self).subs@.len(),
                self.subs@.len() == total,
                self.wf(),
                self.streams == old(self).streams,
                self.color_counter == old(self).color_counter,
                r@.len() == i,
                forall|k: int|
                    0 <= k < i ==> (#[trigger] r@[k])@ == old(self).subs@[k].pending@,
                forall|k: int|
                    0 <= k < i ==> sub_state(#[trigger] self.subs@[k]) == (SubState {
                        pending: Seq::empty(),
                        ..sub_state(old(self).subs@[k])
                    }),
                forall|k: int| i <= k < total ==> self.subs@[k] == old(self).subs@[k],
        {
            let mut taken: Vec<Reading> = Vec::new();
            let sub: &mut Subscription<Reading> = &mut self.subs[i];
            std::mem::swap(&mut taken, &mut sub.pending);
            r.push(taken);
            assert(self.subs@[i as int].pending@ =~= Seq::empty());
        }
        assert(self@.subs =~= old(self)@.drained().subs);
        r
    }

    /// Lets every sampler resume at a scrubbed playhead.
    pub fn rewind(&mut self, t: u64)
        requires
            old(self).wf(),
        ensures
            final(self).wf(),
            final(self)@ == old(self)@.rewound(t),
    {
        let total: usize = self.subs.len();
        for i in 0..total
            invariant
                total == old(self).subs@.len(),
                self.subs@.len() == total,
                self.wf(),
                self.streams == old(self).streams,
                self.color_counter == old(self).color_counter,
                forall|k: int|
                    0 <= k < i ==> sub_state(#[trigger] self.subs@[k]) == (SubState {
                        last_sample_us: t,
                        ..sub_state(old(self).subs@[k])
                    }),
                forall|k: int| i <= k < total ==> self.subs@[k] == old(self).subs@[k],
        {
            let sub: &mut Subscription<Reading> = &mut self.subs[i];
            sub.resume_sampling_at(t);
        }
        assert(self@.subs =~= old(self)@.rewound(t).subs);
    }

    /// Drops what watches a bus and shifts what watches the buses above it.
    pub fn drop_bus(&mut self, gone: usize)
        requires
            old(self).wf(),
        ensures
            final(self).wf(),
            final(self)@.subs == remaining_subs(
                old(self)@.subs,
                gone,
                old(self)@.subs.len() as int,
            ),
            final(self)@.streams == remaining_streams(
                old(self)@.streams,
                gone,
                old(self)@.streams.len() as int,
            ),
            final(self).color_counter == old(self).color_counter,
    {
        let mut all: Vec<Subscription<Reading>> = Vec::new();
        std::mem::swap(&mut all, &mut self.subs);
        let ghost before = all@;
        let mut kept: Vec<Subscription<Reading>> = Vec::new();
        for s in it: all
            invariant
                it.seq() == before,
                before == old(self).subs@,
                old(self).wf(),
                forall|i: int| 0 <= i < kept@.len() ==> (#[trigger] kept@[i]).wf(),
                sub_states(kept@) =~= remaining_subs(
                    sub_states(before),
                    gone,
                    it.index() as int,
                ),
        {
            assert(s == before[it.index() as int]);
            assert(sub_states(before)[it.index() as int] == sub_state(s));
            match channel::remap(s.key.ch, gone) {
                Some(c) => {
                    let ghost held = kept@;
                    let mut moved: Subscription<Reading> = s;
                    moved.key.ch = c;
                    let ghost m = moved;
                    kept.push(moved);
                    assert(sub_states(kept@) =~= sub_states(held).push(sub_state(m)));
                },
                None => {},
            }
        }
        self.subs = kept;
        let mut streams: Vec<Stream> = Vec::new();
        std::mem::swap(&mut streams, &mut self.streams);
        let ghost listed = streams@;
        let mut open: Vec<Stream> = Vec::new();
        for s in it: streams
            invariant
                it.seq() == listed,
                listed == old(self).streams@,
                stream_states(open@) =~= remaining_streams(
                    stream_states(listed),
                    gone,
                    it.index() as int,
                ),
        {
            assert(s == listed[it.index() as int]);
            assert(stream_states(listed)[it.index() as int] == (s.key@, s.owner@));
            match channel::remap(s.key.ch, gone) {
                Some(c) => {
                    let ghost held = open@;
                    let mut moved: Stream = s;
                    moved.key.ch = c;
                    let ghost m = moved;
                    open.push(moved);
                    assert(stream_states(open@) =~= stream_states(held).push((m.key@, m.owner@)));
                },
                None => {},
            }
        }
        self.streams = open;
    }

    /// Closes the streams of a node.
    pub fn close_owner(&mut self, node_id: u64)
        ensures
            final(self)@.streams == kept_streams(
                old(self)@.streams,
                |s: (KeyState, Seq<char>)| !is_owned(s.0.id, node_id),
                old(self)@.streams.len() as int,
            ),
            final(self).subs == old(self).subs,
            final(self).color_counter == old(self).color_counter,
    {
        let ghost keep = |s: (KeyState, Seq<char>)| !is_owned(s.0.id, node_id);
        let mut streams: Vec<Stream> = Vec::new();
        std::mem::swap(&mut streams, &mut self.streams);
        let ghost listed = streams@;
        let mut open: Vec<Stream> = Vec::new();
        for s in it: streams
            invariant
                it.seq() == listed,
                listed == old(self).streams@,
                keep == (|s: (KeyState, Seq<char>)| !is_owned(s.0.id, node_id)),
                stream_states(open@) =~= kept_streams(
                    stream_states(listed),
                    keep,
                    it.index() as int,
                ),
        {
            assert(s == listed[it.index() as int]);
            assert(stream_states(listed)[it.index() as int] == (s.key@, s.owner@));
            if !owned(s.key.id, node_id) {
                let ghost held = open@;
                open.push(s);
                assert(stream_states(open@) =~= stream_states(held).push((s.key@, s.owner@)));
            }
        }
        self.streams = open;
    }

    /// Closes the stream of a system variable.
    pub fn close_variable(&mut self, namespace: &str, name: &str)
        ensures
            final(self)@.streams == kept_streams(
                old(self)@.streams,
                |s: (KeyState, Seq<char>)|
                    !(s.0.id == stream_id(SYSVAR_STREAM_ID) && s.0.signal == name@ && s.1
                        == namespace@),
                old(self)@.streams.len() as int,
            ),
            final(self).subs == old(self).subs,
            final(self).color_counter == old(self).color_counter,
    {
        let id: u32 = stream_id_of(SYSVAR_STREAM_ID);
        let ghost keep = |s: (KeyState, Seq<char>)|
            !(s.0.id == stream_id(SYSVAR_STREAM_ID) && s.0.signal == name@ && s.1 == namespace@);
        let mut streams: Vec<Stream> = Vec::new();
        std::mem::swap(&mut streams, &mut self.streams);
        let ghost listed = streams@;
        let mut open: Vec<Stream> = Vec::new();
        for s in it: streams
            invariant
                it.seq() == listed,
                listed == old(self).streams@,
                id == stream_id(SYSVAR_STREAM_ID),
                keep == (|s: (KeyState, Seq<char>)|
                    !(s.0.id == stream_id(SYSVAR_STREAM_ID) && s.0.signal == name@ && s.1
                        == namespace@)),
                stream_states(open@) =~= kept_streams(
                    stream_states(listed),
                    keep,
                    it.index() as int,
                ),
        {
            assert(s == listed[it.index() as int]);
            assert(stream_states(listed)[it.index() as int] == (s.key@, s.owner@));
            let dead: bool = s.key.id == id && text::same_text(s.key.signal.as_str(), name)
                && text::same_text(s.owner.as_str(), namespace);
            if !dead {
                let ghost held = open@;
                open.push(s);
                assert(stream_states(open@) =~= stream_states(held).push((s.key@, s.owner@)));
            }
        }
        self.streams = open;
    }

    /// Lists a node's streams under another name.
    pub fn rename_owner(&mut self, node_id: u64, name: &str)
        ensures
            final(self)@.streams == renamed_streams(old(self)@.streams, node_id, name@),
            final(self).subs == old(self).subs,
            final(self).color_counter == old(self).color_counter,
    {
        let total: usize = self.streams.len();
        for i in 0..total
            invariant
                total == old(self).streams@.len(),
                self.streams@.len() == total,
                self.subs == old(self).subs,
                self.color_counter == old(self).color_counter,
                forall|k: int|
                    0 <= k < i ==> (
                    (#[trigger] self.streams@[k]).key@,
                    self.streams@[k].owner@,
                    ) == renamed_streams(old(self)@.streams, node_id, name@)[k],
                forall|k: int| i <= k < total ==> self.streams@[k] == old(self).streams@[k],
        {
            if owned(self.streams[i].key.id, node_id) {
                let s: &mut Stream = &mut self.streams[i];
                s.owner = name.to_owned();
            }
        }
        assert(self@.streams =~= renamed_streams(old(self)@.streams, node_id, name@));
    }
}

/// The streams with those of a node under another name.
pub open spec fn renamed_streams(
    streams: Seq<(KeyState, Seq<char>)>,
    node_id: u64,
    name: Seq<char>,
) -> Seq<(KeyState, Seq<char>)> {
    Seq::new(
        streams.len(),
        |i: int|
            if is_owned(streams[i].0.id, node_id) {
                (streams[i].0, name)
            } else {
                streams[i]
            },
    )
}

proof fn lemma_pushed_found(subs: Seq<SubState>, s: SubState, from: int)
    requires
        0 <= from <= subs.len(),
        sub_index(subs, s.key, from) < 0,
    ensures
        sub_index(subs.push(s), s.key, from) == subs.len(),
    decreases subs.len() - from,
{
    if from < subs.len() {
        assert(subs.push(s)[from] == subs[from]);
        lemma_pushed_found(subs, s, from + 1);
    }
}

/// However many names a script mints, no more streams open than the cap allows.
pub proof fn law_streams_are_capped(
    w: Watch,
    key: KeyState,
    owner: Seq<char>,
    type_tag: Seq<char>,
    v: u64,
    whole: i64,
    t_us: u64,
    stride: u64,
)
    requires
        w.streams.len() <= MAX_EMITTED_STREAMS,
    ensures
        w.emitted(key, owner, type_tag, v, whole, t_us, stride).streams.len()
            <= MAX_EMITTED_STREAMS,
{
}

/// Every sample that counts is read out once: what was counted and what still waits grow
/// alike, so that their difference is what was read out before.
pub proof fn law_samples_are_read_out_once(s: SubState, t: u64, v: Reading, stride: u64)
    requires
        s.n < u64::MAX,
    ensures
        s.offered(t, v, stride).n - s.offered(t, v, stride).pending.len() == s.n
            - s.pending.len(),
{
}

/// Subscribing twice is subscribing once.
pub proof fn law_subscribe_once(w: Watch, key: KeyState, type_tag: Seq<char>)
    ensures
        w.subscribed(key, type_tag).subscribed(key, type_tag) == w.subscribed(key, type_tag),
{
    if sub_index(w.subs, key, 0) < 0 {
        lemma_pushed_found(w.subs, SubState::fresh(key, type_tag, w.color_counter), 0);
    }
}

} // verus!
