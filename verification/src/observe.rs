//! Sampled signal history: an ascending, evenly thinned buffer of samples for
//! each subscribed signal. The sampled value's type is left open: nothing here
//! computes with it.

use vstd::prelude::*;
use crate::dbc::SymbolTable;

verus! {

/// How far back sampled signal history is kept. Deliberately a span of time, not
/// a number of points: a point cap silently drops the head of the curve mid-run
/// the moment it fills.
pub const HISTORY_SPAN_US: u64 = 3_600_000_000;

/// The coarsest sampling period.
pub const SAMPLE_INTERVAL_US: u64 = 50_000;

/// The finest sampling period.
pub const MIN_STRIDE_US: u64 = 500;

/// How many points the sampling aims for across the smallest open window.
pub const STRIDE_POINTS_PER_WINDOW: u64 = 200;

/// The sampling period for the smallest open window, whose width is given: so many points
/// across it, within the two bounds. Without a window the coarsest.
pub open spec fn stride_of(window_us: Option<u64>) -> int {
    match window_us {
        Some(w) => {
            let wanted = w / STRIDE_POINTS_PER_WINDOW;
            if wanted < MIN_STRIDE_US {
                MIN_STRIDE_US as int
            } else if wanted > SAMPLE_INTERVAL_US {
                SAMPLE_INTERVAL_US as int
            } else {
                wanted as int
            }
        },
        None => SAMPLE_INTERVAL_US as int,
    }
}

/// The sampling period that the smallest open window asks for.
pub fn stride_for(window_us: Option<u64>) -> (r: u64)
    ensures
        r == stride_of(window_us),
        MIN_STRIDE_US <= r <= SAMPLE_INTERVAL_US,
{
    match window_us {
        Some(w) => {
            let wanted: u64 = w / STRIDE_POINTS_PER_WINDOW;
            if wanted < MIN_STRIDE_US {
                MIN_STRIDE_US
            } else if wanted > SAMPLE_INTERVAL_US {
                SAMPLE_INTERVAL_US
            } else {
                wanted
            }
        },
        None => SAMPLE_INTERVAL_US,
    }
}

/// Zooming in never makes the sampling coarser.
pub proof fn law_a_smaller_window_samples_no_coarser(small: u64, large: Option<u64>)
    requires
        large matches Some(w) ==> small <= w,
    ensures
        stride_of(Some(small)) <= stride_of(large),
{
}

/// The samples stand in the order of their time.
pub open spec fn ascending<V>(s: Seq<(u64, V)>) -> bool {
    forall|i: int, j: int| 0 <= i <= j < s.len() ==> s[i].0 <= s[j].0
}

/// How many samples stand at or before `t`, in an ascending buffer.
pub open spec fn position<V>(s: Seq<(u64, V)>, t: u64) -> int
    decreases s.len(),
{
    if s.len() == 0 {
        0
    } else if s.last().0 <= t {
        s.len() as int
    } else {
        position(s.drop_last(), t)
    }
}

/// No sample stands closer to `t` than one stride.
pub open spec fn fits<V>(s: Seq<(u64, V)>, t: u64, stride: u64) -> bool {
    forall|i: int|
        0 <= i < s.len() ==> (#[trigger] s[i]).0 + stride <= t || t + stride <= s[i].0
}

/// The buffer with one more sample, if it fits.
pub open spec fn placed<V>(s: Seq<(u64, V)>, p: (u64, V), stride: u64) -> Seq<(u64, V)> {
    if fits(s, p.0, stride) {
        s.insert(position(s, p.0), p)
    } else {
        s
    }
}

/// The buffer after the samples are placed one after the other.
pub open spec fn merged<V>(s: Seq<(u64, V)>, points: Seq<(u64, V)>, stride: u64) -> Seq<(u64, V)>
    decreases points.len(),
{
    if points.len() == 0 {
        s
    } else {
        placed(merged(s, points.drop_last(), stride), points.last(), stride)
    }
}

/// The values of the samples that found a place.
pub open spec fn taken<V>(s: Seq<(u64, V)>, points: Seq<(u64, V)>, stride: u64) -> Seq<V>
    decreases points.len(),
{
    if points.len() == 0 {
        Seq::empty()
    } else {
        let before = taken(s, points.drop_last(), stride);
        if fits(merged(s, points.drop_last(), stride), points.last().0, stride) {
            before.push(points.last().1)
        } else {
            before
        }
    }
}

/// The samples of the first `n` whose time lies in the window, both ends in it.
pub open spec fn window<V>(s: Seq<(u64, V)>, from: u64, to: u64, n: int) -> Seq<(u64, V)>
    decreases n,
{
    if n <= 0 {
        Seq::empty()
    } else {
        let before = window(s, from, to, n - 1);
        if from <= s[n - 1].0 && s[n - 1].0 <= to {
            before.push(s[n - 1])
        } else {
            before
        }
    }
}

/// The buffer without the samples at its head that lie more than `span` behind
/// its last one.
pub open spec fn trimmed<V>(s: Seq<(u64, V)>, span: u64) -> Seq<(u64, V)>
    decreases s.len(),
{
    if s.len() > 0 && s[0].0 + span < s.last().0 {
        trimmed(s.drop_first(), span)
    } else {
        s
    }
}

/// Neighbours stand at least one stride apart.
pub open spec fn spaced<V>(s: Seq<(u64, V)>, stride: u64) -> bool {
    forall|i: int, j: int| 0 <= i < j < s.len() ==> (#[trigger] s[i]).0 + stride <= (#[trigger] s[j]).0
}

proof fn lemma_position<V>(s: Seq<(u64, V)>, t: u64)
    requires
        ascending(s),
    ensures
        0 <= position(s, t) <= s.len(),
        forall|i: int| 0 <= i < position(s, t) ==> (#[trigger] s[i]).0 <= t,
        forall|i: int| position(s, t) <= i < s.len() ==> t < (#[trigger] s[i]).0,
    decreases s.len(),
{
    if s.len() > 0 && t < s.last().0 {
        assert(ascending(s.drop_last()));
        lemma_position(s.drop_last(), t);
        assert forall|i: int| 0 <= i < position(s, t) implies (#[trigger] s[i]).0 <= t by {
            assert(s.drop_last()[i] == s[i]);
        }
        assert forall|i: int| position(s, t) <= i < s.len() implies t < (#[trigger] s[i]).0 by {
            if i < s.len() - 1 {
                assert(s.drop_last()[i] == s[i]);
            }
        }
    }
}

proof fn lemma_placed<V>(s: Seq<(u64, V)>, p: (u64, V), stride: u64)
    requires
        ascending(s),
    ensures
        ascending(placed(s, p, stride)),
{
    lemma_position(s, p.0);
}

/// Placing samples keeps a buffer ascending, whichever end they land at.
pub proof fn law_merge_keeps_order<V>(s: Seq<(u64, V)>, points: Seq<(u64, V)>, stride: u64)
    requires
        ascending(s),
    ensures
        ascending(merged(s, points, stride)),
    decreases points.len(),
{
    if points.len() > 0 {
        law_merge_keeps_order(s, points.drop_last(), stride);
        lemma_placed(merged(s, points.drop_last(), stride), points.last(), stride);
    }
}

/// Placing samples never puts two of them closer together than one stride: not
/// even overlapping requests pile up near-duplicates.
pub proof fn law_merge_keeps_spacing<V>(s: Seq<(u64, V)>, points: Seq<(u64, V)>, stride: u64)
    requires
        ascending(s),
        spaced(s, stride),
    ensures
        spaced(merged(s, points, stride), stride),
    decreases points.len(),
{
    if points.len() > 0 {
        let before = merged(s, points.drop_last(), stride);
        law_merge_keeps_order(s, points.drop_last(), stride);
        law_merge_keeps_spacing(s, points.drop_last(), stride);
        lemma_position(before, points.last().0);
    }
}

/// Placing samples drops none that the buffer holds.
pub proof fn law_merge_keeps_samples<V>(
    s: Seq<(u64, V)>,
    points: Seq<(u64, V)>,
    stride: u64,
    p: (u64, V),
)
    requires
        ascending(s),
        s.contains(p),
    ensures
        merged(s, points, stride).contains(p),
    decreases points.len(),
{
    if points.len() > 0 {
        let before = merged(s, points.drop_last(), stride);
        law_merge_keeps_order(s, points.drop_last(), stride);
        law_merge_keeps_samples(s, points.drop_last(), stride, p);
        lemma_position(before, points.last().0);
        let k = choose|k: int| 0 <= k < before.len() && before[k] == p;
        let after = merged(s, points, stride);
        if fits(before, points.last().0, stride) {
            let at = position(before, points.last().0);
            assert(after[if k < at { k } else { k + 1 }] == p);
        }
    }
}

/// A sample that was offered once leaves no room for another at its time.
proof fn lemma_no_room<V>(s: Seq<(u64, V)>, points: Seq<(u64, V)>, stride: u64, k: int)
    requires
        ascending(s),
        stride > 0,
        0 <= k < points.len(),
    ensures
        !fits(merged(s, points, stride), points[k].0, stride),
    decreases points.len(),
{
    let head = points.drop_last();
    let before = merged(s, head, stride);
    law_merge_keeps_order(s, head, stride);
    lemma_position(before, points.last().0);
    let after = merged(s, points, stride);
    let at = position(before, points.last().0);
    if k < points.len() - 1 {
        assert(head[k] == points[k]);
        lemma_no_room(s, head, stride, k);
        let i = choose|i: int|
            0 <= i < before.len() && !((#[trigger] before[i]).0 + stride <= points[k].0
                || points[k].0 + stride <= before[i].0);
        if fits(before, points.last().0, stride) {
            assert(after[if i < at { i } else { i + 1 }] == before[i]);
        }
    } else if fits(before, points.last().0, stride) {
        assert(after[at] == points[k]);
    }
}

/// Some sample stands at `t`.
pub open spec fn has_time<V>(s: Seq<(u64, V)>, t: u64) -> bool {
    exists|i: int| 0 <= i < s.len() && (#[trigger] s[i]).0 == t
}

/// Playing the same ground again adds nothing.
pub proof fn law_merge_again_adds_nothing<V>(
    s: Seq<(u64, V)>,
    points: Seq<(u64, V)>,
    again: Seq<(u64, V)>,
    stride: u64,
)
    requires
        ascending(s),
        stride > 0,
        forall|k: int| 0 <= k < again.len() ==> has_time(points, (#[trigger] again[k]).0),
    ensures
        merged(merged(s, points, stride), again, stride) == merged(s, points, stride),
        taken(merged(s, points, stride), again, stride).len() == 0,
    decreases again.len(),
{
    if again.len() > 0 {
        let rest = again.drop_last();
        assert forall|k: int| 0 <= k < rest.len() implies has_time(
            points,
            (#[trigger] rest[k]).0,
        ) by {
            assert(rest[k] == again[k]);
        }
        law_merge_again_adds_nothing(s, points, rest, stride);
        let last = again[again.len() - 1];
        assert(has_time(points, last.0));
        let i = choose|i: int| 0 <= i < points.len() && (#[trigger] points[i]).0 == last.0;
        lemma_no_room(s, points, stride, i);
    }
}

/// Trimming keeps an ascending buffer ascending, and keeps its last sample.
pub proof fn law_trim_keeps_order<V>(s: Seq<(u64, V)>, span: u64)
    requires
        ascending(s),
    ensures
        ascending(trimmed(s, span)),
        s.len() > 0 ==> trimmed(s, span).len() > 0 && trimmed(s, span).last() == s.last()
            && s.last().0 <= trimmed(s, span)[0].0 + span,
    decreases s.len(),
{
    if s.len() > 0 && s[0].0 + span < s.last().0 {
        assert(ascending(s.drop_first()));
        law_trim_keeps_order(s.drop_first(), span);
    }
}

/// The samples of one signal, ascending in time.
pub struct SampleCache<V> {
    samples: Vec<(u64, V)>,
}

impl<V> View for SampleCache<V> {
    type V = Seq<(u64, V)>;

    closed spec fn view(&self) -> Seq<(u64, V)> {
        self.samples@
    }
}

impl<V: Copy> SampleCache<V> {
    pub open spec fn wf(&self) -> bool {
        ascending(self@)
    }

    /// An empty cache.
    pub fn new() -> (c: SampleCache<V>)
        ensures
            c@ == Seq::<(u64, V)>::empty(),
            c.wf(),
    {
        SampleCache { samples: Vec::new() }
    }

    pub fn len(&self) -> (n: usize)
        ensures
            n == self@.len(),
    {
        self.samples.len()
    }

    pub fn is_empty(&self) -> (r: bool)
        ensures
            r == (self@.len() == 0),
    {
        self.samples.len() == 0
    }

    /// The oldest sample.
    pub fn first(&self) -> (r: Option<(u64, V)>)
        ensures
            r == (if self@.len() > 0 {
                Some(self@[0])
            } else {
                None
            }),
    {
        if self.samples.len() > 0 {
            Some(self.samples[0])
        } else {
            None
        }
    }

    /// All samples, oldest first.
    pub fn as_slice(&self) -> (r: &[(u64, V)])
        ensures
            r@ == self@,
    {
        self.samples.as_slice()
    }

    /// A copy of the samples.
    pub fn copied(&self) -> (c: SampleCache<V>)
        ensures
            c@ == self@,
    {
        let mut samples: Vec<(u64, V)> = Vec::new();
        for i in 0..self.samples.len()
            invariant
                samples@ == self.samples@.subrange(0, i as int),
        {
            samples.push(self.samples[i]);
        }
        assert(samples@ =~= self.samples@);
        SampleCache { samples }
    }

    fn index_after(&self, t: u64) -> (k: usize)
        requires
            self.wf(),
        ensures
            k == position(self@, t),
            k <= self@.len(),
            forall|i: int| 0 <= i < k ==> (#[trigger] self@[i]).0 <= t,
            forall|i: int| k <= i < self@.len() ==> t < (#[trigger] self@[i]).0,
    {
        let mut k: usize = self.samples.len();
        assert(self@.subrange(0, k as int) =~= self@);
        while k > 0 && self.samples[k - 1].0 > t
            invariant
                k <= self@.len(),
                self@ == self.samples@,
                position(self@, t) == position(self@.subrange(0, k as int), t),
            decreases k,
        {
            let ghost part = self@.subrange(0, k as int);
            assert(part.drop_last() =~= self@.subrange(0, k - 1));
            k = k - 1;
        }
        proof {
            lemma_position(self@, t);
        }
        k
    }

    /// Places one sample unless it would stand closer than one stride to another.
    /// Returns whether it was taken.
    pub fn place(&mut self, t: u64, v: V, stride: u64) -> (r: bool)
        requires
            old(self).wf(),
        ensures
            final(self).wf(),
            final(self)@ == placed(old(self)@, (t, v), stride),
            r == fits(old(self)@, t, stride),
    {
        proof {
            lemma_placed(self@, (t, v), stride);
        }
        let k: usize = self.index_after(t);
        if k > 0 && t - self.samples[k - 1].0 < stride {
            assert(!(self@[k - 1].0 + stride <= t || t + stride <= self@[k - 1].0));
            return false;
        }
        if k < self.samples.len() && self.samples[k].0 - t < stride {
            assert(!(self@[k as int].0 + stride <= t || t + stride <= self@[k as int].0));
            return false;
        }
        assert(fits(self@, t, stride)) by {
            assert forall|i: int| 0 <= i < self@.len() implies (#[trigger] self@[i]).0 + stride <= t
                || t + stride <= self@[i].0 by {
                if i < k {
                    assert(self@[i].0 <= self@[k - 1].0);
                } else {
                    assert(self@[k as int].0 <= self@[i].0);
                }
            }
        }
        self.samples.insert(k, (t, v));
        true
    }

    /// Places the samples one after the other and returns the values of those
    /// that were taken.
    pub fn merge(&mut self, points: &[(u64, V)], stride: u64) -> (r: Vec<V>)
        requires
            old(self).wf(),
        ensures
            final(self).wf(),
            final(self)@ == merged(old(self)@, points@, stride),
            r@ == taken(old(self)@, points@, stride),
    {
        let mut r: Vec<V> = Vec::new();
        let total: usize = points.len();
        for i in 0..total
            invariant
                total == points@.len(),
                self.wf(),
                self@ == merged(old(self)@, points@.subrange(0, i as int), stride),
                r@ == taken(old(self)@, points@.subrange(0, i as int), stride),
        {
            let ghost part = points@.subrange(0, i + 1);
            assert(part.drop_last() =~= points@.subrange(0, i as int));
            let p: (u64, V) = points[i];
            if self.place(p.0, p.1, stride) {
                r.push(p.1);
            }
        }
        assert(points@.subrange(0, total as int) =~= points@);
        r
    }

    /// The samples whose time lies between the two, both ends in it.
    pub fn range(&self, from: u64, to: u64) -> (r: Vec<(u64, V)>)
        ensures
            r@ == window(self@, from, to, self@.len() as int),
    {
        let mut r: Vec<(u64, V)> = Vec::new();
        for i in 0..self.samples.len()
            invariant
                self@ == self.samples@,
                r@ == window(self@, from, to, i as int),
        {
            if from <= self.samples[i].0 && self.samples[i].0 <= to {
                r.push(self.samples[i]);
            }
        }
        r
    }

    /// The value of the last sample at or before `t`.
    pub fn at(&self, t: u64) -> (r: Option<V>)
        requires
            self.wf(),
        ensures
            r == (if position(self@, t) > 0 {
                Some(self@[position(self@, t) - 1].1)
            } else {
                None
            }),
    {
        let k: usize = self.index_after(t);
        if k > 0 {
            Some(self.samples[k - 1].1)
        } else {
            None
        }
    }

    /// Drops what lies more than `span` behind the last sample.
    pub fn trim_oldest(&mut self, span: u64)
        requires
            old(self).wf(),
        ensures
            final(self).wf(),
            final(self)@ == trimmed(old(self)@, span),
    {
        if self.samples.len() == 0 {
            return;
        }
        proof {
            law_trim_keeps_order(self@, span);
        }
        let newest: u64 = self.samples[self.samples.len() - 1].0;
        while self.samples.len() > 0 && self.samples[0].0 <= newest && newest - self.samples[0].0
            > span
            invariant
                self.wf(),
                self.samples@.len() > 0 ==> self.samples@.last().0 == newest,
                self@ == self.samples@,
                trimmed(self@, span) == trimmed(old(self)@, span),
            decreases self.samples@.len(),
        {
            let ghost before = self.samples@;
            self.samples.remove(0);
            assert(self.samples@ =~= before.drop_first());
        }
    }

    /// Forgets every sample.
    pub fn clear(&mut self)
        ensures
            final(self)@ == Seq::<(u64, V)>::empty(),
            final(self).wf(),
    {
        self.samples = Vec::new();
    }
}

/// A signal on one bus: bus, message id, extended, signal name.
pub struct SigKey {
    pub ch: u8,
    pub id: u32,
    pub ext: bool,
    pub signal: String,
}

impl SigKey {
    /// The two keys name the same signal.
    pub open spec fn same(self, other: SigKey) -> bool {
        &&& self.ch == other.ch
        &&& self.id == other.id
        &&& self.ext == other.ext
        &&& self.signal@ == other.signal@
    }

    pub fn same_as(&self, other: &SigKey) -> (r: bool)
        ensures
            r == self.same(*other),
    {
        self.ch == other.ch && self.id == other.id && self.ext == other.ext && self.signal
            == other.signal
    }

    pub fn copied(&self) -> (r: SigKey)
        ensures
            r == *self,
    {
        SigKey { ch: self.ch, id: self.id, ext: self.ext, signal: self.signal.clone() }
    }
}

/// A subscribed signal: what it last read and the samples of its run.
pub struct Subscription<V> {
    pub key: SigKey,
    pub latest: V,
    pub last_raw: i64,
    pub unit: String,
    pub label: Option<String>,
    pub type_tag: String,
    /// Samples taken this run. Cumulative: trimming the history does not lower it.
    pub n: u64,
    /// The values of the samples taken since they were last read out, for the figures
    /// that run over all of them.
    pub pending: Vec<V>,
    pub last_update_us: u64,
    pub last_sample_us: u64,
    pub history: SampleCache<V>,
    /// Palette row assigned at subscribe time.
    pub color: usize,
}

impl<V: Copy> Subscription<V> {
    pub open spec fn wf(self) -> bool {
        self.history.wf()
    }

    /// A subscription that has read nothing yet.
    pub fn new(key: SigKey, zero: V, type_tag: String, color: usize) -> (s: Subscription<V>)
        ensures
            s.wf(),
            s.key == key,
            s.latest == zero,
            s.last_raw == 0,
            s.unit@ == Seq::<char>::empty(),
            s.label is None,
            s.type_tag == type_tag,
            s.n == 0,
            s.pending@ == Seq::<V>::empty(),
            s.last_update_us == 0,
            s.last_sample_us == 0,
            s.history@ == Seq::<(u64, V)>::empty(),
            s.color == color,
    {
        Subscription {
            key,
            latest: zero,
            last_raw: 0,
            unit: String::new(),
            label: None,
            type_tag,
            n: 0,
            pending: Vec::new(),
            last_update_us: 0,
            last_sample_us: 0,
            history: SampleCache::new(),
            color,
        }
    }

    /// A sample at `t` is due: the stride since the last one has passed, or there
    /// is none yet.
    pub open spec fn sample_due(self, t: u64, stride: u64) -> bool {
        t >= self.last_sample_us + stride || self.history@.len() == 0
    }

    pub fn is_sample_due(&self, t: u64, stride: u64) -> (r: bool)
        ensures
            r == self.sample_due(t, stride),
    {
        (t >= self.last_sample_us && t - self.last_sample_us >= stride) || self.history.is_empty()
    }

    /// Takes one sample: the cache decides by its spacing whether it stays, and
    /// the history never reaches further back than its span.
    pub fn push_sample(&mut self, t: u64, v: V, stride: u64)
        requires
            old(self).wf(),
        ensures
            final(self).wf(),
            final(self).history@ == trimmed(
                placed(old(self).history@, (t, v), stride),
                HISTORY_SPAN_US,
            ),
            final(self).n == (if fits(old(self).history@, t, stride) && old(self).n < u64::MAX {
                old(self).n + 1
            } else {
                old(self).n as int
            }),
            final(self).pending@ == (if fits(old(self).history@, t, stride) {
                old(self).pending@.push(v)
            } else {
                old(self).pending@
            }),
            final(self).last_sample_us == t,
            *final(self) == (Subscription {
                history: final(self).history,
                n: final(self).n,
                pending: final(self).pending,
                last_sample_us: final(self).last_sample_us,
                ..*old(self)
            }),
    {
        let new: bool = self.history.place(t, v, stride);
        self.history.trim_oldest(HISTORY_SPAN_US);
        if new {
            self.pending.push(v);
        }
        if new && self.n < u64::MAX {
            self.n = self.n + 1;
        }
        self.last_sample_us = t;
    }

    /// Starts a run: the samples and the counters go, the subscription stays.
    pub fn reset_measurement(&mut self)
        ensures
            final(self).wf(),
            final(self).history@ == Seq::<(u64, V)>::empty(),
            final(self).n == 0,
            final(self).pending@ == Seq::<V>::empty(),
            final(self).last_update_us == 0,
            final(self).last_sample_us == 0,
            *final(self) == (Subscription {
                history: final(self).history,
                n: 0,
                pending: final(self).pending,
                last_update_us: 0,
                last_sample_us: 0,
                ..*old(self)
            }),
    {
        self.history.clear();
        self.n = 0;
        self.pending = Vec::new();
        self.last_update_us = 0;
        self.last_sample_us = 0;
    }

    /// Lets the sampler resume at a scrubbed playhead. The samples stay in place.
    pub fn resume_sampling_at(&mut self, t: u64)
        requires
            old(self).wf(),
        ensures
            final(self).wf(),
            *final(self) == (Subscription { last_sample_us: t, ..*old(self) }),
    {
        self.last_sample_us = t;
    }
}

/// The display type that a database declares for a signal, or nothing.
pub open spec fn declared_type(table: SymbolTable, key: SigKey) -> Seq<char> {
    match table.signal_spec(key.id, key.signal@) {
        Some(s) => s.type_tag@,
        None => Seq::empty(),
    }
}

/// The display type of a signal, for the time before its first frame.
pub fn type_of(table: &SymbolTable, key: &SigKey) -> (r: String)
    ensures
        r@ == declared_type(*table, *key),
{
    match table.signal(key.id, key.signal.as_str()) {
        Some(s) => s.type_tag.clone(),
        None => String::new(),
    }
}

} // verus!
