//! The trace: the last frames of a run, for CAN and for FlexRay.

use std::collections::VecDeque;
use std::sync::Arc;
use vstd::prelude::*;
use crate::can::frame::CanFrame;
use crate::channel;

verus! {

/// How many frames the trace keeps unless the user says otherwise.
pub const TRACE_LIMIT: usize = 50_000;

/// The newest `limit` items.
pub open spec fn newest<T>(s: Seq<T>, limit: int) -> Seq<T> {
    if s.len() > limit && limit >= 0 {
        s.subrange(s.len() - limit, s.len() as int)
    } else {
        s
    }
}

/// How many items the limit cuts off.
pub open spec fn overflow<T>(s: Seq<T>, limit: int) -> int {
    if s.len() > limit {
        s.len() - limit
    } else {
        0
    }
}

/// A counter that stops at the largest number.
pub open spec fn counted(n: u64, more: int) -> int {
    if n + more <= u64::MAX {
        n + more
    } else {
        u64::MAX as int
    }
}

/// One more on a counter.
pub fn count_one(n: u64) -> (r: u64)
    ensures
        r == counted(n, 1),
{
    if n < u64::MAX {
        n + 1
    } else {
        n
    }
}

/// Drops the oldest items above the limit.
fn shorten<T>(ring: &mut VecDeque<T>, dropped: &mut u64, limit: usize)
    ensures
        final(ring)@ == newest(old(ring)@, limit as int),
        *final(dropped) == counted(*old(dropped), overflow(old(ring)@, limit as int)),
{
    let ghost all = ring@;
    let ghost mut cut: int = 0;
    assert(ring@ =~= all.subrange(0, all.len() as int));
    while ring.len() > limit
        invariant
            0 <= cut <= all.len(),
            all == old(ring)@,
            ring@ == all.subrange(cut, all.len() as int),
            cut > 0 ==> ring@.len() >= limit,
            *dropped == counted(*old(dropped), cut),
        decreases ring@.len(),
    {
        ring.pop_front();
        *dropped = count_one(*dropped);
        proof {
            cut = cut + 1;
            assert(ring@ =~= all.subrange(cut, all.len() as int));
        }
    }
    assert(ring@ =~= newest(all, limit as int));
}

/// The frames of the buses that outlive the removal of a bus, under their new
/// indices.
pub open spec fn remapped_frames(frames: Seq<CanFrame>, gone: usize, n: int) -> Seq<CanFrame>
    decreases n,
{
    if n <= 0 {
        Seq::empty()
    } else {
        let before = remapped_frames(frames, gone, n - 1);
        match channel::remapped(frames[n - 1].channel, gone) {
            Some(c) => before.push(CanFrame { channel: c, ..frames[n - 1] }),
            None => before,
        }
    }
}

/// Frames received this run, as a ring.
pub struct TraceRing {
    pub frames: VecDeque<CanFrame>,
    /// Frames that the limit trimmed from the head since the run began.
    pub dropped: u64,
}

impl View for TraceRing {
    type V = Seq<CanFrame>;

    open spec fn view(&self) -> Seq<CanFrame> {
        self.frames@
    }
}

impl TraceRing {
    pub fn new() -> (r: TraceRing)
        ensures
            r@ == Seq::<CanFrame>::empty(),
            r.dropped == 0,
    {
        TraceRing { frames: VecDeque::new(), dropped: 0 }
    }

    pub fn len(&self) -> (n: usize)
        ensures
            n == self@.len(),
    {
        self.frames.len()
    }

    /// Adds a frame and trims to the limit.
    pub fn push(&mut self, f: CanFrame, limit: usize)
        ensures
            final(self)@ == newest(old(self)@.push(f), limit as int),
            final(self).dropped == counted(
                old(self).dropped,
                overflow(old(self)@.push(f), limit as int),
            ),
    {
        self.frames.push_back(f);
        shorten(&mut self.frames, &mut self.dropped, limit);
    }

    pub fn clear(&mut self)
        ensures
            final(self)@ == Seq::<CanFrame>::empty(),
            final(self).dropped == 0,
    {
        self.frames = VecDeque::new();
        self.dropped = 0;
    }

    /// A shared copy of the frames, oldest first.
    pub fn publish(&self) -> (r: Arc<Vec<CanFrame>>)
        ensures
            r@ == self@,
    {
        let mut v: Vec<CanFrame> = Vec::new();
        for i in 0..self.frames.len()
            invariant
                v@ == self.frames@.subrange(0, i as int),
        {
            v.push(self.frames[i]);
        }
        assert(v@ =~= self.frames@);
        Arc::new(v)
    }

    /// Drops the frames of a bus and renumbers those of the buses above it.
    pub fn drop_bus(&mut self, gone: usize)
        ensures
            final(self)@ == remapped_frames(old(self)@, gone, old(self)@.len() as int),
            final(self).dropped == old(self).dropped,
    {
        let mut kept: VecDeque<CanFrame> = VecDeque::new();
        for i in 0..self.frames.len()
            invariant
                kept@ == remapped_frames(self.frames@, gone, i as int),
        {
            let f: CanFrame = self.frames[i];
            match channel::remap(f.channel, gone) {
                Some(c) => {
                    let moved: CanFrame = CanFrame { channel: c, ..f };
                    kept.push_back(moved);
                },
                None => {},
            }
        }
        self.frames = kept;
    }
}

/// One FlexRay frame.
pub struct FrRow {
    pub t_us: u64,
    /// The channels it was seen on: 0 for A, 1 for B, 2 for both.
    pub ab: u8,
    pub slot: u16,
    pub cycle: u8,
    pub payload: Vec<u8>,
    pub header_crc: u16,
    pub flags: u32,
}

/// FlexRay frames received this run, in their own ring.
pub struct FrRing {
    pub rows: VecDeque<Arc<FrRow>>,
    pub dropped: u64,
}

impl View for FrRing {
    type V = Seq<Arc<FrRow>>;

    open spec fn view(&self) -> Seq<Arc<FrRow>> {
        self.rows@
    }
}

impl FrRing {
    pub fn new() -> (r: FrRing)
        ensures
            r@ == Seq::<Arc<FrRow>>::empty(),
            r.dropped == 0,
    {
        FrRing { rows: VecDeque::new(), dropped: 0 }
    }

    /// Adds a row and trims to the limit.
    pub fn push(&mut self, row: FrRow, limit: usize)
        ensures
            final(self)@ == newest(old(self)@.push(Arc::new(row)), limit as int),
            final(self).dropped == counted(
                old(self).dropped,
                overflow(old(self)@.push(Arc::new(row)), limit as int),
            ),
    {
        let shared: Arc<FrRow> = Arc::new(row);
        self.rows.push_back(shared);
        shorten(&mut self.rows, &mut self.dropped, limit);
    }

    pub fn clear(&mut self)
        ensures
            final(self)@ == Seq::<Arc<FrRow>>::empty(),
            final(self).dropped == 0,
    {
        self.rows = VecDeque::new();
        self.dropped = 0;
    }

    /// A shared copy of the rows, oldest first.
    pub fn publish(&self) -> (r: Arc<Vec<Arc<FrRow>>>)
        ensures
            r@ == self@,
    {
        let mut v: Vec<Arc<FrRow>> = Vec::new();
        for i in 0..self.rows.len()
            invariant
                v@ == self.rows@.subrange(0, i as int),
        {
            v.push(channel::share(&self.rows[i]));
        }
        assert(v@ =~= self.rows@);
        Arc::new(v)
    }
}

/// A ring never holds more than its limit after a frame lands, and what it holds
/// is the newest.
pub proof fn law_ring_keeps_the_newest<T>(s: Seq<T>, f: T, limit: int)
    requires
        limit > 0,
    ensures
        newest(s.push(f), limit).len() <= limit,
        newest(s.push(f), limit).last() == f,
        newest(s.push(f), limit).len() + overflow(s.push(f), limit) == s.len() + 1,
{
}

/// Removing a bus leaves no frame on an index that no longer exists.
pub proof fn law_no_frame_left_behind(frames: Seq<CanFrame>, gone: usize, buses: int, n: int)
    requires
        0 <= n <= frames.len(),
        gone < buses,
        forall|i: int| 0 <= i < frames.len() ==> (#[trigger] frames[i]).channel < buses,
    ensures
        forall|i: int|
            0 <= i < remapped_frames(frames, gone, n).len() ==> (#[trigger] remapped_frames(
                frames,
                gone,
                n,
            )[i]).channel < buses - 1,
    decreases n,
{
    if n > 0 {
        law_no_frame_left_behind(frames, gone, buses, n - 1);
        assert(frames[n - 1].channel < buses);
    }
}

} // verus!
