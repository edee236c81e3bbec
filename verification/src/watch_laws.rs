//! What the watched signals show: which reading a frame leaves behind, which samples are
//! kept, and what a window of them holds.

use vstd::prelude::*;
use crate::can::frame::CanFrame;
use crate::channel;
use crate::dbc::DecodedSignal;
use crate::observe;
use crate::observers;
use crate::observers::{KeyState, Reading, SubState, Watch};

verus! {

/// What a subscription shows after a frame that carries its signal is what the frame reads:
/// value, scaling, raw number, unit, tag and label, at the frame's time. Its key and color
/// stay.
pub proof fn law_a_subscription_shows_the_last_reading(
    s: SubState,
    d: DecodedSignal,
    t: u64,
    stride: u64,
)
    ensures
        ({
            let r = observers::read_by(s, d, t, stride);
            &&& r.latest == Reading::Decoded { value: d.value, factor: d.factor, offset: d.offset }
            &&& r.last_raw == d.raw
            &&& r.unit == d.unit@
            &&& r.type_tag == d.type_tag@
            &&& r.label is Some == d.label is Some
            &&& d.label matches Some(l) ==> r.label == Some(l@)
            &&& r.last_update_us == t
            &&& r.key == s.key
            &&& r.color == s.color
        }),
{
}

/// A signal that has no sample yet is sampled at once, and after that once the stride has
/// passed since the last sample. In between nothing is sampled.
pub proof fn law_samples_come_a_stride_apart(s: SubState, t: u64, v: Reading, stride: u64)
    ensures
        s.history.len() == 0 ==> s.offered(t, v, stride).history == seq![(t, v)] && s.offered(
            t,
            v,
            stride,
        ).last_sample_us == t && s.offered(t, v, stride).pending == s.pending.push(v),
        s.history.len() > 0 && t < s.last_sample_us + stride ==> s.offered(t, v, stride) == s,
        s.history.len() > 0 && s.last_sample_us + stride <= t && s.history.last().0 + stride <= t
            && observe::ascending(s.history) ==> {
            let r = s.offered(t, v, stride);
            &&& r.history.len() > 0
            &&& r.history.last() == (t, v)
            &&& r.pending == s.pending.push(v)
            &&& r.last_sample_us == t
            &&& s.n < u64::MAX ==> r.n == s.n + 1
            &&& r.history[0].0 + 3_600_000_000 >= t
        },
{
    if s.history.len() == 0 {
        assert(observe::fits(s.history, t, stride));
        assert(s.history.insert(0, (t, v)) =~= seq![(t, v)]);
    } else if s.last_sample_us + stride <= t && s.history.last().0 + stride <= t
        && observe::ascending(s.history) {
        let h = s.history;
        assert forall|i: int| 0 <= i < h.len() implies (#[trigger] h[i]).0 + stride <= t || t
            + stride <= h[i].0 by {
            assert(h[i].0 <= h[h.len() - 1].0);
        }
        assert(observe::position(h, t) == h.len());
        let p = observe::placed(h, (t, v), stride);
        assert(p =~= h.push((t, v)));
        assert(observe::ascending(p)) by {
            assert forall|i: int, j: int| 0 <= i <= j < p.len() implies p[i].0 <= p[j].0 by {
                if j == h.len() && i < h.len() {
                    assert(h[i].0 <= h[h.len() - 1].0);
                }
            }
        }
        observe::law_trim_keeps_order(p, observe::HISTORY_SPAN_US);
    }
}

proof fn lemma_sub_index(subs: Seq<SubState>, key: KeyState, from: int)
    requires
        0 <= from,
    ensures
        ({
            let i = observers::sub_index(subs, key, from);
            &&& i == -1 || from <= i < subs.len() && subs[i].key == key && forall|j: int|
                from <= j < i ==> (#[trigger] subs[j]).key != key
            &&& i == -1 ==> forall|j: int| from <= j < subs.len() ==> (#[trigger] subs[j]).key != key
        }),
    decreases subs.len() - from,
{
    if from < subs.len() && subs[from].key != key {
        lemma_sub_index(subs, key, from + 1);
    }
}

/// A frame touches only the subscriptions to signals that it carries, on its own bus and
/// with its own id. Their number and keys stay.
pub proof fn law_frames_touch_their_own_signals(
    subs: Seq<SubState>,
    f: CanFrame,
    decoded: Seq<DecodedSignal>,
    stride: u64,
    n: int,
    k: int,
)
    requires
        0 <= n <= decoded.len(),
        0 <= k < subs.len(),
    ensures
        ({
            let r = observers::watched(subs, f, decoded, stride, n);
            &&& r.len() == subs.len()
            &&& r[k].key == subs[k].key
            &&& subs[k].key.ch != f.channel || subs[k].key.id != f.id || subs[k].key.ext
                != f.extended ==> r[k] == subs[k]
            &&& (forall|i: int| 0 <= i < n ==> (#[trigger] decoded[i]).name@ != subs[k].key.signal)
                ==> r[k] == subs[k]
        }),
    decreases n,
{
    if n > 0 {
        law_frames_touch_their_own_signals(subs, f, decoded, stride, n - 1, k);
        let before = observers::watched(subs, f, decoded, stride, n - 1);
        let key = observers::decoded_key(f, decoded[n - 1]);
        lemma_sub_index(before, key, 0);
        if forall|i: int| 0 <= i < n ==> (#[trigger] decoded[i]).name@ != subs[k].key.signal {
            assert(decoded[n - 1].name@ != subs[k].key.signal);
        }
    }
}

/// A frame that carries a watched signal once leaves its reading with the first
/// subscription to it.
pub proof fn law_watched_signals_follow_the_frame(
    subs: Seq<SubState>,
    f: CanFrame,
    decoded: Seq<DecodedSignal>,
    stride: u64,
    n: int,
    k: int,
    j: int,
)
    requires
        0 <= j < n <= decoded.len(),
        0 <= k < subs.len(),
        subs[k].key.ch == f.channel,
        subs[k].key.id == f.id,
        subs[k].key.ext == f.extended,
        subs[k].key.signal == decoded[j].name@,
        forall|i: int| 0 <= i < n && i != j ==> (#[trigger] decoded[i]).name@ != decoded[j].name@,
        forall|i: int| 0 <= i < k ==> (#[trigger] subs[i]).key != subs[k].key,
    ensures
        ({
            let r = observers::watched(subs, f, decoded, stride, n)[k];
            let d = decoded[j];
            &&& r.latest == Reading::Decoded { value: d.value, factor: d.factor, offset: d.offset }
            &&& r.last_raw == d.raw
            &&& r.last_update_us == f.t_us
            &&& r.unit == d.unit@
        }),
    decreases n,
{
    let before = observers::watched(subs, f, decoded, stride, n - 1);
    let key = observers::decoded_key(f, decoded[n - 1]);
    lemma_sub_index(before, key, 0);
    assert forall|i: int| 0 <= i < subs.len() implies before.len() == subs.len() && (
    #[trigger] before[i]).key == subs[i].key by {
        law_frames_touch_their_own_signals(subs, f, decoded, stride, n - 1, i);
    }
    assert(before[k].key == subs[k].key);
    if j < n - 1 {
        assert(decoded[n - 1].name@ != decoded[j].name@);
        law_watched_signals_follow_the_frame(subs, f, decoded, stride, n - 1, k, j);
    } else {
        let i = observers::sub_index(before, key, 0);
        assert(subs[k].key == key);
        assert(i != -1);
        if i < k {
            assert(before[i].key == subs[i].key);
            assert(subs[i].key != subs[k].key);
        }
        assert(i == k);
        law_a_subscription_shows_the_last_reading(before[k], decoded[j], f.t_us, stride);
    }
}

/// A subscription that is new stands last, has read nothing and takes the next color; one
/// that is there changes nothing. No other subscription changes either way.
pub proof fn law_subscribing_adds_one_at_the_end(w: Watch, key: KeyState, tag: Seq<char>, k: int)
    ensures
        ({
            let r = w.subscribed(key, tag);
            &&& 0 <= k < w.subs.len() ==> r.subs[k] == w.subs[k]
            &&& 0 <= k < w.subs.len() && w.subs[k].key == key ==> r == w
            &&& (forall|i: int| 0 <= i < w.subs.len() ==> (#[trigger] w.subs[i]).key != key) ==> {
                &&& r.subs.len() == w.subs.len() + 1
                &&& r.subs.last().key == key
                &&& r.subs.last().history.len() == 0
                &&& r.subs.last().n == 0
                &&& r.subs.last().color == w.color_counter
                &&& w.color_counter < usize::MAX ==> r.color_counter == w.color_counter + 1
            }
            &&& r.streams == w.streams
        }),
{
    lemma_sub_index(w.subs, key, 0);
}

/// Unsubscribing takes out just the subscriptions to that signal and keeps the order of the
/// others.
pub proof fn law_unsubscribing_takes_out_that_signal(
    subs: Seq<SubState>,
    key: KeyState,
    n: int,
    s: SubState,
)
    requires
        0 <= n <= subs.len(),
    ensures
        observers::without_sub(subs, key, n).contains(s) == (s.key != key && subs.subrange(
            0,
            n,
        ).contains(s)),
    decreases n,
{
    if n > 0 {
        law_unsubscribing_takes_out_that_signal(subs, key, n - 1, s);
        let now = observers::without_sub(subs, key, n);
        let before = observers::without_sub(subs, key, n - 1);
        let short = subs.subrange(0, n - 1);
        let long = subs.subrange(0, n);
        assert(long =~= short.push(subs[n - 1]));
        if before.contains(s) {
            let i = choose|i: int| 0 <= i < before.len() && before[i] == s;
            assert(now[i] == s);
        }
        if short.contains(s) {
            let i = choose|i: int| 0 <= i < short.len() && short[i] == s;
            assert(long[i] == s);
        }
        if subs[n - 1] == s {
            assert(long[n - 1] == s);
            if s.key != key {
                assert(now[now.len() - 1] == s);
            }
        }
        if now.contains(s) {
            let i = choose|i: int| 0 <= i < now.len() && now[i] == s;
            if i < before.len() {
                assert(before[i] == s);
            }
        }
        if long.contains(s) {
            let i = choose|i: int| 0 <= i < long.len() && long[i] == s;
            if i < n - 1 {
                assert(short[i] == s);
            }
        }
    }
}

/// A derived value is what its stream shows from then on, at its time, unless no further
/// stream may be opened; every other subscription stays as it is.
pub proof fn law_an_emitted_value_shows(
    w: Watch,
    key: KeyState,
    owner: Seq<char>,
    tag: Seq<char>,
    v: u64,
    whole: i64,
    t_us: u64,
    stride: u64,
    k: int,
) -> (at: int)
    requires
        w.streams.len() < observers::MAX_EMITTED_STREAMS || observers::has_stream(w.streams, key),
    ensures
        ({
            let r = w.emitted(key, owner, tag, v, whole, t_us, stride);
            &&& 0 <= at < r.subs.len()
            &&& r.subs[at].key == key
            &&& r.subs[at].latest == Reading::Plain(v)
            &&& r.subs[at].last_raw == whole
            &&& r.subs[at].last_update_us == t_us
            &&& observers::has_stream(r.streams, key)
            &&& 0 <= k < w.subs.len() && k != at ==> r.subs[k] == w.subs[k]
        }),
{
    let opened = if observers::has_stream(w.streams, key) {
        w
    } else {
        Watch { streams: w.streams.push((key, owner)), ..w }
    };
    let sub = opened.subscribed(key, tag);
    law_subscribing_adds_one_at_the_end(opened, key, tag, k);
    lemma_sub_index(opened.subs, key, 0);
    lemma_sub_index(sub.subs, key, 0);
    if observers::sub_index(opened.subs, key, 0) < 0 {
        assert(sub.subs[sub.subs.len() - 1].key == key);
    }
    if !observers::has_stream(w.streams, key) {
        assert(opened.streams[w.streams.len() as int].0 == key);
    }
    observers::sub_index(sub.subs, key, 0)
}

/// A reset keeps what is watched and forgets what was read.
pub proof fn law_a_reset_keeps_the_subscriptions(w: Watch, k: int)
    requires
        0 <= k < w.subs.len(),
    ensures
        w.reset().subs.len() == w.subs.len(),
        w.reset().subs[k].key == w.subs[k].key,
        w.reset().subs[k].color == w.subs[k].color,
        w.reset().subs[k].history.len() == 0,
        w.reset().subs[k].n == 0,
        w.reset().subs[k].pending.len() == 0,
        w.reset().subs[k].last_sample_us == 0,
        w.reset().streams == w.streams,
        w.drained().subs[k].pending.len() == 0,
        w.drained().subs[k].n == w.subs[k].n,
        w.drained().subs[k].history == w.subs[k].history,
{
}

/// After a seek every sampler takes its next sample a stride behind where the playhead
/// landed; nothing that was sampled is lost.
pub proof fn law_a_seek_restarts_the_samplers(w: Watch, t: u64, k: int)
    requires
        0 <= k < w.subs.len(),
    ensures
        w.rewound(t).subs.len() == w.subs.len(),
        w.rewound(t).subs[k].last_sample_us == t,
        w.rewound(t).subs[k].history == w.subs[k].history,
        w.rewound(t).subs[k].latest == w.subs[k].latest,
        w.rewound(t).subs[k].key == w.subs[k].key,
        w.rewound(t).streams == w.streams,
{
}

/// A window holds the samples whose times lie in it, both ends included, and no others.
pub proof fn law_a_window_holds_its_samples<V>(
    s: Seq<(u64, V)>,
    from: u64,
    to: u64,
    n: int,
    p: (u64, V),
)
    requires
        0 <= n <= s.len(),
    ensures
        observe::window(s, from, to, n).contains(p) == (from <= p.0 && p.0 <= to && s.subrange(
            0,
            n,
        ).contains(p)),
    decreases n,
{
    if n > 0 {
        law_a_window_holds_its_samples(s, from, to, n - 1, p);
        let now = observe::window(s, from, to, n);
        let before = observe::window(s, from, to, n - 1);
        let short = s.subrange(0, n - 1);
        let long = s.subrange(0, n);
        assert(long =~= short.push(s[n - 1]));
        if before.contains(p) {
            let i = choose|i: int| 0 <= i < before.len() && before[i] == p;
            assert(now[i] == p);
        }
        if short.contains(p) {
            let i = choose|i: int| 0 <= i < short.len() && short[i] == p;
            assert(long[i] == p);
        }
        if s[n - 1] == p {
            assert(long[n - 1] == p);
            if from <= p.0 && p.0 <= to {
                assert(now[now.len() - 1] == p);
            }
        }
        if now.contains(p) {
            let i = choose|i: int| 0 <= i < now.len() && now[i] == p;
            if i < before.len() {
                assert(before[i] == p);
            }
        }
        if long.contains(p) {
            let i = choose|i: int| 0 <= i < long.len() && long[i] == p;
            if i < n - 1 {
                assert(short[i] == p);
            }
        }
    }
}

/// A sample finds a place just where no other stands within a stride of it: then it is in
/// the buffer, which is one longer.
pub proof fn law_a_sample_with_room_is_placed<V>(s: Seq<(u64, V)>, p: (u64, V), stride: u64, i: int)
    requires
        observe::ascending(s),
    ensures
        (forall|j: int|
            0 <= j < s.len() ==> (#[trigger] s[j]).0 + stride <= p.0 || p.0 + stride <= s[j].0) ==> {
            &&& observe::placed(s, p, stride).len() == s.len() + 1
            &&& observe::placed(s, p, stride).contains(p)
        },
        0 <= i < s.len() && s[i].0 < p.0 + stride && p.0 < s[i].0 + stride ==> observe::placed(
            s,
            p,
            stride,
        ) == s,
{
    lemma_place_bounds(s, p.0);
    if observe::fits(s, p.0, stride) {
        let at = observe::position(s, p.0);
        assert(s.insert(at, p)[at] == p);
    }
}

proof fn lemma_place_bounds<V>(s: Seq<(u64, V)>, t: u64)
    ensures
        0 <= observe::position(s, t) <= s.len(),
    decreases s.len(),
{
    if s.len() > 0 && s.last().0 > t {
        lemma_place_bounds(s.drop_last(), t);
    }
}

/// The sampling period gives a window two hundred points, but is never below half a
/// millisecond nor above fifty; without a window it is fifty.
pub proof fn law_strides_fit_the_window(w: u64)
    ensures
        observe::stride_of(None) == 50_000,
        w <= 100_000 ==> observe::stride_of(Some(w)) == 500,
        w >= 10_000_000 ==> observe::stride_of(Some(w)) == 50_000,
        100_000 <= w <= 10_000_000 ==> {
            let s = observe::stride_of(Some(w));
            &&& s * 200 <= w
            &&& w < (s + 1) * 200
        },
{
}

proof fn lemma_remaining(subs: Seq<SubState>, gone: usize, n: int)
    requires
        0 <= n <= subs.len(),
    ensures
        forall|i: int|
            0 <= i < n && (#[trigger] subs[i]).key.ch < gone ==> observers::remaining_subs(
                subs,
                gone,
                n,
            ).contains(subs[i]),
        forall|a: int|
            0 <= a < observers::remaining_subs(subs, gone, n).len() ==> exists|i: int|
                {
                    let r = #[trigger] observers::remaining_subs(subs, gone, n)[a];
                    let s = #[trigger] subs[i];
                    &&& 0 <= i < n
                    &&& s.key.ch != gone
                    &&& r.key.ch == (if s.key.ch < gone {
                        s.key.ch as int
                    } else {
                        s.key.ch - 1
                    })
                    &&& r.key.id == s.key.id
                    &&& r.key.signal == s.key.signal
                    &&& r.history == s.history
                    &&& r.color == s.color
                },
    decreases n,
{
    if n > 0 {
        lemma_remaining(subs, gone, n - 1);
        let now = observers::remaining_subs(subs, gone, n);
        let before = observers::remaining_subs(subs, gone, n - 1);
        assert forall|i: int| 0 <= i < n && (#[trigger] subs[i]).key.ch < gone implies now.contains(
            subs[i],
        ) by {
            if i < n - 1 {
                let a = choose|a: int| 0 <= a < before.len() && before[a] == subs[i];
                assert(before.contains(subs[i]));
                assert(now[a] == subs[i]);
            } else {
                assert(now[now.len() - 1] == subs[i]);
            }
        }
        assert forall|a: int| 0 <= a < now.len() implies exists|i: int|
            {
                let r = #[trigger] now[a];
                let s = #[trigger] subs[i];
                &&& 0 <= i < n
                &&& s.key.ch != gone
                &&& r.key.ch == (if s.key.ch < gone {
                    s.key.ch as int
                } else {
                    s.key.ch - 1
                })
                &&& r.key.id == s.key.id
                &&& r.key.signal == s.key.signal
                &&& r.history == s.history
                &&& r.color == s.color
            } by {
            if a < before.len() {
                assert(now[a] == before[a]);
                let i = choose|i: int|
                    {
                        let r = before[a];
                        let s = #[trigger] subs[i];
                        &&& 0 <= i < n - 1
                        &&& s.key.ch != gone
                        &&& r.key.ch == (if s.key.ch < gone {
                            s.key.ch as int
                        } else {
                            s.key.ch - 1
                        })
                        &&& r.key.id == s.key.id
                        &&& r.key.signal == s.key.signal
                        &&& r.history == s.history
                        &&& r.color == s.color
                    };
                assert(subs[i].key.ch != gone);
            } else {
                assert(subs[n - 1].key.ch != gone);
            }
        }
    }
}

/// A bus that is removed takes its subscriptions with it. Those on lower buses stay as they
/// are, and those on higher ones move down by one with all that they hold.
pub proof fn law_a_removed_bus_takes_its_subscriptions(subs: Seq<SubState>, gone: usize)
    ensures
        ({
            let r = observers::remaining_subs(subs, gone, subs.len() as int);
            &&& forall|i: int|
                0 <= i < subs.len() && (#[trigger] subs[i]).key.ch < gone ==> r.contains(subs[i])
            &&& forall|a: int|
                0 <= a < r.len() ==> exists|i: int|
                    {
                        let s = #[trigger] subs[i];
                        &&& 0 <= i < subs.len()
                        &&& s.key.ch != gone
                        &&& (#[trigger] r[a]).key.ch == (if s.key.ch < gone {
                            s.key.ch as int
                        } else {
                            s.key.ch - 1
                        })
                        &&& r[a].key.id == s.key.id
                        &&& r[a].key.signal == s.key.signal
                        &&& r[a].history == s.history
                        &&& r[a].color == s.color
                    }
        }),
{
    lemma_remaining(subs, gone, subs.len() as int);
    let r = observers::remaining_subs(subs, gone, subs.len() as int);
    assert forall|a: int| 0 <= a < r.len() implies exists|i: int|
        {
            let s = #[trigger] subs[i];
            &&& 0 <= i < subs.len()
            &&& s.key.ch != gone
            &&& (#[trigger] r[a]).key.ch == (if s.key.ch < gone {
                s.key.ch as int
            } else {
                s.key.ch - 1
            })
            &&& r[a].key.id == s.key.id
            &&& r[a].key.signal == s.key.signal
            &&& r[a].history == s.history
            &&& r[a].color == s.color
        } by {
        assert(r[a] == observers::remaining_subs(subs, gone, subs.len() as int)[a]);
    }
}

/// The place of a bus after another is removed: lower ones keep theirs, higher ones move
/// down, and the one that went has none.
pub proof fn law_buses_close_ranks(c: u8, gone: usize, n: int)
    requires
        gone < n,
        c < n,
        n <= 256,
    ensures
        c < gone ==> channel::remapped(c, gone) == Some(c),
        c == gone ==> channel::remapped(c, gone) is None,
        c > gone ==> channel::remapped(c, gone) == Some((c - 1) as u8),
        channel::remapped(c, gone) matches Some(d) ==> d < n - 1,
{
}

} // verus!
