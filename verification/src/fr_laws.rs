//! FlexRay: which frame stands in a slot, and what a payload's signals read.

use vstd::prelude::*;
use crate::decode;
use crate::fr_db;
use crate::fr_db::{FrChannel, FrDb, FrDecoded, FrDialect, FrFrameDb, FrPdu, FrSignal, FrTriggering};
use crate::fr_params;
use crate::fr_text;
use crate::xml::XmlNode;

verus! {

/// A frame is in its slot only, from its base cycle on every so many cycles, and on the
/// channels that it names: one for both channels is on either.
pub proof fn law_a_frame_keeps_its_slot(f: FrFrameDb, slot: u16, cycle: u8, ab: u8, n: int)
    requires
        n >= 0,
    ensures
        FrDb::is_scheduled(f, slot, cycle, ab) ==> f.triggering.slot_id == slot,
        FrDb::is_scheduled(f, slot, cycle, 0) ==> f.triggering.channel != FrChannel::B,
        FrDb::is_scheduled(f, slot, cycle, 1) ==> f.triggering.channel != FrChannel::A,
        f.triggering.slot_id == slot && f.triggering.channel == FrChannel::Both
            && f.triggering.cycle_repetition > 0 && cycle == f.triggering.base_cycle + n
            * f.triggering.cycle_repetition ==> FrDb::is_scheduled(f, slot, cycle, ab),
        f.triggering.slot_id == slot && f.triggering.channel == FrChannel::A
            && f.triggering.cycle_repetition > 0 && cycle == f.triggering.base_cycle + n
            * f.triggering.cycle_repetition ==> FrDb::is_scheduled(f, slot, cycle, 0)
            && !FrDb::is_scheduled(f, slot, cycle, 1),
        f.triggering.slot_id == slot && f.triggering.cycle_repetition <= 1 && ab > 1
            ==> FrDb::is_scheduled(f, slot, cycle, ab),
{
    let t = f.triggering;
    let d = t.cycle_repetition as int;
    if d > 0 && cycle == t.base_cycle + n * d {
        vstd::arithmetic::div_mod::lemma_mod_multiples_basic(n, d);
        assert((cycle - t.base_cycle) % d == 0);
    }
    if d <= 1 {
        assert((cycle - t.base_cycle) % 1 == 0);
    }
}

/// A cycle between two turns of a frame is not its own.
pub proof fn law_a_frame_skips_the_cycles_between(t: FrTriggering, cycle: int, n: int, r: int)
    requires
        0 < r < t.cycle_repetition,
        cycle == t.base_cycle + n * t.cycle_repetition + r,
    ensures
        !t.fires(cycle),
{
    let d = t.cycle_repetition as int;
    assert(n * d == d * n) by (nonlinear_arith);
    vstd::arithmetic::div_mod::lemma_mod_multiples_vanish(n, r, d);
    vstd::arithmetic::div_mod::lemma_small_mod(r as nat, d as nat);
}

proof fn lemma_fitting(start: u32, signals: Seq<FrSignal>, payload: Seq<u8>, n: int)
    requires
        0 <= n <= signals.len(),
    ensures
        forall|a: int|
            0 <= a < fr_db::fitting(start, signals, payload, n).len() ==> 0 <= (
            #[trigger] fr_db::fitting(start, signals, payload, n)[a]) < n && fr_db::fits(
                start,
                signals[fr_db::fitting(start, signals, payload, n)[a]],
                payload,
            ),
        (forall|k: int| 0 <= k < n ==> fr_db::fits(start, #[trigger] signals[k], payload))
            ==> fr_db::fitting(start, signals, payload, n).len() == n && forall|a: int|
            0 <= a < n ==> #[trigger] fr_db::fitting(start, signals, payload, n)[a] == a,
        forall|k: int|
            0 <= k < n && fr_db::fits(start, #[trigger] signals[k], payload) ==> fr_db::fitting(
                start,
                signals,
                payload,
                n,
            ).contains(k),
    decreases n,
{
    if n > 0 {
        lemma_fitting(start, signals, payload, n - 1);
        let now = fr_db::fitting(start, signals, payload, n);
        let before = fr_db::fitting(start, signals, payload, n - 1);
        assert forall|k: int|
            0 <= k < n && fr_db::fits(start, #[trigger] signals[k], payload) implies now.contains(
            k,
        ) by {
            if k < n - 1 {
                let a = choose|a: int| 0 <= a < before.len() && before[a] == k;
                assert(before.contains(k));
                assert(now[a] == k);
            } else {
                assert(now[now.len() - 1] == k);
            }
        }
        if forall|k: int| 0 <= k < n ==> fr_db::fits(start, #[trigger] signals[k], payload) {
            assert(fr_db::fits(start, signals[n - 1], payload));
        }
    }
}

/// A frame that carries one known PDU, in a payload that is long enough, decodes to that
/// PDU's signals in order: each one the bits that stand at the PDU's bytes and the signal's
/// own place, with its name, scaling and unit.
pub proof fn law_a_whole_pdu_decodes(
    r: Seq<FrDecoded>,
    pdus: Seq<FrPdu>,
    placed: Seq<(String, u32)>,
    payload: Seq<u8>,
    p: int,
    k: int,
)
    requires
        placed.len() == 1,
        0 <= p < pdus.len(),
        pdus[p].name@ == placed[0].0@,
        forall|i: int| 0 <= i < p ==> (#[trigger] pdus[i]).name@ != placed[0].0@,
        forall|i: int|
            0 <= i < pdus[p].signals@.len() ==> 8 * placed[0].1 + (
            #[trigger] pdus[p].signals@[i]).start_bit + pdus[p].signals@[i].length_bits <= 8
                * payload.len(),
        fr_db::are_decoded(r, pdus, placed, payload, fr_db::held(pdus, placed, payload, 1)),
        0 <= k < pdus[p].signals@.len(),
    ensures
        r.len() == pdus[p].signals@.len(),
        ({
            let s = pdus[p].signals@[k];
            let raw = decode::field_value(
                payload,
                (8 * placed[0].1 + s.start_bit) as u64,
                s.length_bits as u64,
                s.big_endian,
            );
            &&& r[k].name == s.name
            &&& r[k].raw == raw
            &&& r[k].value == decode::raw_integer(raw, s.length_bits as u64, s.signed)
            &&& r[k].factor == s.factor
            &&& r[k].offset == s.offset
            &&& r[k].unit == s.unit
        }),
{
    lemma_pdu(pdus, placed[0].0@, 0, p);
    let signals = pdus[p].signals@;
    let start = placed[0].1;
    assert forall|i: int| 0 <= i < signals.len() implies fr_db::fits(
        start,
        #[trigger] signals[i],
        payload,
    ) by {
        assert(8 * start + signals[i].start_bit + signals[i].length_bits <= 8 * payload.len());
    }
    lemma_fitting(start, signals, payload, signals.len() as int);
    let fit = fr_db::fitting(start, signals, payload, signals.len() as int);
    let at = fr_db::held(pdus, placed, payload, 1);
    assert(fr_db::held(pdus, placed, payload, 0) =~= Seq::<(int, int, int)>::empty());
    assert(at =~= fit.map_values(|s: int| (0int, p, s)));
    assert(at[k] == (0int, p, k));
    assert(fr_db::is_decoded(r[k], start, signals[k], payload));
}

proof fn lemma_pdu(pdus: Seq<FrPdu>, name: Seq<char>, from: int, p: int)
    requires
        0 <= from <= p < pdus.len(),
        pdus[p].name@ == name,
        forall|i: int| 0 <= i < p ==> (#[trigger] pdus[i]).name@ != name,
    ensures
        fr_db::pdu_from(pdus, name, from) == p,
    decreases p - from,
{
    if from < p {
        lemma_pdu(pdus, name, from + 1, p);
    }
}

/// A signal that reaches past the payload is left out, and so is a PDU that is not known.
pub proof fn law_cut_off_signals_are_left_out(
    start: u32,
    signals: Seq<FrSignal>,
    payload: Seq<u8>,
    n: int,
    k: int,
)
    requires
        0 <= k < n <= signals.len(),
    ensures
        8 * start + signals[k].start_bit + signals[k].length_bits > 8 * payload.len()
            ==> !fr_db::fitting(start, signals, payload, n).contains(k),
        8 * start + signals[k].start_bit + signals[k].length_bits <= 8 * payload.len()
            ==> fr_db::fitting(start, signals, payload, n).contains(k),
{
    lemma_fitting(start, signals, payload, n);
    let fit = fr_db::fitting(start, signals, payload, n);
    if fit.contains(k) {
        let a = choose|a: int| 0 <= a < fit.len() && fit[a] == k;
        assert(fr_db::fits(start, signals[fit[a]], payload));
    }
    if 8 * start + signals[k].start_bit + signals[k].length_bits <= 8 * payload.len() {
        assert(fr_db::fits(start, signals[k], payload));
    }
}

/// Of several schedules stated for a frame the last one counts, on both channels where two
/// of them differ. What is stated for other frames does not matter.
pub proof fn law_schedules_merge_by_channel(
    stated: Seq<(Seq<char>, FrTriggering)>,
    frame: Seq<char>,
    t: FrTriggering,
    other: Seq<char>,
)
    ensures
        other != frame ==> fr_db::merged_triggering(stated.push((other, t)), frame)
            == fr_db::merged_triggering(stated, frame),
        fr_db::merged_triggering(stated.push((frame, t)), frame) matches Some(m) && m.slot_id
            == t.slot_id && m.base_cycle == t.base_cycle && m.cycle_repetition
            == t.cycle_repetition && (fr_db::merged_triggering(stated, frame) is None ==> m == t)
            && (fr_db::merged_triggering(stated, frame) matches Some(b) ==> m.channel == (
        if b.channel == t.channel {
            t.channel
        } else {
            FrChannel::Both
        })),
        fr_db::merged_triggering(Seq::empty(), frame) is None,
{
    assert(stated.push((other, t)).drop_last() =~= stated);
    assert(stated.push((frame, t)).drop_last() =~= stated);
}

/// A bus speed of a hundred thousand or more is in bits a second, a lower one in thousands.
pub proof fn law_speeds_are_in_kilobits(v: int)
    requires
        0 <= v,
    ensures
        v < 100_000 ==> fr_params::kbps(v) == v,
        v >= 100_000 ==> fr_params::kbps(v) * 1000 <= v && v < (fr_params::kbps(v) + 1) * 1000,
{
}

/// A document without elements has no dialect.
pub proof fn law_an_empty_document_has_no_dialect(doc: Seq<XmlNode>)
    requires
        forall|i: int| 0 <= i < doc.len() ==> !(#[trigger] doc[i]).element,
    ensures
        fr_db::dialect_of(doc) == FrDialect::Unknown,
{
    lemma_no_root(doc, 0);
}

proof fn lemma_no_root(doc: Seq<XmlNode>, from: int)
    requires
        0 <= from,
        forall|i: int| 0 <= i < doc.len() ==> !(#[trigger] doc[i]).element,
    ensures
        fr_db::root_from(doc, from) is None,
    decreases doc.len() - from,
{
    if from < doc.len() {
        lemma_no_root(doc, from + 1);
    }
}

proof fn lemma_digits(s: Seq<char>, from: int)
    requires
        0 <= from <= s.len(),
        forall|i: int| from <= i < s.len() ==> '0' <= #[trigger] s[i] <= '9',
    ensures
        fr_text::digits_end(s, from) == s.len(),
    decreases s.len() - from,
{
    if from < s.len() {
        lemma_digits(s, from + 1);
    }
}

/// Digits alone are a real number; a text with a letter other than an exponent's, and of no
/// special word, is none.
pub proof fn law_digits_are_a_real_number(s: Seq<char>)
    requires
        s.len() > 0,
        forall|i: int| 0 <= i < s.len() ==> '0' <= #[trigger] s[i] <= '9',
    ensures
        fr_text::is_real(s),
        fr_text::is_real(seq!['-'] + s),
{
    lemma_digits(s, 0);
    assert(s[0] != '+' && s[0] != '-');
    let signed = seq!['-'] + s;
    assert(signed.subrange(1, signed.len() as int) =~= s);
}

} // verus!
