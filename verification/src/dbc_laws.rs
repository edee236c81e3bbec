//! What a symbol table promises of frames and databases, in the terms of the file and of
//! the bytes: which signals a frame shows, what each one reads, and where every declaration
//! of the file has gone.

use vstd::prelude::*;
use crate::can::frame::CanFrame;
use crate::dbc;
use crate::dbc::{DecodedSignal, MessageInfo, RawValue, SignalInfo, SymbolTable};
use crate::dbc_source::{Attribute, Database, MessageAttribute, SignalKind, ValueKind, ValueLabels};
use crate::decode;
use crate::mux::MuxCondition;
use crate::text;

verus! {

/// The first signal that bears the name of signal `j` is signal `j` itself.
pub open spec fn leads_its_name(signals: Seq<SignalInfo>, j: int) -> bool {
    &&& 0 <= j < signals.len()
    &&& forall|i: int| 0 <= i < j ==> (#[trigger] signals[i]).name@ != signals[j].name@
}

proof fn lemma_index_from(signals: Seq<SignalInfo>, j: int, from: int)
    requires
        leads_its_name(signals, j),
        0 <= from <= j,
    ensures
        dbc::signal_index_from(signals, signals[j].name@, from) == j,
    decreases j - from,
{
    if from < j {
        lemma_index_from(signals, j, from + 1);
    }
}

proof fn lemma_index_none(signals: Seq<SignalInfo>, name: Seq<char>, from: int)
    requires
        0 <= from,
        forall|i: int| 0 <= i < signals.len() ==> (#[trigger] signals[i]).name@ != name,
    ensures
        dbc::signal_index_from(signals, name, from) == -1,
    decreases signals.len() - from,
{
    if from < signals.len() {
        lemma_index_none(signals, name, from + 1);
    }
}

/// A signal is looked up by its name. The first one of that name is found, and nothing
/// where the message or the name is not there.
pub proof fn law_signals_are_found_by_name(table: SymbolTable, id: u32, name: Seq<char>, j: int)
    ensures
        !table.messages@.contains_key(id) ==> table.signal_spec(id, name) is None,
        (forall|i: int|
            0 <= i < table.messages@[id].signals@.len() ==> (
            #[trigger] table.messages@[id].signals@[i]).name@ != name) ==> table.signal_spec(
            id,
            name,
        ) is None,
        table.messages@.contains_key(id) && leads_its_name(table.messages@[id].signals@, j)
            && table.messages@[id].signals@[j].name@ == name ==> table.signal_spec(id, name)
            == Some(table.messages@[id].signals@[j]),
{
    let signals = table.messages@[id].signals@;
    if forall|i: int| 0 <= i < signals.len() ==> (#[trigger] signals[i]).name@ != name {
        lemma_index_none(signals, name, 0);
    }
    if leads_its_name(signals, j) && signals[j].name@ == name {
        lemma_index_from(signals, j, 0);
    }
}

proof fn lemma_shown(m: MessageInfo, payload: Seq<u8>, n: int)
    requires
        0 <= n <= m.signals@.len(),
    ensures
        forall|a: int, b: int|
            0 <= a < b < dbc::present_signals(m, payload, n).len() ==> (
            #[trigger] dbc::present_signals(m, payload, n)[a]) < (#[trigger] dbc::present_signals(
                m,
                payload,
                n,
            )[b]),
        forall|a: int|
            0 <= a < dbc::present_signals(m, payload, n).len() ==> 0 <= (
            #[trigger] dbc::present_signals(m, payload, n)[a]) < n && dbc::is_present(
                m.signals@[dbc::present_signals(m, payload, n)[a]],
                m,
                payload,
            ),
        forall|k: int|
            0 <= k < n && #[trigger] dbc::is_present(m.signals@[k], m, payload)
                ==> dbc::present_signals(m, payload, n).contains(k),
    decreases n,
{
    if n > 0 {
        lemma_shown(m, payload, n - 1);
        let before = dbc::present_signals(m, payload, n - 1);
        let now = dbc::present_signals(m, payload, n);
        assert forall|k: int|
            0 <= k < n && #[trigger] dbc::is_present(m.signals@[k], m, payload) implies now.contains(
            k,
        ) by {
            if k == n - 1 {
                assert(now[before.len() as int] == k);
            } else {
                let a = choose|a: int| 0 <= a < before.len() && before[a] == k;
                assert(before.contains(k));
                assert(now[a] == k);
            }
        }
    }
}

/// A signal without conditions is always decoded: some decoded signal bears its name, its
/// unit, its tag and its scaling, and the decoded signals stand in the message's order.
pub proof fn law_plain_signals_always_show(
    table: SymbolTable,
    frame: CanFrame,
    r: Seq<DecodedSignal>,
    k: int,
) -> (at: int)
    requires
        table.decodes_to(frame, r),
        table.messages@.contains_key(frame.id),
        0 <= k < table.messages@[frame.id].signals@.len(),
        table.messages@[frame.id].signals@[k].mux_when@.len() == 0,
    ensures
        0 <= at < r.len(),
        ({
            let s = table.messages@[frame.id].signals@[k];
            &&& r[at].name == s.name
            &&& r[at].unit == s.unit
            &&& r[at].type_tag == s.type_tag
            &&& r[at].factor == s.factor
            &&& r[at].offset == s.offset
        }),
{
    let m = table.messages@[frame.id];
    let payload = frame.payload_spec();
    lemma_shown(m, payload, m.signals@.len() as int);
    let shown = dbc::present_signals(m, payload, m.signals@.len() as int);
    assert(dbc::is_present(m.signals@[k], m, payload));
    assert(shown.contains(k));
    let at = choose|a: int| 0 <= a < shown.len() && shown[a] == k;
    assert(dbc::is_decoded(
        r[at],
        m.signals@[shown[at]],
        payload,
        table.labels_spec(frame.id, m.signals@[shown[at]].name@),
    ));
    at
}

/// A message without conditions decodes to all of its signals, each one in its place, and
/// an unknown id to nothing.
pub proof fn law_a_plain_message_shows_all(table: SymbolTable, frame: CanFrame, r: Seq<DecodedSignal>)
    requires
        table.decodes_to(frame, r),
    ensures
        !table.messages@.contains_key(frame.id) ==> r.len() == 0,
        table.messages@.contains_key(frame.id) && (forall|k: int|
            0 <= k < table.messages@[frame.id].signals@.len() ==> (
            #[trigger] table.messages@[frame.id].signals@[k]).mux_when@.len() == 0) ==> {
            &&& r.len() == table.messages@[frame.id].signals@.len()
            &&& forall|k: int|
                0 <= k < r.len() ==> (#[trigger] r[k]).name
                    == table.messages@[frame.id].signals@[k].name
        },
{
    if table.messages@.contains_key(frame.id) && (forall|k: int|
        0 <= k < table.messages@[frame.id].signals@.len() ==> (
        #[trigger] table.messages@[frame.id].signals@[k]).mux_when@.len() == 0) {
        let m = table.messages@[frame.id];
        let payload = frame.payload_spec();
        assert forall|k: int| 0 <= k < m.signals@.len() implies dbc::is_present(
            #[trigger] m.signals@[k],
            m,
            payload,
        ) by {}
        lemma_all_shown(m, payload, m.signals@.len() as int);
        let shown = dbc::present_signals(m, payload, m.signals@.len() as int);
        assert forall|k: int| 0 <= k < r.len() implies (#[trigger] r[k]).name
            == m.signals@[k].name by {
            assert(dbc::is_decoded(
                r[k],
                m.signals@[shown[k]],
                payload,
                table.labels_spec(frame.id, m.signals@[shown[k]].name@),
            ));
        }
    }
}

proof fn lemma_all_shown(m: MessageInfo, payload: Seq<u8>, n: int)
    requires
        0 <= n <= m.signals@.len(),
        forall|k: int|
            0 <= k < m.signals@.len() ==> dbc::is_present(#[trigger] m.signals@[k], m, payload),
    ensures
        dbc::present_signals(m, payload, n).len() == n,
        forall|k: int| 0 <= k < n ==> #[trigger] dbc::present_signals(m, payload, n)[k] == k,
    decreases n,
{
    if n > 0 {
        lemma_all_shown(m, payload, n - 1);
        assert(dbc::is_present(m.signals@[n - 1], m, payload));
    }
}

/// The number that a switch reads: its integer as a pattern of 64 bits, so that a negative
/// one is above every range of a database.
pub open spec fn switch_number(s: SignalInfo, payload: Seq<u8>) -> int {
    let n = decode::through_double(
        decode::raw_integer(
            decode::field_value(payload, s.start_bit, s.size, s.big_endian),
            s.size,
            s.signed,
        ),
    );
    if n < 0 {
        n + 0x1_0000_0000_0000_0000
    } else {
        n
    }
}

/// A condition on a switch that the message carries holds just where the switch's number
/// lies in one of the ranges, both ends included. A condition on a switch that the message
/// does not carry holds.
pub proof fn law_a_condition_reads_its_switch(
    c: MuxCondition,
    m: MessageInfo,
    payload: Seq<u8>,
    j: int,
)
    ensures
        text::lists(m.switch_names@, c.switch@) && leads_its_name(m.signals@, j)
            && m.signals@[j].name@ == c.switch@ ==> dbc::condition_holds(c, m, payload) == (exists|
            i: int,
        |
            0 <= i < c.ranges@.len() && (#[trigger] c.ranges@[i]).0 <= switch_number(
                m.signals@[j],
                payload,
            ) <= c.ranges@[i].1),
        !text::lists(m.switch_names@, c.switch@) ==> dbc::condition_holds(c, m, payload),
        (forall|i: int|
            0 <= i < m.signals@.len() ==> (#[trigger] m.signals@[i]).name@ != c.switch@)
            ==> dbc::condition_holds(c, m, payload),
{
    if forall|i: int| 0 <= i < m.signals@.len() ==> (#[trigger] m.signals@[i]).name@ != c.switch@ {
        lemma_index_none(m.signals@, c.switch@, 0);
    }
    if leads_its_name(m.signals@, j) && m.signals@[j].name@ == c.switch@ {
        lemma_index_from(m.signals@, j, 0);
    }
}

/// Where the names of a message's signals are all different, a signal that is gated on a
/// switch is seen in no frame whose switch number lies outside every range that it is gated with.
pub proof fn law_other_groups_stay_out(
    table: SymbolTable,
    frame: CanFrame,
    r: Seq<DecodedSignal>,
    k: int,
    i: int,
    j: int,
)
    requires
        table.decodes_to(frame, r),
        table.messages@.contains_key(frame.id),
        ({
            let m = table.messages@[frame.id];
            let c = m.signals@[k].mux_when@[i];
            &&& 0 <= k < m.signals@.len()
            &&& forall|a: int, b: int|
                0 <= a < b < m.signals@.len() ==> (#[trigger] m.signals@[a]).name@ != (
                #[trigger] m.signals@[b]).name@
            &&& 0 <= i < m.signals@[k].mux_when@.len()
            &&& text::lists(m.switch_names@, c.switch@)
            &&& 0 <= j < m.signals@.len()
            &&& m.signals@[j].name@ == c.switch@
            &&& forall|a: int|
                0 <= a < c.ranges@.len() ==> !((#[trigger] c.ranges@[a]).0 <= switch_number(
                    m.signals@[j],
                    frame.payload_spec(),
                ) <= c.ranges@[a].1)
        }),
    ensures
        forall|a: int|
            0 <= a < r.len() ==> (#[trigger] r[a]).name@
                != table.messages@[frame.id].signals@[k].name@,
{
    let m = table.messages@[frame.id];
    let payload = frame.payload_spec();
    let c = m.signals@[k].mux_when@[i];
    assert(leads_its_name(m.signals@, j));
    law_a_condition_reads_its_switch(c, m, payload, j);
    assert(!dbc::condition_holds(m.signals@[k].mux_when@[i], m, payload));
    lemma_shown(m, payload, m.signals@.len() as int);
    let shown = dbc::present_signals(m, payload, m.signals@.len() as int);
    assert forall|a: int| 0 <= a < r.len() implies (#[trigger] r[a]).name@
        != m.signals@[k].name@ by {
        assert(dbc::is_decoded(
            r[a],
            m.signals@[shown[a]],
            payload,
            table.labels_spec(frame.id, m.signals@[shown[a]].name@),
        ));
        let b = shown[a];
        assert(dbc::is_present(m.signals@[b], m, payload));
        assert(b != k);
        if b < k {
            assert(m.signals@[b].name@ != m.signals@[k].name@);
        } else {
            assert(m.signals@[k].name@ != m.signals@[b].name@);
        }
    }
}

/// A float signal carries its bits as they are, and no label. Any other signal is the
/// integer of its bits, negative only where it is signed, with the label that the database
/// gives that integer.
pub proof fn law_decoded_values_are_the_bits(
    d: DecodedSignal,
    s: SignalInfo,
    payload: Seq<u8>,
    labels: Seq<(i64, String)>,
)
    requires
        dbc::is_decoded(d, s, payload, labels),
    ensures
        ({
            let bits = decode::field_value(payload, s.start_bit, s.size, s.big_endian);
            let number = decode::raw_integer(bits, s.size, s.signed);
            &&& s.is_float && s.size == 64 ==> d.value == RawValue::Double(bits)
            &&& s.is_float && s.size == 32 ==> d.value == RawValue::Single(bits as u32)
            &&& s.is_float ==> d.label is None && d.raw as u64 == bits
            &&& !s.is_float ==> (d.value matches RawValue::Integer(n) && n == number)
            &&& !s.is_float && -0x20_0000_0000_0000 < number < 0x20_0000_0000_0000 ==> d.raw
                == number
            &&& !s.signed && !s.is_float ==> (d.value matches RawValue::Integer(n) && n == bits)
            &&& !s.is_float && d.label is Some ==> exists|i: int|
                0 <= i < labels.len() && (#[trigger] labels[i]).0 == d.raw && labels[i].1
                    == d.label->0
            &&& !s.is_float && d.label is None ==> forall|i: int|
                0 <= i < labels.len() ==> (#[trigger] labels[i]).0 != d.raw
        }),
{
    let bits = decode::field_value(payload, s.start_bit, s.size, s.big_endian);
    let number = decode::raw_integer(bits, s.size, s.signed);
    lemma_number_range(bits, s.size, s.signed);
    if -0x20_0000_0000_0000 < number < 0x20_0000_0000_0000 {
        decode::law_small_integers_exact(number);
    }
    assert((bits as i64) as u64 == bits) by (bit_vector);
    if !s.is_float {
        law_the_last_label_counts(labels, d.raw as int);
    }
}

proof fn lemma_number_range(bits: u64, size: u64, signed: bool)
    ensures
        i128::MIN <= decode::raw_integer(bits, size, signed) <= i128::MAX,
        !signed ==> decode::raw_integer(bits, size, signed) == bits,
{
}

/// A value's label is the last one that the database states for it.
pub proof fn law_the_last_label_counts(labels: Seq<(i64, String)>, value: int)
    ensures
        match dbc::label_for(labels, value) {
            Some(l) => exists|i: int|
                0 <= i < labels.len() && (#[trigger] labels[i]).0 == value && labels[i].1 == l
                    && forall|j: int| i < j < labels.len() ==> (#[trigger] labels[j]).0 != value,
            None => forall|i: int| 0 <= i < labels.len() ==> (#[trigger] labels[i]).0 != value,
        },
    decreases labels.len(),
{
    if labels.len() > 0 {
        let rest = labels.drop_last();
        law_the_last_label_counts(rest, value);
        if labels.last().0 == value {
            let i = labels.len() - 1;
            assert(labels[i].0 == value);
        } else if dbc::label_for(rest, value) is Some {
            let l = dbc::label_for(rest, value)->0;
            let i = choose|i: int|
                0 <= i < rest.len() && (#[trigger] rest[i]).0 == value && rest[i].1 == l
                    && forall|j: int| i < j < rest.len() ==> (#[trigger] rest[j]).0 != value;
            assert(labels[i].0 == value && labels[i].1 == l);
            assert forall|j: int| i < j < labels.len() implies (#[trigger] labels[j]).0
                != value by {
                if j < rest.len() {
                    assert(rest[j].0 != value);
                }
            }
        } else {
            assert forall|i: int| 0 <= i < labels.len() implies (#[trigger] labels[i]).0
                != value by {
                if i < rest.len() {
                    assert(rest[i].0 != value);
                }
            }
        }
    }
}

proof fn lemma_last_message(db: Database, id: u32, k: int, n: int)
    requires
        0 <= k < n <= db.messages@.len(),
        dbc::key_id(db.messages@[k].head.id) == id,
        forall|i: int|
            k < i < n ==> dbc::key_id((#[trigger] db.messages@[i]).head.id) != id,
    ensures
        dbc::last_message(db.messages@.subrange(0, n), id) == k,
    decreases n,
{
    let s = db.messages@.subrange(0, n);
    assert(s.drop_last() =~= db.messages@.subrange(0, n - 1));
    assert(s.last() == db.messages@[n - 1]);
    if k < n - 1 {
        lemma_last_message(db, id, k, n - 1);
    }
}

/// Every message line of the database is in the table under its id, the last line of an id
/// counting: with its name, its length and each of its signals in place, laid out and
/// scaled as the file says.
pub proof fn law_a_table_holds_the_declared_messages(table: SymbolTable, db: Database, k: int)
    requires
        table.is_of(db),
        0 <= k < db.messages@.len(),
        forall|i: int|
            k < i < db.messages@.len() ==> dbc::key_id((#[trigger] db.messages@[i]).head.id)
                != dbc::key_id(db.messages@[k].head.id),
    ensures
        ({
            let line = db.messages@[k];
            let id = dbc::key_id(line.head.id);
            let m = table.messages@[id];
            &&& table.messages@.contains_key(id)
            &&& table.order@.contains(id)
            &&& m.name == line.head.name
            &&& m.dlc == line.head.size
            &&& m.signals@.len() == line.signals@.len()
            &&& forall|j: int|
                0 <= j < m.signals@.len() ==> {
                    let s = #[trigger] m.signals@[j];
                    let l = line.signals@[j].layout;
                    &&& s.name == l.name
                    &&& s.start_bit == l.start_bit
                    &&& s.size == l.size
                    &&& s.big_endian == l.big_endian
                    &&& s.signed == l.signed
                    &&& s.factor == l.factor
                    &&& s.offset == l.offset
                    &&& s.unit == l.unit
                    &&& s.min == line.signals@[j].range.0
                    &&& s.max == line.signals@[j].range.1
                }
        }),
{
    let id = dbc::key_id(db.messages@[k].head.id);
    let n = db.messages@.len() as int;
    lemma_last_message(db, id, k, n);
    assert(db.messages@.subrange(0, n) =~= db.messages@);
    assert(table.order@.contains(id) == (dbc::last_message(db.messages@, id) >= 0));
    assert(table.messages@.contains_key(id) == (dbc::last_message(db.messages@, id) >= 0));
    let m = table.messages@[id];
    assert forall|j: int| 0 <= j < m.signals@.len() implies {
        let s = #[trigger] m.signals@[j];
        let l = db.messages@[k].signals@[j].layout;
        &&& s.name == l.name
        &&& s.start_bit == l.start_bit
        &&& s.size == l.size
        &&& s.big_endian == l.big_endian
        &&& s.signed == l.signed
        &&& s.factor == l.factor
        &&& s.offset == l.offset
        &&& s.unit == l.unit
        &&& s.min == db.messages@[k].signals@[j].range.0
        &&& s.max == db.messages@[k].signals@[j].range.1
    } by {
        assert(dbc::is_signal_info(m.signals@[j], db, db.messages@[k], j));
    }
}

proof fn lemma_no_message(db: Database, id: u32, n: int)
    requires
        0 <= n <= db.messages@.len(),
        forall|i: int|
            0 <= i < n ==> dbc::key_id((#[trigger] db.messages@[i]).head.id) != id,
    ensures
        dbc::last_message(db.messages@.subrange(0, n), id) == -1,
    decreases n,
{
    if n > 0 {
        let s = db.messages@.subrange(0, n);
        assert(s.drop_last() =~= db.messages@.subrange(0, n - 1));
        assert(s.last() == db.messages@[n - 1]);
        lemma_no_message(db, id, n - 1);
    }
}

/// A table knows no message that the database does not declare.
pub proof fn law_a_table_holds_nothing_else(table: SymbolTable, db: Database, id: u32)
    requires
        table.is_of(db),
        forall|i: int|
            0 <= i < db.messages@.len() ==> dbc::key_id((#[trigger] db.messages@[i]).head.id) != id,
    ensures
        !table.messages@.contains_key(id),
        !table.order@.contains(id),
{
    let n = db.messages@.len() as int;
    lemma_no_message(db, id, n);
    assert(db.messages@.subrange(0, n) =~= db.messages@);
    assert(table.order@.contains(id) == (dbc::last_message(db.messages@, id) >= 0));
}

/// The line gives the signal labels.
pub open spec fn labels_line(line: ValueLabels, id: u32, signal: Seq<char>) -> bool {
    line matches ValueLabels::Signal { id: key, signal: name, labels } && dbc::key_id(key) == id
        && name@ == signal
}

proof fn lemma_stated_labels(lines: Seq<ValueLabels>, id: u32, signal: Seq<char>, i: int, j: int)
    requires
        0 <= i < lines.len(),
        labels_line(lines[i], id, signal),
        lines[i] matches ValueLabels::Signal { labels, .. } && 0 <= j < labels@.len(),
    ensures
        lines[i] matches ValueLabels::Signal { labels, .. } && dbc::stated_labels(
            lines,
            id,
            signal,
        ).contains(labels@[j]),
    decreases lines.len(),
{
    let rest = dbc::stated_labels(lines.drop_last(), id, signal);
    let all = dbc::stated_labels(lines, id, signal);
    if let ValueLabels::Signal { id: key, signal: name, labels } = lines[i] {
        if i == lines.len() - 1 {
            assert(all[rest.len() + j] == labels@[j]);
        } else {
            assert(lines.drop_last()[i] == lines[i]);
            lemma_stated_labels(lines.drop_last(), id, signal, i, j);
            let at = choose|at: int| 0 <= at < rest.len() && rest[at] == labels@[j];
            assert(rest.contains(labels@[j]));
            assert(all[at] == labels@[j]);
        }
    }
}

/// Every label that the database gives a signal is known to the table: the value has a
/// label from then on.
pub proof fn law_stated_labels_are_known(
    table: SymbolTable,
    db: Database,
    id: u32,
    signal: Seq<char>,
    i: int,
    j: int,
)
    requires
        table.is_of(db),
        0 <= i < db.value_labels@.len(),
        labels_line(db.value_labels@[i], id, signal),
        db.value_labels@[i] matches ValueLabels::Signal { labels, .. } && 0 <= j < labels@.len(),
    ensures
        db.value_labels@[i] matches ValueLabels::Signal { labels, .. } && dbc::label_for(
            table.labels_spec(id, signal),
            labels@[j].0 as int,
        ) is Some,
{
    lemma_stated_labels(db.value_labels@, id, signal, i, j);
    assert(dbc::labels_of(table.value_tables@, id, signal) == dbc::stated_labels(
        db.value_labels@,
        id,
        signal,
    ));
    if let ValueLabels::Signal { labels, .. } = db.value_labels@[i] {
        law_the_last_label_counts(table.labels_spec(id, signal), labels@[j].0 as int);
        let known = table.labels_spec(id, signal);
        let at = choose|at: int| 0 <= at < known.len() && known[at] == labels@[j];
        assert(known[at].0 == labels@[j].0);
    }
}

proof fn lemma_explicit(attributes: Seq<MessageAttribute>, name: Seq<char>, id: u32, k: int)
    requires
        0 <= k < attributes.len(),
        attributes[k].name@ == name,
        dbc::key_id(attributes[k].id) == id,
        dbc::declared_us(attributes[k].value) is Some,
        forall|i: int|
            0 <= i < k ==> (#[trigger] attributes[i]).name@ != name || dbc::key_id(
                attributes[i].id,
            ) != id,
    ensures
        dbc::explicit_cycle(attributes, name, id) == dbc::declared_us(attributes[k].value),
    decreases attributes.len(),
{
    if k > 0 {
        let rest = attributes.drop_first();
        assert(rest[k - 1] == attributes[k]);
        assert(attributes[0].name@ != name || dbc::key_id(attributes[0].id) != id);
        assert forall|i: int| 0 <= i < k - 1 implies (#[trigger] rest[i]).name@ != name
            || dbc::key_id(rest[i].id) != id by {
            assert(rest[i] == attributes[i + 1]);
        }
        lemma_explicit(rest, name, id, k - 1);
    }
}

/// A whole number of milliseconds under `GenMsgCycleTime` on a message is that message's
/// period, a thousand times as many microseconds; no other message gets it from there.
pub proof fn law_a_stated_period_is_the_messages(db: Database, k: int, ms: u64)
    requires
        0 <= k < db.message_attributes@.len(),
        db.message_attributes@[k].name@ == "GenMsgCycleTime"@,
        db.message_attributes@[k].value == Attribute::Unsigned(ms),
        ms * 1000 <= u64::MAX,
        forall|i: int|
            0 <= i < k ==> (#[trigger] db.message_attributes@[i]).name@ != "GenMsgCycleTime"@
                || dbc::key_id(db.message_attributes@[i].id) != dbc::key_id(
                db.message_attributes@[k].id,
            ),
    ensures
        dbc::declared_cycle(db, dbc::key_id(db.message_attributes@[k].id)) == Some(ms * 1000),
{
    lemma_explicit(
        db.message_attributes@,
        "GenMsgCycleTime"@,
        dbc::key_id(db.message_attributes@[k].id),
        k,
    );
}

proof fn lemma_no_explicit(attributes: Seq<MessageAttribute>, name: Seq<char>, id: u32)
    requires
        forall|i: int|
            0 <= i < attributes.len() ==> (#[trigger] attributes[i]).name@ != name || dbc::key_id(
                attributes[i].id,
            ) != id,
    ensures
        dbc::explicit_cycle(attributes, name, id) is None,
    decreases attributes.len(),
{
    if attributes.len() > 0 {
        let rest = attributes.drop_first();
        assert(attributes[0].name@ != name || dbc::key_id(attributes[0].id) != id);
        assert forall|i: int| 0 <= i < rest.len() implies (#[trigger] rest[i]).name@ != name
            || dbc::key_id(rest[i].id) != id by {
            assert(rest[i] == attributes[i + 1]);
        }
        lemma_no_explicit(rest, name, id);
    }
}

/// A message that no attribute is about, in a database without defaults, has no period.
pub proof fn law_no_period_is_made_up(db: Database, id: u32)
    requires
        db.attribute_defaults@.len() == 0,
        forall|i: int|
            0 <= i < db.message_attributes@.len() ==> dbc::key_id(
                (#[trigger] db.message_attributes@[i]).id,
            ) != id,
    ensures
        dbc::declared_cycle(db, id) is None,
{
    lemma_no_explicit(db.message_attributes@, "GenMsgCycleTime"@, id);
    lemma_no_explicit(db.message_attributes@, "CycleTime"@, id);
}

/// A message that no attribute is about has the period of the default. The default of
/// `GenMsgCycleTime` goes first.
pub proof fn law_defaults_fill_in(db: Database, id: u32, ms: u64)
    requires
        db.attribute_defaults@.len() > 0,
        db.attribute_defaults@[0].name@ == "GenMsgCycleTime"@,
        db.attribute_defaults@[0].value == Attribute::Unsigned(ms),
        ms * 1000 <= u64::MAX,
        forall|i: int|
            0 <= i < db.message_attributes@.len() ==> dbc::key_id(
                (#[trigger] db.message_attributes@[i]).id,
            ) != id,
    ensures
        dbc::declared_cycle(db, id) == Some(ms * 1000),
{
    lemma_no_explicit(db.message_attributes@, "GenMsgCycleTime"@, id);
    lemma_no_explicit(db.message_attributes@, "CycleTime"@, id);
}

/// Negative numbers and texts declare no period, and zero declares one of zero.
pub proof fn law_what_declares_a_period(value: Attribute)
    ensures
        value matches Attribute::Signed(i) && i < 0 ==> dbc::declared_us(value) is None,
        value matches Attribute::Text(t) ==> dbc::declared_us(value) is None,
        value matches Attribute::Signed(i) && 0 <= i <= u64::MAX / 1000 ==> dbc::declared_us(value)
            == Some(value->Signed_0 * 1000),
        value == Attribute::Unsigned(0) ==> dbc::declared_us(value) == Some(0int),
        dbc::declared_us(value) is Some ==> 0 <= dbc::declared_us(value)->0 <= u64::MAX,
{
}

proof fn lemma_float_width(kinds: Seq<SignalKind>, id: u32, signal: Seq<char>, k: int)
    requires
        0 <= k < kinds.len(),
        dbc::key_id(kinds[k].id) == id,
        kinds[k].signal@ == signal,
        kinds[k].kind != ValueKind::Integer,
        forall|i: int|
            k < i < kinds.len() ==> dbc::key_id((#[trigger] kinds[i]).id) != id || kinds[i].signal@
                != signal,
    ensures
        dbc::float_width(kinds, id, signal) == Some(
            if kinds[k].kind == ValueKind::Single {
                32u64
            } else {
                64u64
            },
        ),
    decreases kinds.len(),
{
    if k < kinds.len() - 1 {
        let rest = kinds.drop_last();
        assert(dbc::key_id(kinds[kinds.len() - 1].id) != id || kinds[kinds.len() - 1].signal@
            != signal);
        assert forall|i: int| k < i < rest.len() implies dbc::key_id((#[trigger] rest[i]).id) != id
            || rest[i].signal@ != signal by {
            assert(rest[i] == kinds[i]);
        }
        lemma_float_width(rest, id, signal, k);
    }
}

proof fn lemma_no_float(kinds: Seq<SignalKind>, id: u32, signal: Seq<char>)
    requires
        forall|i: int|
            0 <= i < kinds.len() ==> dbc::key_id((#[trigger] kinds[i]).id) != id || kinds[i].signal@
                != signal || kinds[i].kind == ValueKind::Integer,
    ensures
        dbc::float_width(kinds, id, signal) is None,
    decreases kinds.len(),
{
    if kinds.len() > 0 {
        let rest = kinds.drop_last();
        assert(kinds.last() == kinds[kinds.len() - 1]);
        assert forall|i: int| 0 <= i < rest.len() implies dbc::key_id((#[trigger] rest[i]).id) != id
            || rest[i].signal@ != signal || rest[i].kind == ValueKind::Integer by {
            assert(rest[i] == kinds[i]);
        }
        lemma_no_float(rest, id, signal);
    }
}

/// A signal is a float just where the database declares it one of the signal's own width:
/// single with 32 bits, double with 64.
pub proof fn law_floats_are_declared(
    db: Database,
    message: int,
    at: int,
    info: SignalInfo,
    k: int,
)
    requires
        0 <= message < db.messages@.len(),
        0 <= at < db.messages@[message].signals@.len(),
        dbc::is_signal_info(info, db, db.messages@[message], at),
    ensures
        ({
            let id = dbc::key_id(db.messages@[message].head.id);
            let name = info.name@;
            let kinds = db.signal_kinds@;
            &&& (forall|i: int|
                0 <= i < kinds.len() ==> dbc::key_id((#[trigger] kinds[i]).id) != id
                    || kinds[i].signal@ != name || kinds[i].kind == ValueKind::Integer)
                ==> !info.is_float
            &&& 0 <= k < kinds.len() && dbc::key_id(kinds[k].id) == id && kinds[k].signal@ == name
                && kinds[k].kind != ValueKind::Integer && (forall|i: int|
                k < i < kinds.len() ==> dbc::key_id((#[trigger] kinds[i]).id) != id
                    || kinds[i].signal@ != name) ==> info.is_float == (info.size == (
            if kinds[k].kind == ValueKind::Single {
                32u64
            } else {
                64u64
            }))
        }),
{
    let id = dbc::key_id(db.messages@[message].head.id);
    let kinds = db.signal_kinds@;
    if forall|i: int|
        0 <= i < kinds.len() ==> dbc::key_id((#[trigger] kinds[i]).id) != id || kinds[i].signal@
            != info.name@ || kinds[i].kind == ValueKind::Integer {
        lemma_no_float(kinds, id, info.name@);
    }
    if 0 <= k < kinds.len() && dbc::key_id(kinds[k].id) == id && kinds[k].signal@ == info.name@
        && kinds[k].kind != ValueKind::Integer && (forall|i: int|
        k < i < kinds.len() ==> dbc::key_id((#[trigger] kinds[i]).id) != id || kinds[i].signal@
            != info.name@) {
        lemma_float_width(kinds, id, info.name@, k);
    }
}

/// A node sends the messages that name it as their transmitter, and no others; the list
/// keeps the order of the ids.
pub proof fn law_a_node_sends_what_names_it(table: SymbolTable, node: Seq<char>, n: int, id: u32)
    requires
        0 <= n <= table.order@.len(),
        dbc::ascending(table.order@),
    ensures
        table.sent_by(node, n).contains(id) == (table.order@.subrange(0, n).contains(id)
            && table.messages@.contains_key(id) && table.messages@[id].transmitter@ == node),
    decreases n,
{
    let now = table.sent_by(node, n);
    if n > 0 {
        law_a_node_sends_what_names_it(table, node, n - 1, id);
        let before = table.sent_by(node, n - 1);
        let next = table.order@[n - 1];
        let short = table.order@.subrange(0, n - 1);
        let long = table.order@.subrange(0, n);
        if before.contains(id) {
            let i = choose|i: int| 0 <= i < before.len() && before[i] == id;
            assert(now[i] == id);
        }
        if short.contains(id) {
            let i = choose|i: int| 0 <= i < short.len() && short[i] == id;
            assert(long[i] == id);
        }
        if long.contains(id) {
            let i = choose|i: int| 0 <= i < long.len() && long[i] == id;
            if i < n - 1 {
                assert(short[i] == id);
            }
        }
        if next == id {
            assert(long[n - 1] == id);
            if table.messages@.contains_key(id) && table.messages@[id].transmitter@ == node {
                assert(now[now.len() - 1] == id);
            }
        }
        if now.contains(id) {
            let i = choose|i: int| 0 <= i < now.len() && now[i] == id;
            if i < before.len() {
                assert(before[i] == id);
            }
        }
    }
}

/// A printed value starts with its number. Unit, tag and label follow where they are not
/// empty, each one set off from what goes before, and nothing else does.
pub proof fn law_a_printed_value_starts_with_its_number(
    number: Seq<char>,
    unit: Seq<char>,
    tag: Seq<char>,
    label: Option<Seq<char>>,
)
    ensures
        ({
            let t = dbc::signal_value_text(number, unit, tag, label);
            let shown = label is Some && label->0.len() > 0;
            &&& t.len() == number.len() + (if unit.len() > 0 {
                unit.len() + 1
            } else {
                0
            }) + (if tag.len() > 0 {
                tag.len() + 3
            } else {
                0
            }) + (if shown {
                label->0.len() + 3
            } else {
                0
            })
            &&& t.subrange(0, number.len() as int) == number
            &&& unit.len() > 0 ==> t.subrange(
                number.len() as int + 1,
                number.len() as int + 1 + unit.len(),
            ) == unit
            &&& shown ==> t.subrange(t.len() - 1 - label->0.len(), t.len() - 1) == label->0
            &&& tag.len() > 0 && !shown ==> t.subrange(t.len() - 1 - tag.len(), t.len() - 1) == tag
        }),
{
    reveal_strlit(" ");
    reveal_strlit(" [");
    reveal_strlit("]");
    reveal_strlit(" (");
    reveal_strlit(")");
    let t = dbc::signal_value_text(number, unit, tag, label);
    assert(t.subrange(0, number.len() as int) =~= number);
    if unit.len() > 0 {
        assert(t.subrange(number.len() as int + 1, number.len() as int + 1 + unit.len()) =~= unit);
    }
    if label is Some && label->0.len() > 0 {
        assert(t.subrange(t.len() - 1 - label->0.len(), t.len() - 1) =~= label->0);
    } else if tag.len() > 0 {
        assert(t.subrange(t.len() - 1 - tag.len(), t.len() - 1) =~= tag);
    }
}

/// The placeholder for no node is no receiver and no transmitter; every other name is kept.
pub proof fn law_the_placeholder_is_no_node(names: Seq<String>, n: String, t: Option<String>)
    ensures
        dbc::named_nodes(names).contains(n) ==> names.contains(n) && n@ != "Vector__XXX"@,
        names.contains(n) && n@ != "Vector__XXX"@ ==> dbc::named_nodes(names).contains(n),
        t is None ==> dbc::transmitter_text(t).len() == 0,
        t matches Some(name) ==> (name@ == "Vector__XXX"@ ==> dbc::transmitter_text(t).len() == 0)
            && (name@ != "Vector__XXX"@ ==> dbc::transmitter_text(t) == name@),
    decreases names.len(),
{
    reveal_strlit("");
    if names.len() > 0 {
        let rest = names.drop_last();
        law_the_placeholder_is_no_node(rest, n, t);
        let now = dbc::named_nodes(names);
        let before = dbc::named_nodes(rest);
        if rest.contains(n) {
            let i = choose|i: int| 0 <= i < rest.len() && rest[i] == n;
            assert(names[i] == n);
        }
        if before.contains(n) {
            let i = choose|i: int| 0 <= i < before.len() && before[i] == n;
            assert(now[i] == n);
        }
        if names.last() == n {
            assert(names[names.len() - 1] == n);
            if n@ != "Vector__XXX"@ {
                assert(now[now.len() - 1] == n);
            }
        }
        if names.contains(n) && names.last() != n {
            let i = choose|i: int| 0 <= i < names.len() && names[i] == n;
            assert(rest[i] == n);
        }
        if now.contains(n) && !before.contains(n) {
            let i = choose|i: int| 0 <= i < now.len() && now[i] == n;
            if i < before.len() {
                assert(before[i] == n);
            }
            assert(names.last() == n);
        }
    }
}

/// A type tag starts with the kind of number, `f`, `i` or `u`, and the width follows.
pub proof fn law_type_tags_tell_kind_and_width(size: u64, signed: bool)
    ensures
        dbc::type_tag_text(false, size, true)[0] == 'i',
        dbc::type_tag_text(false, size, false)[0] == 'u',
        dbc::type_tag_text(false, size, signed).drop_first() == text::decimal(size as int),
        dbc::type_tag_text(true, 32, signed) == "f32"@,
        dbc::type_tag_text(true, 64, signed) == "f64"@,
{
    reveal_strlit("i");
    reveal_strlit("u");
    assert(dbc::type_tag_text(false, size, signed).drop_first() =~= text::decimal(size as int));
}

/// A node receives just the signals that list it, each with its message's id and sender.
pub proof fn law_a_node_receives_what_lists_it(
    table: SymbolTable,
    id: u32,
    node: Seq<char>,
    n: int,
    k: int,
)
    requires
        0 <= k < n <= table.messages@[id].signals@.len(),
    ensures
        text::lists(table.messages@[id].signals@[k].receivers@, node) ==> table.received_of(
            id,
            node,
            n,
        ).contains(
            (id, table.messages@[id].signals@[k].name, table.messages@[id].transmitter),
        ),
        (forall|i: int|
            0 <= i < n ==> !text::lists(
                (#[trigger] table.messages@[id].signals@[i]).receivers@,
                node,
            )) ==> table.received_of(id, node, n).len() == 0,
    decreases n,
{
    let m = table.messages@[id];
    let now = table.received_of(id, node, n);
    let before = table.received_of(id, node, n - 1);
    let p = (id, m.signals@[k].name, m.transmitter);
    if n > 1 {
        law_a_node_receives_what_lists_it(
            table,
            id,
            node,
            n - 1,
            if k < n - 1 {
                k
            } else {
                0
            },
        );
    }
    if text::lists(m.signals@[k].receivers@, node) {
        if k < n - 1 {
            let i = choose|i: int| 0 <= i < before.len() && before[i] == p;
            assert(now[i] == p);
        } else {
            assert(now[now.len() - 1] == p);
        }
    }
    if forall|i: int| 0 <= i < n ==> !text::lists((#[trigger] m.signals@[i]).receivers@, node) {
        assert(!text::lists(m.signals@[n - 1].receivers@, node));
    }
}

} // verus!
