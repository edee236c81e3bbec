//! The symbol table of a DBC file: messages, signals, multiplexing, declared
//! cycles and value labels, and what a frame decodes to.

use std::collections::HashMap;
use vstd::prelude::*;
use vstd::string::*;
use crate::can::frame::CanFrame;
use crate::dbc_source;
use crate::dbc_source::{
    read_database, Attribute, AttributeDefault, Database, DbMessage, DbSignal, ExtendedMux,
    MessageAttribute, MessageKey, MuxMark, Number, SignalKind, ValueKind, ValueLabels,
};
use crate::decode;
use crate::mux;
use crate::mux::{MuxCondition, SignalGate};
use crate::text;

verus! {

broadcast use vstd::std_specs::hash::group_hash_axioms;

/// The number of a message id, 11 or 29 bits alike.
pub open spec fn key_id(key: MessageKey) -> u32 {
    match key {
        MessageKey::Standard(i) => i as u32,
        MessageKey::Extended(i) => i,
    }
}

fn msg_id_of(key: &MessageKey) -> (r: u32)
    ensures
        r == key_id(*key),
{
    match key {
        MessageKey::Standard(i) => *i as u32,
        MessageKey::Extended(i) => *i,
    }
}

/// The whole part of a double of less than 2^53, from its bit pattern.
pub open spec fn whole_part(bits: u64) -> u64 {
    if bits >> 52 < 1023 {
        0
    } else {
        ((bits & 0x000f_ffff_ffff_ffff) | 0x0010_0000_0000_0000) >> ((1075 - (bits >> 52)) as u64)
    }
}

/// The bit pattern is that of a double of at least 0 and below 4294967295, the
/// negative zero among them.
pub open spec fn is_small_double(bits: u64) -> bool {
    bits < 0x41ef_ffff_ffe0_0000 || bits == 0x8000_0000_0000_0000
}

/// Milliseconds as microseconds, up to the largest number.
pub open spec fn ms_to_us(ms: int) -> int {
    if ms * 1000 > u64::MAX {
        u64::MAX as int
    } else {
        ms * 1000
    }
}

/// The cycle in microseconds that an attribute's value declares: a number of
/// milliseconds. Zero is a real value: it means event-triggered.
pub open spec fn declared_us(value: Attribute) -> Option<int> {
    match value {
        Attribute::Unsigned(u) => Some(ms_to_us(u as int)),
        Attribute::Signed(i) => if i >= 0 {
            Some(ms_to_us(i as int))
        } else {
            None
        },
        Attribute::Double(bits) => if bits == 0x8000_0000_0000_0000 {
            Some(0)
        } else if is_small_double(bits) {
            Some(ms_to_us(whole_part(bits) as int))
        } else {
            None
        },
        Attribute::Text(_) => None,
    }
}

fn us_of_ms(ms: u64) -> (r: u64)
    ensures
        r == ms_to_us(ms as int),
{
    match ms.checked_mul(1000) {
        Some(us) => us,
        None => u64::MAX,
    }
}

/// A declared cycle is a number of milliseconds. A non-numeric attribute that
/// happens to share the name yields `None` rather than a plausible-looking zero.
pub fn cycle_us_of(value: &Attribute) -> (r: Option<u64>)
    ensures
        r is Some == declared_us(*value) is Some,
        r is Some ==> r->0 == declared_us(*value)->0,
{
    match value {
        Attribute::Unsigned(u) => Some(us_of_ms(*u)),
        Attribute::Signed(i) => if *i >= 0 {
            Some(us_of_ms(*i as u64))
        } else {
            None
        },
        Attribute::Double(b) => {
            let bits: u64 = *b;
            if bits == 0x8000_0000_0000_0000 {
                Some(0)
            } else if bits < 0x41ef_ffff_ffe0_0000 {
                assert(bits >> 52 <= 1054) by (bit_vector)
                    requires
                        bits < 0x41ef_ffff_ffe0_0000,
                ;
                let exponent: u64 = bits >> 52;
                if exponent < 1023 {
                    Some(us_of_ms(0))
                } else {
                    let digits: u64 = (bits & 0x000f_ffff_ffff_ffff) | 0x0010_0000_0000_0000;
                    Some(us_of_ms(digits >> (1075 - exponent)))
                }
            } else {
                None
            }
        },
        Attribute::Text(_) => None,
    }
}

/// The cycle of the first entry on that attribute and message that declares one.
pub open spec fn explicit_cycle(
    attributes: Seq<MessageAttribute>,
    name: Seq<char>,
    id: u32,
) -> Option<int>
    decreases attributes.len(),
{
    if attributes.len() == 0 {
        None
    } else if attributes[0].name@ == name && key_id(attributes[0].id) == id && declared_us(
        attributes[0].value,
    ) is Some {
        declared_us(attributes[0].value)
    } else {
        explicit_cycle(attributes.drop_first(), name, id)
    }
}

/// The first default of that attribute.
pub open spec fn default_of(defaults: Seq<AttributeDefault>, name: Seq<char>) -> Option<
    AttributeDefault,
>
    decreases defaults.len(),
{
    if defaults.len() == 0 {
        None
    } else if defaults[0].name@ == name {
        Some(defaults[0])
    } else {
        default_of(defaults.drop_first(), name)
    }
}

/// The cycle that the database declares for a message. `GenMsgCycleTime` goes
/// before `CycleTime`, and a value on the message before the default. A database
/// that says nothing declares nothing.
pub open spec fn declared_cycle(db: Database, id: u32) -> Option<int> {
    let first = explicit_cycle(db.message_attributes@, "GenMsgCycleTime"@, id);
    let second = explicit_cycle(db.message_attributes@, "CycleTime"@, id);
    let default = match default_of(db.attribute_defaults@, "GenMsgCycleTime"@) {
        Some(d) => Some(d),
        None => default_of(db.attribute_defaults@, "CycleTime"@),
    };
    if first is Some {
        first
    } else if second is Some {
        second
    } else {
        match default {
            Some(d) => declared_us(d.value),
            None => None,
        }
    }
}

fn find_explicit_cycle(attributes: &Vec<MessageAttribute>, name: &str, id: u32) -> (r: Option<u64>)
    ensures
        r is Some == explicit_cycle(attributes@, name@, id) is Some,
        r is Some ==> r->0 == explicit_cycle(attributes@, name@, id)->0,
{
    assert(attributes@.subrange(0, attributes@.len() as int) =~= attributes@);
    for i in 0..attributes.len()
        invariant
            explicit_cycle(attributes@, name@, id) == explicit_cycle(
                attributes@.subrange(i as int, attributes@.len() as int),
                name@,
                id,
            ),
    {
        let ghost rest = attributes@.subrange(i as int, attributes@.len() as int);
        assert(rest.drop_first() =~= attributes@.subrange(i + 1, attributes@.len() as int));
        let a: &MessageAttribute = &attributes[i];
        if text::same_text(a.name.as_str(), name) && msg_id_of(&a.id) == id {
            let us: Option<u64> = cycle_us_of(&a.value);
            if us.is_some() {
                return us;
            }
        }
    }
    None
}

fn find_default<'a>(defaults: &'a Vec<AttributeDefault>, name: &str) -> (r: Option<
    &'a AttributeDefault,
>)
    ensures
        r is Some == default_of(defaults@, name@) is Some,
        r is Some ==> *r->0 == default_of(defaults@, name@)->0,
{
    assert(defaults@.subrange(0, defaults@.len() as int) =~= defaults@);
    for i in 0..defaults.len()
        invariant
            default_of(defaults@, name@) == default_of(
                defaults@.subrange(i as int, defaults@.len() as int),
                name@,
            ),
    {
        let ghost rest = defaults@.subrange(i as int, defaults@.len() as int);
        assert(rest.drop_first() =~= defaults@.subrange(i + 1, defaults@.len() as int));
        if text::same_text(defaults[i].name.as_str(), name) {
            return Some(&defaults[i]);
        }
    }
    None
}

/// The send cycle that the database declares for a message, in microseconds.
fn declared_cycle_us(db: &Database, id: u32) -> (r: Option<u64>)
    ensures
        r is Some == declared_cycle(*db, id) is Some,
        r is Some ==> r->0 == declared_cycle(*db, id)->0,
{
    let first: Option<u64> = find_explicit_cycle(&db.message_attributes, "GenMsgCycleTime", id);
    if first.is_some() {
        return first;
    }
    let second: Option<u64> = find_explicit_cycle(&db.message_attributes, "CycleTime", id);
    if second.is_some() {
        return second;
    }
    match find_default(&db.attribute_defaults, "GenMsgCycleTime") {
        Some(d) => cycle_us_of(&d.value),
        None => match find_default(&db.attribute_defaults, "CycleTime") {
            Some(d) => cycle_us_of(&d.value),
            None => None,
        },
    }
}

pub struct SignalInfo {
    pub name: String,
    pub start_bit: u64,
    pub size: u64,
    pub big_endian: bool,
    pub signed: bool,
    /// The bit pattern of the factor.
    pub factor: u64,
    /// The bit pattern of the offset.
    pub offset: u64,
    pub min: Number,
    pub max: Number,
    pub unit: String,
    pub receivers: Vec<String>,
    /// `SIG_VALTYPE_` reinterprets the raw bits as IEEE floats; `false` means
    /// the ordinary integer reading, whose sign lives in `signed`.
    pub is_float: bool,
    /// How the type prints: `u8`/`i16` from the bit layout, `f32`/`f64` from a
    /// `SIG_VALTYPE_` line. Precomputed because every window shows it per row.
    pub type_tag: String,
    /// Conditions that must all hold for the signal to be present in a frame.
    /// Empty covers the switch signals themselves and ordinary signals.
    pub mux_when: Vec<MuxCondition>,
}

pub struct MessageInfo {
    pub name: String,
    pub dlc: u64,
    pub transmitter: String,
    /// Declared send cycle in microseconds. `Some(0)` means event-triggered --
    /// the generator must never put it on a timer. `None` means the database
    /// declares no cycle, which is not the same claim.
    pub cycle_us: Option<u64>,
    pub signals: Vec<SignalInfo>,
    /// Names of the signals some condition gates on, deduped, so a decode
    /// reads each switch's bits exactly once.
    pub switch_names: Vec<String>,
}

/// The labels of one signal's values, matching on the raw integer value. Where
/// a value stands twice, the later label counts.
pub struct ValueTable {
    pub id: u32,
    pub signal: String,
    pub labels: Vec<(i64, String)>,
}

pub struct SymbolTable {
    pub messages: HashMap<u32, MessageInfo>,
    pub order: Vec<u32>,
    pub nodes: Vec<String>,
    /// `VAL_` labels, one table for each message id and signal name. Labels
    /// referenced by a named table (`VAL_ 100 Sig TableName;`) are unreachable:
    /// the parser cannot read that form at all.
    pub value_tables: Vec<ValueTable>,
}

/// The last float declaration of the signal: its width in bits.
pub open spec fn float_width(kinds: Seq<SignalKind>, id: u32, signal: Seq<char>) -> Option<u64>
    decreases kinds.len(),
{
    if kinds.len() == 0 {
        None
    } else if key_id(kinds.last().id) == id && kinds.last().signal@ == signal
        && kinds.last().kind != ValueKind::Integer {
        if kinds.last().kind == ValueKind::Single {
            Some(32)
        } else {
            Some(64)
        }
    } else {
        float_width(kinds.drop_last(), id, signal)
    }
}

fn find_float_width(kinds: &Vec<SignalKind>, id: u32, signal: &String) -> (r: Option<u64>)
    ensures
        r == float_width(kinds@, id, signal@),
{
    let mut i: usize = kinds.len();
    assert(kinds@.subrange(0, kinds@.len() as int) =~= kinds@);
    while i > 0
        invariant
            i <= kinds@.len(),
            float_width(kinds@, id, signal@) == float_width(
                kinds@.subrange(0, i as int),
                id,
                signal@,
            ),
        decreases i,
    {
        i = i - 1;
        assert(kinds@.subrange(0, i + 1).drop_last() =~= kinds@.subrange(0, i as int));
        let k: &SignalKind = &kinds[i];
        if msg_id_of(&k.id) == id && k.signal == *signal {
            match k.kind {
                ValueKind::Single => {
                    return Some(32);
                },
                ValueKind::Double => {
                    return Some(64);
                },
                ValueKind::Integer => {},
            }
        }
    }
    None
}

/// How the type of a signal prints.
pub open spec fn type_tag_text(is_float: bool, size: u64, signed: bool) -> Seq<char> {
    if is_float && size == 32 {
        "f32"@
    } else if is_float {
        "f64"@
    } else if signed {
        "i"@ + text::decimal(size as int)
    } else {
        "u"@ + text::decimal(size as int)
    }
}

fn type_tag_of(is_float: bool, size: u64, signed: bool) -> (r: String)
    ensures
        r@ == type_tag_text(is_float, size, signed),
{
    if is_float {
        return if size == 32 { "f32".to_owned() } else { "f64".to_owned() };
    }
    let mut tag: String = if signed { "i".to_owned() } else { "u".to_owned() };
    text::push_u64(&mut tag, size);
    tag
}

/// The names other than the placeholder for "no node".
pub open spec fn named_nodes(names: Seq<String>) -> Seq<String>
    decreases names.len(),
{
    if names.len() == 0 {
        Seq::<String>::empty()
    } else if names.last()@ == "Vector__XXX"@ {
        named_nodes(names.drop_last())
    } else {
        named_nodes(names.drop_last()).push(names.last())
    }
}

fn keep_named_nodes(names: &Vec<String>) -> (r: Vec<String>)
    ensures
        r@ == named_nodes(names@),
{
    let mut r: Vec<String> = Vec::new();
    for i in 0..names.len()
        invariant
            r@ == named_nodes(names@.subrange(0, i as int)),
    {
        assert(names@.subrange(0, i + 1).drop_last() =~= names@.subrange(0, i as int));
        if !text::same_text(names[i].as_str(), "Vector__XXX") {
            r.push(names[i].clone());
        }
    }
    assert(names@.subrange(0, names@.len() as int) =~= names@);
    r
}

/// The transmitter of a message, empty where the database assigns none.
pub open spec fn transmitter_text(t: Option<String>) -> Seq<char> {
    match t {
        Some(name) => if name@ == "Vector__XXX"@ {
            ""@
        } else {
            name@
        },
        None => ""@,
    }
}

fn transmitter_of(t: &Option<String>) -> (r: String)
    ensures
        r@ == transmitter_text(*t),
{
    match t {
        Some(name) => if text::same_text(name.as_str(), "Vector__XXX") {
            "".to_owned()
        } else {
            name.clone()
        },
        None => "".to_owned(),
    }
}

/// The name of the first signal that carries the `M` marker: the switch that
/// the `m` markers of the message gate against.
pub open spec fn top_switch(signals: Seq<DbSignal>) -> Option<Seq<char>>
    decreases signals.len(),
{
    if signals.len() == 0 {
        None
    } else if signals[0].mark == MuxMark::Switch {
        Some(signals[0].layout.name@)
    } else {
        top_switch(signals.drop_first())
    }
}

fn find_top_switch(signals: &Vec<DbSignal>) -> (r: Option<String>)
    ensures
        match r {
            Some(name) => top_switch(signals@) == Some(name@),
            None => top_switch(signals@) is None,
        },
{
    assert(signals@.subrange(0, signals@.len() as int) =~= signals@);
    for i in 0..signals.len()
        invariant
            top_switch(signals@) == top_switch(
                signals@.subrange(i as int, signals@.len() as int),
            ),
    {
        let ghost rest = signals@.subrange(i as int, signals@.len() as int);
        assert(rest.drop_first() =~= signals@.subrange(i + 1, signals@.len() as int));
        if signals[i].mark == MuxMark::Switch {
            return Some(signals[i].layout.name.clone());
        }
    }
    None
}

/// The `SG_MUL_VAL_` line is about that signal of that message.
pub open spec fn states_gate(e: ExtendedMux, id: u32, signal: Seq<char>) -> bool {
    key_id(e.id) == id && e.signal@ == signal
}

/// Some `SG_MUL_VAL_` line is about the signal.
pub open spec fn has_extended(lines: Seq<ExtendedMux>, id: u32, signal: Seq<char>) -> bool {
    exists|e: int| 0 <= e < lines.len() && #[trigger] states_gate(lines[e], id, signal)
}

/// The group that an `m` marker names.
pub open spec fn marked_group(mark: MuxMark) -> Option<u64> {
    match mark {
        MuxMark::Group(g) => Some(g),
        MuxMark::SwitchInGroup(g) => Some(g),
        _ => None,
    }
}

/// The signal itself is gated on the switch `w`. A `SG_MUL_VAL_` line supersedes
/// whatever the signal's own `m` marker says.
pub open spec fn gated_on(
    lines: Seq<ExtendedMux>,
    id: u32,
    signals: Seq<DbSignal>,
    k: int,
    w: Seq<char>,
) -> bool {
    let name = signals[k].layout.name@;
    if has_extended(lines, id, name) {
        exists|e: int|
            0 <= e < lines.len() && #[trigger] states_gate(lines[e], id, name)
                && lines[e].switch@ == w
    } else {
        marked_group(signals[k].mark) is Some && top_switch(signals) == Some(w)
    }
}

/// The signal itself is shown by the switch `w` with a value in the range `r`.
pub open spec fn shown_by(
    lines: Seq<ExtendedMux>,
    id: u32,
    signals: Seq<DbSignal>,
    k: int,
    w: Seq<char>,
    r: (u64, u64),
) -> bool {
    let name = signals[k].layout.name@;
    if has_extended(lines, id, name) {
        exists|e: int|
            0 <= e < lines.len() && #[trigger] states_gate(lines[e], id, name)
                && lines[e].switch@ == w && lines[e].ranges@.contains(r)
    } else {
        match marked_group(signals[k].mark) {
            Some(g) => top_switch(signals) == Some(w) && r == (g, g),
            None => false,
        }
    }
}

/// `when` states the signal's own conditions.
pub open spec fn is_own(
    when: Seq<MuxCondition>,
    lines: Seq<ExtendedMux>,
    id: u32,
    signals: Seq<DbSignal>,
    k: int,
) -> bool {
    &&& mux::distinct_switches(when)
    &&& forall|w: Seq<char>| #[trigger]
        mux::has_switch(when, w) == gated_on(lines, id, signals, k, w)
    &&& forall|w: Seq<char>, r: (u64, u64)| #[trigger]
        mux::has_range(when, w, r) == shown_by(lines, id, signals, k, w, r)
}

/// `gates` states the own conditions of every signal of the message.
pub open spec fn are_gates(
    gates: Seq<SignalGate>,
    lines: Seq<ExtendedMux>,
    id: u32,
    signals: Seq<DbSignal>,
) -> bool {
    &&& gates.len() == signals.len()
    &&& forall|k: int|
        0 <= k < gates.len() ==> (#[trigger] gates[k]).name@ == signals[k].layout.name@ && is_own(
            gates[k].when@,
            lines,
            id,
            signals,
            k,
        )
}

fn own_conditions(
    lines: &Vec<ExtendedMux>,
    id: u32,
    signals: &Vec<DbSignal>,
    k: usize,
    top: &Option<String>,
) -> (when: Vec<MuxCondition>)
    requires
        k < signals@.len(),
        match *top {
            Some(name) => top_switch(signals@) == Some(name@),
            None => top_switch(signals@) is None,
        },
    ensures
        is_own(when@, lines@, id, signals@, k as int),
{
    let mut when: Vec<MuxCondition> = Vec::new();
    let ghost name: Seq<char> = signals@[k as int].layout.name@;
    let mut stated: bool = false;
    for e in 0..lines.len()
        invariant
            k < signals@.len(),
            name == signals@[k as int].layout.name@,
            mux::distinct_switches(when@),
            stated == exists|j: int| 0 <= j < e && #[trigger] states_gate(lines@[j], id, name),
            forall|w: Seq<char>| #[trigger]
                mux::has_switch(when@, w) == exists|j: int|
                    0 <= j < e && #[trigger] states_gate(lines@[j], id, name) && lines@[j].switch@
                        == w,
            forall|w: Seq<char>, r: (u64, u64)| #[trigger]
                mux::has_range(when@, w, r) == exists|j: int|
                    0 <= j < e && #[trigger] states_gate(lines@[j], id, name) && lines@[j].switch@
                        == w && lines@[j].ranges@.contains(r),
    {
        let line: &ExtendedMux = &lines[e];
        let ghost before: Seq<MuxCondition> = when@;
        let about: bool = msg_id_of(&line.id) == id && line.signal == signals[k].layout.name;
        assert(about == states_gate(lines@[e as int], id, name));
        if about {
            stated = true;
            mux::merge_condition(&mut when, &line.switch, &line.ranges);
            assert forall|w: Seq<char>| #[trigger] mux::has_switch(when@, w) == exists|j: int|
                0 <= j < e + 1 && #[trigger] states_gate(lines@[j], id, name) && lines@[j].switch@
                    == w by {
                if mux::has_switch(before, w) {
                    let j = choose|j: int|
                        0 <= j < e && #[trigger] states_gate(lines@[j], id, name)
                            && lines@[j].switch@ == w;
                    assert(states_gate(lines@[j], id, name));
                }
            }
            assert forall|w: Seq<char>, r: (u64, u64)| #[trigger] mux::has_range(when@, w, r)
                == exists|j: int|
                0 <= j < e + 1 && #[trigger] states_gate(lines@[j], id, name) && lines@[j].switch@
                    == w && lines@[j].ranges@.contains(r) by {
                if mux::has_range(before, w, r) {
                    let j = choose|j: int|
                        0 <= j < e && #[trigger] states_gate(lines@[j], id, name)
                            && lines@[j].switch@ == w && lines@[j].ranges@.contains(r);
                    assert(states_gate(lines@[j], id, name));
                }
            }
        }
    }
    if stated {
        return when;
    }
    assert(forall|w: Seq<char>| !mux::has_switch(when@, w));
    assert(forall|w: Seq<char>, r: (u64, u64)| !mux::has_range(when@, w, r));
    let group: Option<u64> = match signals[k].mark {
        MuxMark::Group(g) => Some(g),
        MuxMark::SwitchInGroup(g) => Some(g),
        _ => None,
    };
    if let (Some(g), Some(switch)) = (group, top) {
        let ghost before: Seq<MuxCondition> = when@;
        let ranges: Vec<(u64, u64)> = vec![(g, g)];
        mux::merge_condition(&mut when, switch, &ranges);
        proof {
            assert forall|r: (u64, u64)| ranges@.contains(r) == (r == (g, g)) by {
                assert(ranges@ =~= seq![(g, g)]);
                if r == (g, g) {
                    assert(ranges@[0] == r);
                }
            }
        }
    }
    when
}

fn gates_of(lines: &Vec<ExtendedMux>, id: u32, signals: &Vec<DbSignal>) -> (gates: Vec<SignalGate>)
    ensures
        are_gates(gates@, lines@, id, signals@),
{
    let top: Option<String> = find_top_switch(signals);
    let mut gates: Vec<SignalGate> = Vec::new();
    for k in 0..signals.len()
        invariant
            match top {
                Some(name) => top_switch(signals@) == Some(name@),
                None => top_switch(signals@) is None,
            },
            gates@.len() == k,
            forall|j: int|
                0 <= j < k ==> (#[trigger] gates@[j]).name@ == signals@[j].layout.name@ && is_own(
                    gates@[j].when@,
                    lines@,
                    id,
                    signals@,
                    j,
                ),
    {
        let when: Vec<MuxCondition> = own_conditions(lines, id, signals, k, &top);
        gates.push(SignalGate { name: signals[k].layout.name.clone(), when });
    }
    gates
}

/// The conditions of signal `k` are its own together with those of every switch
/// above it.
pub open spec fn is_gated(
    when: Seq<MuxCondition>,
    lines: Seq<ExtendedMux>,
    id: u32,
    signals: Seq<DbSignal>,
    k: int,
) -> bool {
    exists|gates: Seq<SignalGate>| #[trigger]
        are_gates(gates, lines, id, signals) && mux::is_merged(gates, gates[k].when@, when)
}

/// `info` is what the database says of signal `k` of the message.
pub open spec fn is_signal_info(info: SignalInfo, db: Database, m: DbMessage, k: int) -> bool {
    let s = m.signals@[k];
    let id = key_id(m.head.id);
    &&& info.name == s.layout.name
    &&& info.start_bit == s.layout.start_bit
    &&& info.size == s.layout.size
    &&& info.big_endian == s.layout.big_endian
    &&& info.signed == s.layout.signed
    &&& info.factor == s.layout.factor
    &&& info.offset == s.layout.offset
    &&& info.min == s.range.0
    &&& info.max == s.range.1
    &&& info.unit == s.layout.unit
    &&& info.receivers@ == named_nodes(
        s.layout.receivers@,
    )
    // A float declaration whose width disagrees with the signal's own size does
    // not count.
    &&& info.is_float == (float_width(db.signal_kinds@, id, s.layout.name@) == Some(s.layout.size))
    &&& info.type_tag@ == type_tag_text(info.is_float, s.layout.size, s.layout.signed)
    &&& is_gated(info.mux_when@, db.extended_mux@, id, m.signals@, k)
}

/// `info` is what the database says of the message.
pub open spec fn is_message_info(info: MessageInfo, db: Database, m: DbMessage) -> bool {
    let cycle = declared_cycle(db, key_id(m.head.id));
    &&& info.name == m.head.name
    &&& info.dlc == m.head.size
    &&& info.transmitter@ == transmitter_text(m.head.transmitter)
    &&& info.cycle_us is Some == cycle is Some
    &&& info.cycle_us is Some ==> info.cycle_us->0 == cycle->0
    &&& info.signals@.len() == m.signals@.len()
    &&& forall|k: int|
        0 <= k < info.signals@.len() ==> is_signal_info(#[trigger] info.signals@[k], db, m, k)
    &&& text::strictly_sorted(info.switch_names@)
    &&& forall|w: Seq<char>| #[trigger]
        text::lists(info.switch_names@, w) == some_gate_on(info.signals@, w)
}

/// Some signal is gated on the switch `w`.
pub open spec fn some_gate_on(signals: Seq<SignalInfo>, w: Seq<char>) -> bool {
    exists|k: int| 0 <= k < signals.len() && mux::has_switch(#[trigger] signals[k].mux_when@, w)
}

fn signal_info(db: &Database, m: &DbMessage, k: usize, gates: &Vec<SignalGate>) -> (info: SignalInfo)
    requires
        k < m.signals@.len(),
        are_gates(gates@, db.extended_mux@, key_id(m.head.id), m.signals@),
    ensures
        is_signal_info(info, *db, *m, k as int),
{
    let s: &DbSignal = &m.signals[k];
    let id: u32 = msg_id_of(&m.head.id);
    let is_float: bool = match find_float_width(&db.signal_kinds, id, &s.layout.name) {
        Some(width) => width == s.layout.size,
        None => false,
    };
    let mux_when: Vec<MuxCondition> = mux::inherit_conditions(gates, &gates[k].when);
    SignalInfo {
        name: s.layout.name.clone(),
        start_bit: s.layout.start_bit,
        size: s.layout.size,
        big_endian: s.layout.big_endian,
        signed: s.layout.signed,
        factor: s.layout.factor,
        offset: s.layout.offset,
        min: s.range.0,
        max: s.range.1,
        unit: s.layout.unit.clone(),
        receivers: keep_named_nodes(&s.layout.receivers),
        is_float,
        type_tag: type_tag_of(is_float, s.layout.size, s.layout.signed),
        mux_when,
    }
}

fn switch_names_of(signals: &Vec<SignalInfo>) -> (names: Vec<String>)
    ensures
        text::strictly_sorted(names@),
        forall|w: Seq<char>| #[trigger] text::lists(names@, w) == some_gate_on(signals@, w),
{
    let mut names: Vec<String> = Vec::new();
    assert forall|w: Seq<char>| #[trigger] text::lists(names@, w) == some_gate_on(
        signals@.subrange(0, 0),
        w,
    ) by {}
    for k in 0..signals.len()
        invariant
            text::strictly_sorted(names@),
            forall|w: Seq<char>| #[trigger]
                text::lists(names@, w) == some_gate_on(signals@.subrange(0, k as int), w),
    {
        let when: &Vec<MuxCondition> = &signals[k].mux_when;
        let ghost outer: Seq<String> = names@;
        for i in 0..when.len()
            invariant
                text::strictly_sorted(names@),
                forall|w: Seq<char>| #[trigger]
                    text::lists(names@, w) == (text::lists(outer, w) || exists|j: int|
                        0 <= j < i && #[trigger] when@[j].switch@ == w),
        {
            let ghost inner: Seq<String> = names@;
            text::insert_sorted(&mut names, &when[i].switch);
            assert forall|w: Seq<char>| #[trigger] text::lists(names@, w) == (text::lists(outer, w)
                || exists|j: int| 0 <= j < i + 1 && #[trigger] when@[j].switch@ == w) by {
                assert(text::lists(names@, w) == (text::lists(inner, w) || w
                    == when@[i as int].switch@));
                if text::lists(inner, w) && !text::lists(outer, w) {
                    let j = choose|j: int| 0 <= j < i && #[trigger] when@[j].switch@ == w;
                    assert(0 <= j < i + 1 && when@[j].switch@ == w);
                }
            }
        }
        proof {
            let upto = signals@.subrange(0, k as int);
            let next = signals@.subrange(0, k + 1);
            assert forall|w: Seq<char>| #[trigger] text::lists(names@, w) == some_gate_on(next, w) by {
                assert(text::lists(outer, w) == some_gate_on(upto, w));
                if some_gate_on(upto, w) {
                    let j = choose|j: int|
                        0 <= j < upto.len() && mux::has_switch(#[trigger] upto[j].mux_when@, w);
                    assert(mux::has_switch(next[j].mux_when@, w));
                }
                if mux::has_switch(when@, w) {
                    assert(mux::has_switch(next[k as int].mux_when@, w));
                }
                if some_gate_on(next, w) {
                    let j = choose|j: int|
                        0 <= j < next.len() && mux::has_switch(#[trigger] next[j].mux_when@, w);
                    if j < k {
                        assert(mux::has_switch(upto[j].mux_when@, w));
                    }
                }
            }
        }
    }
    assert(signals@.subrange(0, signals@.len() as int) =~= signals@);
    names
}

fn message_info(db: &Database, m: &DbMessage) -> (info: MessageInfo)
    ensures
        is_message_info(info, *db, *m),
{
    let id: u32 = msg_id_of(&m.head.id);
    let gates: Vec<SignalGate> = gates_of(&db.extended_mux, id, &m.signals);
    let mut signals: Vec<SignalInfo> = Vec::new();
    for k in 0..m.signals.len()
        invariant
            are_gates(gates@, db.extended_mux@, key_id(m.head.id), m.signals@),
            signals@.len() == k,
            forall|j: int| 0 <= j < k ==> is_signal_info(#[trigger] signals@[j], *db, *m, j),
    {
        signals.push(signal_info(db, m, k, &gates));
    }
    let switch_names: Vec<String> = switch_names_of(&signals);
    MessageInfo {
        name: m.head.name.clone(),
        dlc: m.head.size,
        transmitter: transmitter_of(&m.head.transmitter),
        cycle_us: declared_cycle_us(db, id),
        signals,
        switch_names,
    }
}

/// The index of the last message with that id, or -1.
pub open spec fn last_message(messages: Seq<DbMessage>, id: u32) -> int
    decreases messages.len(),
{
    if messages.len() == 0 {
        -1
    } else if key_id(messages.last().head.id) == id {
        messages.len() - 1
    } else {
        last_message(messages.drop_last(), id)
    }
}

proof fn lemma_last_message(messages: Seq<DbMessage>, id: u32)
    ensures
        -1 <= last_message(messages, id) < messages.len(),
    decreases messages.len(),
{
    if messages.len() > 0 && key_id(messages.last().head.id) != id {
        lemma_last_message(messages.drop_last(), id);
    }
}

/// Every number stands once, in ascending order.
pub open spec fn ascending(ids: Seq<u32>) -> bool {
    forall|i: int, j: int| 0 <= i < j < ids.len() ==> ids[i] < ids[j]
}

/// Adds a number to an ascending list that does not hold it yet.
pub(crate) fn insert_ascending(ids: &mut Vec<u32>, id: u32)
    requires
        ascending(old(ids)@),
    ensures
        ascending(final(ids)@),
        forall|x: u32| #[trigger] final(ids)@.contains(x) == (old(ids)@.contains(x) || x == id),
{
    let ghost before: Seq<u32> = ids@;
    let mut at: usize = 0;
    while at < ids.len() && ids[at] < id
        invariant
            ids@ == before,
            at <= ids@.len(),
            forall|j: int| 0 <= j < at ==> before[j] < id,
        decreases ids.len() - at,
    {
        at = at + 1;
    }
    if at < ids.len() && ids[at] == id {
        assert(before.contains(id));
        return;
    }
    ids.insert(at, id);
    proof {
        let after = ids@;
        assert(after == before.insert(at as int, id));
        assert forall|x: u32| #[trigger] after.contains(x) == (before.contains(x) || x == id) by {
            if before.contains(x) {
                let i = choose|i: int| 0 <= i < before.len() && before[i] == x;
                if i < at {
                    assert(after[i] == x);
                } else {
                    assert(after[i + 1] == x);
                }
            }
            assert(after[at as int] == id);
            if after.contains(x) {
                let i = choose|i: int| 0 <= i < after.len() && after[i] == x;
                if i < at {
                    assert(before[i] == x);
                } else if i > at {
                    assert(before[i - 1] == x);
                }
            }
        }
    }
}

/// The labels that the database states for a signal's values, in order.
pub open spec fn stated_labels(
    lines: Seq<ValueLabels>,
    id: u32,
    signal: Seq<char>,
) -> Seq<(i64, String)>
    decreases lines.len(),
{
    if lines.len() == 0 {
        Seq::<(i64, String)>::empty()
    } else {
        let rest = stated_labels(lines.drop_last(), id, signal);
        match lines.last() {
            ValueLabels::Signal { id: key, signal: name, labels } => if key_id(key) == id && name@
                == signal {
                rest + labels@
            } else {
                rest
            },
            ValueLabels::EnvironmentVariable { name } => rest,
        }
    }
}

/// The index of the table of that signal, or -1.
pub open spec fn table_index(tables: Seq<ValueTable>, id: u32, signal: Seq<char>) -> int
    decreases tables.len(),
{
    if tables.len() == 0 {
        -1
    } else if tables.last().id == id && tables.last().signal@ == signal {
        tables.len() - 1
    } else {
        table_index(tables.drop_last(), id, signal)
    }
}

/// The labels that the tables hold for a signal's values.
pub open spec fn labels_of(tables: Seq<ValueTable>, id: u32, signal: Seq<char>) -> Seq<
    (i64, String),
> {
    let k = table_index(tables, id, signal);
    if 0 <= k < tables.len() {
        tables[k].labels@
    } else {
        Seq::<(i64, String)>::empty()
    }
}

proof fn lemma_table_index(tables: Seq<ValueTable>, id: u32, signal: Seq<char>)
    ensures
        -1 <= table_index(tables, id, signal) < tables.len(),
        table_index(tables, id, signal) >= 0 ==> tables[table_index(tables, id, signal)].id == id
            && tables[table_index(tables, id, signal)].signal@ == signal,
    decreases tables.len(),
{
    if tables.len() > 0 && !(tables.last().id == id && tables.last().signal@ == signal) {
        lemma_table_index(tables.drop_last(), id, signal);
    }
}

/// Tables with the same ids and names have the same index for a signal.
proof fn lemma_table_index_same(
    a: Seq<ValueTable>,
    b: Seq<ValueTable>,
    id: u32,
    signal: Seq<char>,
)
    requires
        a.len() == b.len(),
        forall|i: int|
            0 <= i < a.len() ==> (#[trigger] a[i]).id == b[i].id && a[i].signal@ == b[i].signal@,
    ensures
        table_index(a, id, signal) == table_index(b, id, signal),
    decreases a.len(),
{
    if a.len() > 0 {
        assert(a.last().id == b.last().id);
        assert forall|i: int| 0 <= i < a.drop_last().len() implies (#[trigger] a.drop_last()[i]).id
            == b.drop_last()[i].id && a.drop_last()[i].signal@ == b.drop_last()[i].signal@ by {
            assert(a[i].id == b[i].id);
        }
        lemma_table_index_same(a.drop_last(), b.drop_last(), id, signal);
    }
}

fn find_table(tables: &Vec<ValueTable>, id: u32, signal: &str) -> (r: Option<usize>)
    ensures
        match r {
            Some(k) => table_index(tables@, id, signal@) == k && k < tables@.len(),
            None => table_index(tables@, id, signal@) == -1,
        },
{
    let mut i: usize = tables.len();
    assert(tables@.subrange(0, tables@.len() as int) =~= tables@);
    while i > 0
        invariant
            i <= tables@.len(),
            table_index(tables@, id, signal@) == table_index(
                tables@.subrange(0, i as int),
                id,
                signal@,
            ),
        decreases i,
    {
        i = i - 1;
        assert(tables@.subrange(0, i + 1).drop_last() =~= tables@.subrange(0, i as int));
        if tables[i].id == id && text::same_text(tables[i].signal.as_str(), signal) {
            return Some(i);
        }
    }
    None
}

fn join_labels(own: &Vec<(i64, String)>, more: &Vec<(i64, String)>) -> (r: Vec<(i64, String)>)
    ensures
        r@ == own@ + more@,
{
    let mut r: Vec<(i64, String)> = Vec::new();
    for i in 0..own.len()
        invariant
            r@ == own@.subrange(0, i as int),
    {
        r.push((own[i].0, own[i].1.clone()));
        assert(r@ =~= own@.subrange(0, i + 1));
    }
    assert(r@ =~= own@);
    for i in 0..more.len()
        invariant
            r@ == own@ + more@.subrange(0, i as int),
    {
        r.push((more[i].0, more[i].1.clone()));
        assert(r@ =~= own@ + more@.subrange(0, i + 1));
    }
    assert(r@ =~= own@ + more@);
    r
}

fn add_labels(tables: &mut Vec<ValueTable>, id: u32, signal: &String, labels: &Vec<(i64, String)>)
    ensures
        forall|i: u32, n: Seq<char>| #[trigger]
            labels_of(final(tables)@, i, n) == (if i == id && n == signal@ {
                labels_of(old(tables)@, i, n) + labels@
            } else {
                labels_of(old(tables)@, i, n)
            }),
{
    let ghost before: Seq<ValueTable> = tables@;
    match find_table(tables, id, signal.as_str()) {
        Some(k) => {
            proof {
                lemma_table_index(before, id, signal@);
            }
            let joined: Vec<(i64, String)> = join_labels(&tables[k].labels, labels);
            let entry: ValueTable = ValueTable { id, signal: signal.clone(), labels: joined };
            tables.set(k, entry);
            proof {
                let after = tables@;
                assert(after == before.update(k as int, entry));
                assert forall|i: u32, n: Seq<char>| #[trigger] labels_of(after, i, n) == (if i == id
                    && n == signal@ {
                    labels_of(before, i, n) + labels@
                } else {
                    labels_of(before, i, n)
                }) by {
                    lemma_table_index_same(after, before, i, n);
                    lemma_table_index(before, i, n);
                }
            }
        },
        None => {
            let empty: Vec<(i64, String)> = Vec::new();
            let entry: ValueTable = ValueTable {
                id,
                signal: signal.clone(),
                labels: join_labels(&empty, labels),
            };
            tables.push(entry);
            proof {
                let after = tables@;
                assert(after.drop_last() =~= before);
                assert(empty@ + labels@ =~= labels@);
                assert forall|i: u32, n: Seq<char>| #[trigger] labels_of(after, i, n) == (if i == id
                    && n == signal@ {
                    labels_of(before, i, n) + labels@
                } else {
                    labels_of(before, i, n)
                }) by {
                    lemma_table_index(before, i, n);
                    if i == id && n == signal@ {
                        assert(labels_of(before, i, n) + labels@ =~= labels@);
                    }
                }
            }
        },
    }
}

fn value_tables_of(lines: &Vec<ValueLabels>) -> (tables: Vec<ValueTable>)
    ensures
        forall|id: u32, signal: Seq<char>| #[trigger]
            labels_of(tables@, id, signal) == stated_labels(lines@, id, signal),
{
    let mut tables: Vec<ValueTable> = Vec::new();
    for i in 0..lines.len()
        invariant
            forall|id: u32, signal: Seq<char>| #[trigger]
                labels_of(tables@, id, signal) == stated_labels(
                    lines@.subrange(0, i as int),
                    id,
                    signal,
                ),
    {
        assert(lines@.subrange(0, i + 1).drop_last() =~= lines@.subrange(0, i as int));
        let ghost before: Seq<ValueTable> = tables@;
        match &lines[i] {
            ValueLabels::Signal { id, signal, labels } => {
                add_labels(&mut tables, msg_id_of(id), signal, labels);
            },
            ValueLabels::EnvironmentVariable { name } => {},
        }
        assert forall|id: u32, signal: Seq<char>| #[trigger] labels_of(tables@, id, signal)
            == stated_labels(lines@.subrange(0, i + 1), id, signal) by {
            assert(labels_of(before, id, signal) == stated_labels(
                lines@.subrange(0, i as int),
                id,
                signal,
            ));
        }
    }
    assert(lines@.subrange(0, lines@.len() as int) =~= lines@);
    tables
}

impl SymbolTable {
    /// The table says what the database says. A message id that stands twice is
    /// described by its last line.
    pub open spec fn is_of(self, db: Database) -> bool {
        &&& forall|id: u32| #[trigger]
            self.messages@.contains_key(id) == (last_message(db.messages@, id) >= 0)
        &&& forall|id: u32| #[trigger]
            self.messages@.contains_key(id) ==> is_message_info(
                self.messages@[id],
                db,
                db.messages@[last_message(db.messages@, id)],
            )
        &&& ascending(self.order@)
        &&& forall|id: u32| #[trigger]
            self.order@.contains(id) == (last_message(db.messages@, id) >= 0)
        &&& self.nodes@ == db.nodes@
        &&& forall|id: u32, signal: Seq<char>| #[trigger]
            labels_of(self.value_tables@, id, signal) == stated_labels(
                db.value_labels@,
                id,
                signal,
            )
    }

    /// The table says what the parsed file says.
    pub open spec fn is_read_from(self, file: can_dbc::Dbc) -> bool {
        exists|db: Database| self.is_of(db) && #[trigger] db.is_from(file)
    }

    pub fn from_dbc(db: &Database) -> (table: SymbolTable)
        ensures
            table.is_of(*db),
    {
        let mut messages: HashMap<u32, MessageInfo> = HashMap::new();
        let mut order: Vec<u32> = Vec::new();
        for k in 0..db.messages.len()
            invariant
                ascending(order@),
                forall|id: u32| #[trigger]
                    messages@.contains_key(id) == (last_message(
                        db.messages@.subrange(0, k as int),
                        id,
                    ) >= 0),
                forall|id: u32| #[trigger]
                    messages@.contains_key(id) ==> is_message_info(
                        messages@[id],
                        *db,
                        db.messages@[last_message(db.messages@.subrange(0, k as int), id)],
                    ),
                forall|id: u32| #[trigger]
                    order@.contains(id) == (last_message(db.messages@.subrange(0, k as int), id)
                        >= 0),
        {
            let ghost upto = db.messages@.subrange(0, k as int);
            let ghost next = db.messages@.subrange(0, k + 1);
            assert(next.drop_last() =~= upto);
            let id: u32 = msg_id_of(&db.messages[k].head.id);
            let info: MessageInfo = message_info(db, &db.messages[k]);
            messages.insert(id, info);
            insert_ascending(&mut order, id);
            assert forall|i: u32| last_message(upto, i) < upto.len() by {
                lemma_last_message(upto, i);
            }
        }
        assert(db.messages@.subrange(0, db.messages@.len() as int) =~= db.messages@);
        SymbolTable {
            messages,
            order,
            nodes: text::copy_names(&db.nodes),
            value_tables: value_tables_of(&db.value_labels),
        }
    }
}

/// What a DBC text loads as: the table of the parsed file, or the parser's error.
pub open spec fn is_loaded(content: Seq<char>, r: Result<SymbolTable, String>) -> bool {
    &&& r is Ok == dbc_source::parsed_dbc(content) is Ok
    &&& r matches Ok(table) ==> table.is_read_from(dbc_source::parsed_dbc(content)->Ok_0)
    &&& r matches Err(e) ==> e@ == "parse error: "@ + dbc_source::parsed_dbc(content)->Err_0
}

/// Reads a DBC text into a symbol table.
pub fn load_dbc_str(content: &str) -> (r: Result<SymbolTable, String>)
    ensures
        is_loaded(content@, r),
{
    match read_database(content) {
        Ok(db) => {
            let table: SymbolTable = SymbolTable::from_dbc(&db);
            proof {
                let file = dbc_source::parsed_dbc(content@)->Ok_0;
                assert(table.is_of(db) && db.is_from(file));
            }
            Ok(table)
        },
        Err(e) => {
            let mut message: String = "parse error: ".to_owned();
            message.append(e.as_str());
            Err(message)
        },
    }
}

/// The index of the first signal of that name, or -1.
pub open spec fn signal_index(signals: Seq<SignalInfo>, name: Seq<char>) -> int {
    signal_index_from(signals, name, 0)
}

/// The index of the first signal of that name at `from` or later, or -1.
pub open spec fn signal_index_from(signals: Seq<SignalInfo>, name: Seq<char>, from: int) -> int
    decreases signals.len() - from,
{
    if from < 0 || from >= signals.len() {
        -1
    } else if signals[from].name@ == name {
        from
    } else {
        signal_index_from(signals, name, from + 1)
    }
}

fn find_signal(signals: &Vec<SignalInfo>, name: &str) -> (r: Option<usize>)
    ensures
        match r {
            Some(k) => signal_index(signals@, name@) == k && k < signals@.len()
                && signals@[k as int].name@ == name@,
            None => signal_index(signals@, name@) == -1,
        },
{
    for i in 0..signals.len()
        invariant
            signal_index(signals@, name@) == signal_index_from(signals@, name@, i as int),
    {
        if text::same_text(signals[i].name.as_str(), name) {
            return Some(i);
        }
    }
    None
}

/// The signal's raw bits in the payload.
pub open spec fn signal_bits(s: SignalInfo, payload: Seq<u8>) -> u64 {
    decode::field_value(payload, s.start_bit, s.size, s.big_endian)
}

/// The integer that the signal's bits read as: sign-extended for a signed one,
/// and passed through a double.
pub open spec fn signal_integer(s: SignalInfo, payload: Seq<u8>) -> int {
    decode::through_double(decode::raw_integer(signal_bits(s, payload), s.size, s.signed))
}

/// The value of the switch `w` as a bit pattern, so that a negative reading
/// falls into no range that a database can express; `None` where the message
/// lists no such switch or has no such signal.
pub open spec fn switch_value(m: MessageInfo, payload: Seq<u8>, w: Seq<char>) -> Option<int> {
    let k = signal_index(m.signals@, w);
    if text::lists(m.switch_names@, w) && 0 <= k < m.signals@.len() {
        Some(decode::twos_complement(signal_integer(m.signals@[k], payload), 64))
    } else {
        None
    }
}

/// Some inclusive range holds the value.
pub open spec fn in_ranges(ranges: Seq<(u64, u64)>, v: int) -> bool {
    exists|j: int| 0 <= j < ranges.len() && (#[trigger] ranges[j]).0 <= v <= ranges[j].1
}

/// The condition lets the signal be seen. One that names a switch which the
/// message does not carry is taken as satisfied, so that a broken database
/// still shows data.
pub open spec fn condition_holds(c: MuxCondition, m: MessageInfo, payload: Seq<u8>) -> bool {
    match switch_value(m, payload, c.switch@) {
        Some(v) => in_ranges(c.ranges@, v),
        None => true,
    }
}

/// Every condition on the signal holds.
pub open spec fn is_present(s: SignalInfo, m: MessageInfo, payload: Seq<u8>) -> bool {
    forall|i: int|
        0 <= i < s.mux_when@.len() ==> condition_holds(#[trigger] s.mux_when@[i], m, payload)
}

/// The indices of the first `n` signals that are present, in order.
pub open spec fn present_signals(m: MessageInfo, payload: Seq<u8>, n: int) -> Seq<int>
    decreases n,
{
    if n <= 0 {
        Seq::<int>::empty()
    } else if is_present(m.signals@[n - 1], m, payload) {
        present_signals(m, payload, n - 1).push(n - 1)
    } else {
        present_signals(m, payload, n - 1)
    }
}

/// The label of a value: the last one stated for it.
pub open spec fn label_for(labels: Seq<(i64, String)>, value: int) -> Option<String>
    decreases labels.len(),
{
    if labels.len() == 0 {
        None
    } else if labels.last().0 == value {
        Some(labels.last().1)
    } else {
        label_for(labels.drop_last(), value)
    }
}

/// A signal's value before the factor and the offset touch it: an integer, or
/// the bit pattern of a float.
#[derive(Clone, Copy, Debug, PartialEq, Eq, Structural)]
pub enum RawValue {
    Integer(i128),
    Single(u32),
    Double(u64),
}

/// One decoded signal: the value the wire carried with the factor and offset
/// that scale it, and where the database gives one, the label for this value,
/// and the type tag the windows print with it.
pub struct DecodedSignal {
    pub name: String,
    pub value: RawValue,
    /// The bit pattern of the factor.
    pub factor: u64,
    /// The bit pattern of the offset.
    pub offset: u64,
    /// The raw integer, sign-extended for signed signals; the bits themselves for
    /// a float.
    pub raw: i64,
    pub unit: String,
    pub type_tag: String,
    pub label: Option<String>,
}

/// `d` is what the signal decodes to.
pub open spec fn decoded_signal(
    s: SignalInfo,
    payload: Seq<u8>,
    labels: Seq<(i64, String)>,
) -> DecodedSignal {
    let bits = signal_bits(s, payload);
    DecodedSignal {
        name: s.name,
        value: if s.is_float && s.size == 32 {
            RawValue::Single(bits as u32)
        } else if s.is_float && s.size == 64 {
            RawValue::Double(bits)
        } else {
            RawValue::Integer(decode::raw_integer(bits, s.size, s.signed) as i128)
        },
        factor: s.factor,
        offset: s.offset,
        raw: if s.is_float {
            bits as i64
        } else {
            signal_integer(s, payload) as i64
        },
        unit: s.unit,
        type_tag: s.type_tag,
        label: if s.is_float {
            None
        } else {
            label_for(labels, signal_integer(s, payload))
        },
    }
}

/// `d` is what the signal decodes to.
pub open spec fn is_decoded(
    d: DecodedSignal,
    s: SignalInfo,
    payload: Seq<u8>,
    labels: Seq<(i64, String)>,
) -> bool {
    let bits = signal_bits(s, payload);
    &&& d.name == s.name
    &&& d.unit == s.unit
    &&& d.type_tag == s.type_tag
    &&& d.factor == s.factor
    &&& d.offset == s.offset
    &&& d.value == (if s.is_float && s.size == 32 {
        RawValue::Single(bits as u32)
    } else if s.is_float && s.size == 64 {
        RawValue::Double(bits)
    } else {
        RawValue::Integer(decode::raw_integer(bits, s.size, s.signed) as i128)
    })
    &&& s.is_float ==> d.raw == bits as i64 && d.label is None
    &&& !s.is_float ==> d.raw == signal_integer(s, payload) && d.label == label_for(
        labels,
        signal_integer(s, payload),
    )
}

fn find_label(labels: &Vec<(i64, String)>, value: i64) -> (r: Option<String>)
    ensures
        r == label_for(labels@, value as int),
{
    let mut i: usize = labels.len();
    assert(labels@.subrange(0, labels@.len() as int) =~= labels@);
    while i > 0
        invariant
            i <= labels@.len(),
            label_for(labels@, value as int) == label_for(
                labels@.subrange(0, i as int),
                value as int,
            ),
        decreases i,
    {
        i = i - 1;
        assert(labels@.subrange(0, i + 1).drop_last() =~= labels@.subrange(0, i as int));
        if labels[i].0 == value {
            return Some(labels[i].1.clone());
        }
    }
    None
}

fn integer_of(s: &SignalInfo, payload: &[u8]) -> (r: i64)
    ensures
        r == signal_integer(*s, payload@),
{
    let bits: u64 = decode::extract_raw(payload, s.start_bit, s.size, s.big_endian);
    decode::read_through_double(decode::signed_value(bits, s.size, s.signed))
}

/// The values of the message's switches, each read once.
fn read_switches(m: &MessageInfo, payload: &[u8]) -> (r: Vec<Option<u64>>)
    ensures
        r@.len() == m.switch_names@.len(),
        forall|i: int|
            0 <= i < r@.len() ==> match #[trigger] r@[i] {
                Some(v) => switch_value(*m, payload@, m.switch_names@[i]@) == Some(v as int),
                None => switch_value(*m, payload@, m.switch_names@[i]@) is None,
            },
{
    let mut r: Vec<Option<u64>> = Vec::new();
    for i in 0..m.switch_names.len()
        invariant
            r@.len() == i,
            forall|j: int|
                0 <= j < i ==> match #[trigger] r@[j] {
                    Some(v) => switch_value(*m, payload@, m.switch_names@[j]@) == Some(v as int),
                    None => switch_value(*m, payload@, m.switch_names@[j]@) is None,
                },
    {
        assert(text::lists(m.switch_names@, m.switch_names@[i as int]@));
        match find_signal(&m.signals, m.switch_names[i].as_str()) {
            Some(k) => {
                let v: i64 = integer_of(&m.signals[k], payload);
                r.push(Some(decode::fit_to_width(v, 64, true)));
            },
            None => {
                r.push(None);
            },
        }
    }
    r
}

fn ranges_hold(ranges: &Vec<(u64, u64)>, v: u64) -> (r: bool)
    ensures
        r == in_ranges(ranges@, v as int),
{
    for j in 0..ranges.len()
        invariant
            forall|i: int| 0 <= i < j ==> !((#[trigger] ranges@[i]).0 <= v <= ranges@[i].1),
    {
        if ranges[j].0 <= v && v <= ranges[j].1 {
            return true;
        }
    }
    false
}

fn condition_met(
    c: &MuxCondition,
    m: &MessageInfo,
    payload: &[u8],
    switches: &Vec<Option<u64>>,
) -> (r: bool)
    requires
        switches@.len() == m.switch_names@.len(),
        forall|i: int|
            0 <= i < switches@.len() ==> match #[trigger] switches@[i] {
                Some(v) => switch_value(*m, payload@, m.switch_names@[i]@) == Some(v as int),
                None => switch_value(*m, payload@, m.switch_names@[i]@) is None,
            },
    ensures
        r == condition_holds(*c, *m, payload@),
{
    for i in 0..m.switch_names.len()
        invariant
            switches@.len() == m.switch_names@.len(),
            forall|i: int|
                0 <= i < switches@.len() ==> match #[trigger] switches@[i] {
                    Some(v) => switch_value(*m, payload@, m.switch_names@[i]@) == Some(v as int),
                    None => switch_value(*m, payload@, m.switch_names@[i]@) is None,
                },
            forall|j: int| 0 <= j < i ==> #[trigger] m.switch_names@[j]@ != c.switch@,
    {
        if m.switch_names[i] == c.switch {
            return match switches[i] {
                Some(v) => ranges_hold(&c.ranges, v),
                None => true,
            };
        }
    }
    true
}

fn signal_present(
    s: &SignalInfo,
    m: &MessageInfo,
    payload: &[u8],
    switches: &Vec<Option<u64>>,
) -> (r: bool)
    requires
        switches@.len() == m.switch_names@.len(),
        forall|i: int|
            0 <= i < switches@.len() ==> match #[trigger] switches@[i] {
                Some(v) => switch_value(*m, payload@, m.switch_names@[i]@) == Some(v as int),
                None => switch_value(*m, payload@, m.switch_names@[i]@) is None,
            },
    ensures
        r == is_present(*s, *m, payload@),
{
    for i in 0..s.mux_when.len()
        invariant
            switches@.len() == m.switch_names@.len(),
            forall|i: int|
                0 <= i < switches@.len() ==> match #[trigger] switches@[i] {
                    Some(v) => switch_value(*m, payload@, m.switch_names@[i]@) == Some(v as int),
                    None => switch_value(*m, payload@, m.switch_names@[i]@) is None,
                },
            forall|j: int|
                0 <= j < i ==> condition_holds(#[trigger] s.mux_when@[j], *m, payload@),
    {
        if !condition_met(&s.mux_when[i], m, payload, switches) {
            return false;
        }
    }
    true
}

impl SymbolTable {
    /// The labels of the signal's values.
    pub open spec fn labels_spec(self, id: u32, signal: Seq<char>) -> Seq<(i64, String)> {
        labels_of(self.value_tables@, id, signal)
    }

    /// Message ids transmitted by the given node.
    pub open spec fn sent_by(self, node: Seq<char>, n: int) -> Seq<u32>
        decreases n,
    {
        if n <= 0 {
            Seq::<u32>::empty()
        } else {
            let id = self.order@[n - 1];
            let rest = self.sent_by(node, n - 1);
            if self.messages@.contains_key(id) && self.messages@[id].transmitter@ == node {
                rest.push(id)
            } else {
                rest
            }
        }
    }

    /// Message ids transmitted by the given node, in the table's order.
    pub fn node_tx_ids(&self, node: &str) -> (r: Vec<u32>)
        ensures
            r@ == self.sent_by(node@, self.order@.len() as int),
    {
        let mut r: Vec<u32> = Vec::new();
        for i in 0..self.order.len()
            invariant
                r@ == self.sent_by(node@, i as int),
        {
            let id: u32 = self.order[i];
            if let Some(m) = self.messages.get(&id) {
                if text::same_text(m.transmitter.as_str(), node) {
                    r.push(id);
                }
            }
        }
        r
    }

    /// The signals of message `id` among the first `n` that the node receives.
    pub open spec fn received_of(self, id: u32, node: Seq<char>, n: int) -> Seq<
        (u32, String, String),
    >
        decreases n,
    {
        if n <= 0 {
            Seq::<(u32, String, String)>::empty()
        } else {
            let m = self.messages@[id];
            let s = m.signals@[n - 1];
            let rest = self.received_of(id, node, n - 1);
            if text::lists(s.receivers@, node) {
                rest.push((id, s.name, m.transmitter))
            } else {
                rest
            }
        }
    }

    /// The signals of the first `n` messages that the node receives.
    pub open spec fn received_by(self, node: Seq<char>, n: int) -> Seq<(u32, String, String)>
        decreases n,
    {
        if n <= 0 {
            Seq::<(u32, String, String)>::empty()
        } else {
            let id = self.order@[n - 1];
            let rest = self.received_by(node, n - 1);
            if self.messages@.contains_key(id) {
                rest + self.received_of(id, node, self.messages@[id].signals@.len() as int)
            } else {
                rest
            }
        }
    }

    /// Signals received by the given node: (message id, signal name, sender).
    pub fn node_rx_signals(&self, node: &str) -> (r: Vec<(u32, String, String)>)
        ensures
            r@ == self.received_by(node@, self.order@.len() as int),
    {
        let mut r: Vec<(u32, String, String)> = Vec::new();
        for i in 0..self.order.len()
            invariant
                r@ == self.received_by(node@, i as int),
        {
            let id: u32 = self.order[i];
            if let Some(m) = self.messages.get(&id) {
                let ghost before: Seq<(u32, String, String)> = r@;
                for k in 0..m.signals.len()
                    invariant
                        self.messages@.contains_key(id),
                        *m == self.messages@[id],
                        r@ =~= before + self.received_of(id, node@, k as int),
                {
                    if text::listed(&m.signals[k].receivers, node) {
                        r.push((id, m.signals[k].name.clone(), m.transmitter.clone()));
                    }
                }
            }
        }
        r
    }

    pub fn message_name(&self, id: u32) -> (r: Option<&str>)
        ensures
            r is Some == self.messages@.contains_key(id),
            r matches Some(name) ==> name@ == self.messages@[id].name@,
    {
        match self.messages.get(&id) {
            Some(m) => Some(m.name.as_str()),
            None => None,
        }
    }

    /// The signal of that name in that message.
    pub open spec fn signal_spec(self, id: u32, name: Seq<char>) -> Option<SignalInfo> {
        let signals = self.messages@[id].signals@;
        let k = signal_index(signals, name);
        if self.messages@.contains_key(id) && 0 <= k < signals.len() {
            Some(signals[k])
        } else {
            None
        }
    }

    /// The signal of that name in that message.
    pub fn signal(&self, id: u32, name: &str) -> (r: Option<&SignalInfo>)
        ensures
            match r {
                Some(s) => self.signal_spec(id, name@) == Some(*s),
                None => self.signal_spec(id, name@) is None,
            },
    {
        match self.messages.get(&id) {
            Some(m) => match find_signal(&m.signals, name) {
                Some(k) => Some(&m.signals[k]),
                None => None,
            },
            None => None,
        }
    }

    /// Whether the database declares the message.
    pub fn has_message(&self, id: u32) -> (r: bool)
        ensures
            r == self.messages@.dom().contains(id),
    {
        self.messages.contains_key(&id)
    }

    /// Packs a signal's raw value into the frame data bytes. Returns false, and
    /// changes nothing, if the message or signal is unknown.
    pub fn encode_signal(&self, id: u32, name: &str, raw: u64, data: &mut [u8]) -> (known: bool)
        ensures
            known == self.signal_spec(id, name@) is Some,
            known ==> {
                let s = self.signal_spec(id, name@)->0;
                decode::is_packed(
                    old(data)@,
                    final(data)@,
                    s.start_bit,
                    s.size,
                    s.big_endian,
                    raw,
                )
            },
            !known ==> final(data)@ == old(data)@,
    {
        match self.signal(id, name) {
            Some(s) => {
                decode::pack_raw(data, s.start_bit, s.size, s.big_endian, raw);
                true
            },
            None => false,
        }
    }

    /// The label that the database gives a signal's integer value.
    pub fn val_label(&self, id: u32, name: &str, value: i64) -> (r: Option<String>)
        ensures
            r == label_for(self.labels_spec(id, name@), value as int),
    {
        match find_table(&self.value_tables, id, name) {
            Some(k) => find_label(&self.value_tables[k].labels, value),
            None => None,
        }
    }

    /// `r` holds what the signals of `shown` decode to, in that order.
    pub open spec fn decoded_as(
        self,
        id: u32,
        m: MessageInfo,
        payload: Seq<u8>,
        shown: Seq<int>,
        r: Seq<DecodedSignal>,
    ) -> bool {
        &&& r.len() == shown.len()
        &&& forall|i: int|
            0 <= i < r.len() ==> is_decoded(
                #[trigger] r[i],
                m.signals@[shown[i]],
                payload,
                self.labels_spec(id, m.signals@[shown[i]].name@),
            )
    }

    /// The frame's signals as they decode, in the message's order. A signal whose
    /// multiplex conditions do not hold is left out.
    pub open spec fn decodes_to(self, frame: CanFrame, r: Seq<DecodedSignal>) -> bool {
        if self.messages@.contains_key(frame.id) {
            let m = self.messages@[frame.id];
            let payload = frame.payload_spec();
            self.decoded_as(
                frame.id,
                m,
                payload,
                present_signals(m, payload, m.signals@.len() as int),
                r,
            )
        } else {
            r.len() == 0
        }
    }

    /// The frame's signals as they decode, in the message's order.
    pub open spec fn decoded(self, frame: CanFrame) -> Seq<DecodedSignal> {
        if self.messages@.contains_key(frame.id) {
            let m = self.messages@[frame.id];
            let payload = frame.payload_spec();
            let shown = present_signals(m, payload, m.signals@.len() as int);
            Seq::new(
                shown.len(),
                |i: int|
                    decoded_signal(
                        m.signals@[shown[i]],
                        payload,
                        self.labels_spec(frame.id, m.signals@[shown[i]].name@),
                    ),
            )
        } else {
            Seq::empty()
        }
    }

    /// There is one way a frame decodes.
    pub proof fn lemma_decoded(self, frame: CanFrame, r: Seq<DecodedSignal>)
        requires
            self.decodes_to(frame, r),
        ensures
            r == self.decoded(frame),
    {
        assert(r =~= self.decoded(frame));
    }

    fn decode_one(&self, id: u32, s: &SignalInfo, payload: &[u8]) -> (d: DecodedSignal)
        ensures
            is_decoded(d, *s, payload@, self.labels_spec(id, s.name@)),
    {
        let bits: u64 = decode::extract_raw(payload, s.start_bit, s.size, s.big_endian);
        let integer: i128 = decode::signed_value(bits, s.size, s.signed);
        let value: RawValue = if s.is_float && s.size == 32 {
            RawValue::Single(bits as u32)
        } else if s.is_float && s.size == 64 {
            RawValue::Double(bits)
        } else {
            RawValue::Integer(integer)
        };
        let whole: i64 = decode::read_through_double(integer);
        let label: Option<String> = if s.is_float {
            None
        } else {
            self.val_label(id, s.name.as_str(), whole)
        };
        DecodedSignal {
            name: s.name.clone(),
            value,
            factor: s.factor,
            offset: s.offset,
            raw: if s.is_float { bits as i64 } else { whole },
            unit: s.unit.clone(),
            type_tag: s.type_tag.clone(),
            label,
        }
    }

    pub fn decode_signals(&self, frame: &CanFrame) -> (r: Vec<DecodedSignal>)
        requires
            frame.carries_data() ==> frame.wf(),
        ensures
            self.decodes_to(*frame, r@),
    {
        let mut r: Vec<DecodedSignal> = Vec::new();
        if let Some(m) = self.messages.get(&frame.id) {
            let payload: &[u8] = frame.payload();
            let switches: Vec<Option<u64>> = read_switches(m, payload);
            for k in 0..m.signals.len()
                invariant
                    *m == self.messages@[frame.id],
                    payload@ == frame.payload_spec(),
                    switches@.len() == m.switch_names@.len(),
                    forall|i: int|
                        0 <= i < switches@.len() ==> match #[trigger] switches@[i] {
                            Some(v) => switch_value(*m, payload@, m.switch_names@[i]@) == Some(
                                v as int,
                            ),
                            None => switch_value(*m, payload@, m.switch_names@[i]@) is None,
                        },
                    self.decoded_as(
                        frame.id,
                        *m,
                        payload@,
                        present_signals(*m, payload@, k as int),
                        r@,
                    ),
            {
                let ghost shown: Seq<int> = present_signals(*m, payload@, k as int);
                let ghost before: Seq<DecodedSignal> = r@;
                if signal_present(&m.signals[k], m, payload, &switches) {
                    r.push(self.decode_one(frame.id, &m.signals[k], payload));
                    proof {
                        let next = shown.push(k as int);
                        assert(present_signals(*m, payload@, k + 1) == next);
                        assert forall|i: int| 0 <= i < r@.len() implies is_decoded(
                            #[trigger] r@[i],
                            m.signals@[next[i]],
                            payload@,
                            self.labels_spec(frame.id, m.signals@[next[i]].name@),
                        ) by {
                            if i < before.len() {
                                assert(r@[i] == before[i]);
                            }
                        }
                    }
                }
            }
        }
        r
    }
}

/// One decoded value as the windows print it: the number, then the unit, then
/// the type tag, then the label. Empty parts are skipped.
pub open spec fn signal_value_text(
    number: Seq<char>,
    unit: Seq<char>,
    type_tag: Seq<char>,
    label: Option<Seq<char>>,
) -> Seq<char> {
    let with_unit = if unit.len() == 0 {
        number
    } else {
        number + " "@ + unit
    };
    let with_tag = if type_tag.len() == 0 {
        with_unit
    } else {
        with_unit + " ["@ + type_tag + "]"@
    };
    match label {
        Some(l) => if l.len() == 0 {
            with_tag
        } else {
            with_tag + " ("@ + l + ")"@
        },
        None => with_tag,
    }
}

/// One decoded value as the windows print it: the number, then the unit, then
/// the type tag, then the label. Empty parts are skipped, so a unitless integer
/// reads `3000 [u16]` rather than `3000  [u16]`.
pub fn fmt_signal_value(
    number: &str,
    unit: &str,
    type_tag: &str,
    label: Option<&str>,
) -> (r: String)
    ensures
        r@ == signal_value_text(
            number@,
            unit@,
            type_tag@,
            match label {
                Some(l) => Some(l@),
                None => None,
            },
        ),
{
    let mut s: String = number.to_owned();
    if !unit.is_empty() {
        s.append(" ");
        s.append(unit);
    }
    if !type_tag.is_empty() {
        s.append(" [");
        s.append(type_tag);
        s.append("]");
    }
    if let Some(l) = label {
        if !l.is_empty() {
            s.append(" (");
            s.append(l);
            s.append(")");
        }
    }
    s
}

proof fn lemma_present(m: MessageInfo, payload: Seq<u8>, n: int, k: int)
    requires
        0 <= n <= m.signals@.len(),
    ensures
        present_signals(m, payload, n).contains(k) == (0 <= k < n && is_present(
            m.signals@[k],
            m,
            payload,
        )),
    decreases n,
{
    if n > 0 {
        lemma_present(m, payload, n - 1, k);
        let before = present_signals(m, payload, n - 1);
        if is_present(m.signals@[n - 1], m, payload) {
            let all = before.push(n - 1);
            assert(all[before.len() as int] == n - 1);
            if before.contains(k) {
                let j = choose|j: int| 0 <= j < before.len() && before[j] == k;
                assert(all[j] == k);
            }
        }
    }
}

/// A frame decodes to its message's signals whose multiplex conditions hold, and to no
/// others: of a multiplexed message only the group that its switch selects is seen.
pub proof fn law_only_the_selected_group_decodes(table: SymbolTable, frame: CanFrame, k: int)
    requires
        table.messages@.contains_key(frame.id),
        0 <= k < table.messages@[frame.id].signals@.len(),
    ensures
        ({
            let m = table.messages@[frame.id];
            let shown = present_signals(m, frame.payload_spec(), m.signals@.len() as int);
            &&& table.decoded(frame).len() == shown.len()
            &&& shown.contains(k) == is_present(m.signals@[k], m, frame.payload_spec())
        }),
{
    let m = table.messages@[frame.id];
    lemma_present(m, frame.payload_spec(), m.signals@.len() as int, k);
}

/// A raw value that was encoded into a payload which holds all of the signal is the value
/// that the signal's bits hold there, cut to the signal's width.
pub proof fn law_an_encoded_signal_reads_back(
    s: SignalInfo,
    before: Seq<u8>,
    after: Seq<u8>,
    raw: u64,
)
    requires
        decode::size_ok(s.size),
        forall|i: u64|
            #![trigger decode::signal_pos(s.start_bit as int, s.size as int, s.big_endian, i as int)]
            i < s.size ==> decode::signal_pos(
                s.start_bit as int,
                s.size as int,
                s.big_endian,
                i as int,
            ) < 8 * before.len(),
        decode::is_packed(before, after, s.start_bit, s.size, s.big_endian, raw),
    ensures
        signal_bits(s, after) == raw & decode::low_mask(s.size),
{
    decode::law_a_packed_field_holds_its_value(
        before,
        after,
        s.start_bit,
        s.size,
        s.big_endian,
        raw,
    );
}

/// A period under `GenMsgCycleTime` goes before one under `CycleTime`, and either before
/// any default.
pub proof fn law_the_first_attribute_wins(db: Database, id: u32)
    ensures
        ({
            let first = explicit_cycle(db.message_attributes@, "GenMsgCycleTime"@, id);
            let second = explicit_cycle(db.message_attributes@, "CycleTime"@, id);
            &&& first is Some ==> declared_cycle(db, id) == first
            &&& first is None && second is Some ==> declared_cycle(db, id) == second
        }),
{
}

} // verus!
