//! The DBC text as the parser reads it, carried over into plain values.

use vstd::prelude::*;
use can_dbc::{
    AttributeValue, ByteOrder, Dbc, MessageId, MultiplexIndicator, NumericValue,
    SignalExtendedValueType, ValueDescription, ValueType,
};

verus! {

/// A message id as the database writes it: 11 bits, or 29 bits.
#[derive(Clone, Copy, Debug, PartialEq, Eq, Structural)]
pub enum MessageKey {
    Standard(u16),
    Extended(u32),
}

/// A signal's multiplex marker: none, `M`, `m<group>` or `m<group>M`.
#[derive(Clone, Copy, Debug, PartialEq, Eq, Structural)]
pub enum MuxMark {
    Plain,
    Switch,
    Group(u64),
    SwitchInGroup(u64),
}

/// A number as the database writes it. A double is kept as its bit pattern.
#[derive(Clone, Copy, Debug, PartialEq, Eq, Structural)]
pub enum Number {
    Unsigned(u64),
    Signed(i64),
    Double(u64),
}

/// An attribute's value. A double is kept as its bit pattern.
#[derive(Debug)]
pub enum Attribute {
    Unsigned(u64),
    Signed(i64),
    Double(u64),
    Text(String),
}

/// What a `SIG_VALTYPE_` line makes of a signal's bits.
#[derive(Clone, Copy, Debug, PartialEq, Eq, Structural)]
pub enum ValueKind {
    Integer,
    Single,
    Double,
}

/// The head of a `BO_` line.
#[derive(Debug)]
pub struct MessageHead {
    pub id: MessageKey,
    pub name: String,
    pub size: u64,
    pub transmitter: Option<String>,
}

/// A `SG_` line without its multiplex marker and its range. The factor and the
/// offset are the bit patterns of doubles.
#[derive(Debug)]
pub struct SignalLayout {
    pub name: String,
    pub start_bit: u64,
    pub size: u64,
    pub big_endian: bool,
    pub signed: bool,
    pub factor: u64,
    pub offset: u64,
    pub unit: String,
    pub receivers: Vec<String>,
}

/// A `BA_` line on a message.
#[derive(Debug)]
pub struct MessageAttribute {
    pub name: String,
    pub id: MessageKey,
    pub value: Attribute,
}

/// A `BA_DEF_DEF_` line.
#[derive(Debug)]
pub struct AttributeDefault {
    pub name: String,
    pub value: Attribute,
}

/// A `SIG_VALTYPE_` line.
#[derive(Debug)]
pub struct SignalKind {
    pub id: MessageKey,
    pub signal: String,
    pub kind: ValueKind,
}

/// A `SG_MUL_VAL_` line.
#[derive(Debug)]
pub struct ExtendedMux {
    pub id: MessageKey,
    pub signal: String,
    pub switch: String,
    pub ranges: Vec<(u64, u64)>,
}

/// A `VAL_` line: labels for the values of a signal, or of an environment
/// variable.
#[derive(Debug)]
pub enum ValueLabels {
    Signal { id: MessageKey, signal: String, labels: Vec<(i64, String)> },
    EnvironmentVariable { name: String },
}

#[verifier::external_type_specification]
#[verifier::external_body]
pub struct ExDbc(can_dbc::Dbc);

/// What `can_dbc::Dbc::try_from` makes of a text: the parsed file, or the
/// debug print of its error.
pub uninterp spec fn parsed_dbc(text: Seq<char>) -> Result<Dbc, Seq<char>>;

/// The names in the `nodes` list of a parsed file.
pub uninterp spec fn dbc_nodes(db: Dbc) -> Seq<String>;

/// The `messages` list of a parsed file, without the signals.
pub uninterp spec fn dbc_messages(db: Dbc) -> Seq<MessageHead>;

/// The `signals` list of message `m`, without markers and ranges.
pub uninterp spec fn dbc_layouts(db: Dbc, m: int) -> Seq<SignalLayout>;

/// The multiplex markers in the `signals` list of message `m`.
pub uninterp spec fn dbc_marks(db: Dbc, m: int) -> Seq<MuxMark>;

/// The ranges in the `signals` list of message `m`.
pub uninterp spec fn dbc_ranges(db: Dbc, m: int) -> Seq<(Number, Number)>;

/// The `attribute_values_message` list of a parsed file.
pub uninterp spec fn dbc_message_attributes(db: Dbc) -> Seq<MessageAttribute>;

/// The `attribute_defaults` list of a parsed file.
pub uninterp spec fn dbc_attribute_defaults(db: Dbc) -> Seq<AttributeDefault>;

/// The `signal_extended_value_type_list` of a parsed file.
pub uninterp spec fn dbc_signal_kinds(db: Dbc) -> Seq<SignalKind>;

/// The `extended_multiplex` list of a parsed file.
pub uninterp spec fn dbc_extended_mux(db: Dbc) -> Seq<ExtendedMux>;

/// The `value_descriptions` list of a parsed file.
pub uninterp spec fn dbc_value_labels(db: Dbc) -> Seq<ValueLabels>;

/// `can_dbc::Dbc::try_from` on a text. Claims only that the outcome depends on
/// the text alone; what the parser accepts is left to it.
#[verifier::external_body]
fn parse_dbc(content: &str) -> (r: Result<Dbc, String>)
    ensures
        match r {
            Ok(db) => parsed_dbc(content@) == Ok::<Dbc, Seq<char>>(db),
            Err(e) => parsed_dbc(content@) == Err::<Dbc, Seq<char>>(e@),
        },
{
    Dbc::try_from(content).map_err(|e| format!("{e:?}"))
}

/// The field `nodes` of `can_dbc::Dbc`.
#[verifier::external_body]
fn nodes_of(db: &Dbc) -> (r: Vec<String>)
    ensures
        r@ == dbc_nodes(*db),
{
    db.nodes.iter().map(|n| n.0.clone()).collect()
}

/// The field `messages` of `can_dbc::Dbc`, one value for each message.
#[verifier::external_body]
fn messages_of(db: &Dbc) -> (r: Vec<MessageHead>)
    ensures
        r@ == dbc_messages(*db),
{
    db.messages.iter().map(|m| MessageHead {
        id: match m.id {
            MessageId::Standard(i) => MessageKey::Standard(i),
            MessageId::Extended(i) => MessageKey::Extended(i),
        },
        name: m.name.clone(),
        size: m.size,
        transmitter: m.transmitter.clone(),
    }).collect()
}

/// The field `signals` of a `can_dbc::Message`, one value for each signal.
#[verifier::external_body]
fn layouts_of(db: &Dbc, m: usize) -> (r: Vec<SignalLayout>)
    requires
        m < dbc_messages(*db).len(),
    ensures
        r@ == dbc_layouts(*db, m as int),
{
    db.messages[m].signals.iter().map(|s| SignalLayout {
        name: s.name.clone(),
        start_bit: s.start_bit,
        size: s.size,
        big_endian: matches!(s.byte_order, ByteOrder::BigEndian),
        signed: matches!(s.value_type, ValueType::Signed),
        factor: s.factor.to_bits(),
        offset: s.offset.to_bits(),
        unit: s.unit.clone(),
        receivers: s.receivers.clone(),
    }).collect()
}

/// The field `multiplexer_indicator` of each `can_dbc::Signal` of a message: as
/// many as the message has signals.
#[verifier::external_body]
fn marks_of(db: &Dbc, m: usize) -> (r: Vec<MuxMark>)
    requires
        m < dbc_messages(*db).len(),
    ensures
        r@ == dbc_marks(*db, m as int),
        r@.len() == dbc_layouts(*db, m as int).len(),
{
    db.messages[m].signals.iter().map(|s| match s.multiplexer_indicator {
        MultiplexIndicator::Plain => MuxMark::Plain,
        MultiplexIndicator::Multiplexor => MuxMark::Switch,
        MultiplexIndicator::MultiplexedSignal(g) => MuxMark::Group(g),
        MultiplexIndicator::MultiplexorAndMultiplexedSignal(g) => MuxMark::SwitchInGroup(g),
    }).collect()
}

/// The fields `min` and `max` of each `can_dbc::Signal` of a message: as many
/// pairs as the message has signals.
#[verifier::external_body]
fn ranges_of(db: &Dbc, m: usize) -> (r: Vec<(Number, Number)>)
    requires
        m < dbc_messages(*db).len(),
    ensures
        r@ == dbc_ranges(*db, m as int),
        r@.len() == dbc_layouts(*db, m as int).len(),
{
    let number = |v: &NumericValue| match v {
        NumericValue::Uint(u) => Number::Unsigned(*u),
        NumericValue::Int(i) => Number::Signed(*i),
        NumericValue::Double(d) => Number::Double(d.to_bits()),
    };
    db.messages[m].signals.iter().map(|s| (number(&s.min), number(&s.max))).collect()
}

/// The field `attribute_values_message` of `can_dbc::Dbc`, one value for each
/// entry.
#[verifier::external_body]
fn message_attributes_of(db: &Dbc) -> (r: Vec<MessageAttribute>)
    ensures
        r@ == dbc_message_attributes(*db),
{
    db.attribute_values_message.iter().map(|a| MessageAttribute {
        name: a.name.clone(),
        id: match a.message_id {
            MessageId::Standard(i) => MessageKey::Standard(i),
            MessageId::Extended(i) => MessageKey::Extended(i),
        },
        value: match &a.value {
            AttributeValue::Uint(u) => Attribute::Unsigned(*u),
            AttributeValue::Int(i) => Attribute::Signed(*i),
            AttributeValue::Double(d) => Attribute::Double(d.to_bits()),
            AttributeValue::String(s) => Attribute::Text(s.clone()),
        },
    }).collect()
}

/// The field `attribute_defaults` of `can_dbc::Dbc`, one value for each entry.
#[verifier::external_body]
fn attribute_defaults_of(db: &Dbc) -> (r: Vec<AttributeDefault>)
    ensures
        r@ == dbc_attribute_defaults(*db),
{
    db.attribute_defaults.iter().map(|a| AttributeDefault {
        name: a.name.clone(),
        value: match &a.value {
            AttributeValue::Uint(u) => Attribute::Unsigned(*u),
            AttributeValue::Int(i) => Attribute::Signed(*i),
            AttributeValue::Double(d) => Attribute::Double(d.to_bits()),
            AttributeValue::String(s) => Attribute::Text(s.clone()),
        },
    }).collect()
}

/// The field `signal_extended_value_type_list` of `can_dbc::Dbc`, one value for
/// each entry.
#[verifier::external_body]
fn signal_kinds_of(db: &Dbc) -> (r: Vec<SignalKind>)
    ensures
        r@ == dbc_signal_kinds(*db),
{
    db.signal_extended_value_type_list.iter().map(|v| SignalKind {
        id: match v.message_id {
            MessageId::Standard(i) => MessageKey::Standard(i),
            MessageId::Extended(i) => MessageKey::Extended(i),
        },
        signal: v.signal_name.clone(),
        kind: match v.signal_extended_value_type {
            SignalExtendedValueType::SignedOrUnsignedInteger => ValueKind::Integer,
            SignalExtendedValueType::IEEEfloat32Bit => ValueKind::Single,
            SignalExtendedValueType::IEEEdouble64bit => ValueKind::Double,
        },
    }).collect()
}

/// The field `extended_multiplex` of `can_dbc::Dbc`, one value for each entry.
#[verifier::external_body]
fn extended_mux_of(db: &Dbc) -> (r: Vec<ExtendedMux>)
    ensures
        r@ == dbc_extended_mux(*db),
{
    db.extended_multiplex.iter().map(|e| ExtendedMux {
        id: match e.message_id {
            MessageId::Standard(i) => MessageKey::Standard(i),
            MessageId::Extended(i) => MessageKey::Extended(i),
        },
        signal: e.signal_name.clone(),
        switch: e.multiplexor_signal_name.clone(),
        ranges: e.mappings.iter().map(|m| (m.min_value, m.max_value)).collect(),
    }).collect()
}

/// The field `value_descriptions` of `can_dbc::Dbc`, one value for each entry.
#[verifier::external_body]
fn value_labels_of(db: &Dbc) -> (r: Vec<ValueLabels>)
    ensures
        r@ == dbc_value_labels(*db),
{
    db.value_descriptions.iter().map(|v| match v {
        ValueDescription::Signal { message_id, name, value_descriptions } => ValueLabels::Signal {
            id: match *message_id {
                MessageId::Standard(i) => MessageKey::Standard(i),
                MessageId::Extended(i) => MessageKey::Extended(i),
            },
            signal: name.clone(),
            labels: value_descriptions.iter().map(|d| (d.id, d.description.clone())).collect(),
        },
        ValueDescription::EnvironmentVariable { name, .. } =>
            ValueLabels::EnvironmentVariable { name: name.clone() },
    }).collect()
}

/// A `SG_` line.
pub struct DbSignal {
    pub layout: SignalLayout,
    pub mark: MuxMark,
    pub range: (Number, Number),
}

/// A `BO_` line with its signals.
pub struct DbMessage {
    pub head: MessageHead,
    pub signals: Vec<DbSignal>,
}

/// A DBC file, as far as the tool reads it.
pub struct Database {
    pub nodes: Vec<String>,
    pub messages: Vec<DbMessage>,
    pub message_attributes: Vec<MessageAttribute>,
    pub attribute_defaults: Vec<AttributeDefault>,
    pub signal_kinds: Vec<SignalKind>,
    pub extended_mux: Vec<ExtendedMux>,
    pub value_labels: Vec<ValueLabels>,
}

/// The signals of message `m` of a parsed file.
pub open spec fn are_signals_of(signals: Seq<DbSignal>, db: Dbc, m: int) -> bool {
    &&& signals.len() == dbc_layouts(db, m).len()
    &&& forall|k: int|
        0 <= k < signals.len() ==> (#[trigger] signals[k]).layout == dbc_layouts(db, m)[k]
            && signals[k].mark == dbc_marks(db, m)[k] && signals[k].range == dbc_ranges(db, m)[k]
}

impl Database {
    /// Holds what the parsed file holds.
    pub open spec fn is_from(self, db: Dbc) -> bool {
        &&& self.nodes@ == dbc_nodes(db)
        &&& self.message_attributes@ == dbc_message_attributes(db)
        &&& self.attribute_defaults@ == dbc_attribute_defaults(db)
        &&& self.signal_kinds@ == dbc_signal_kinds(db)
        &&& self.extended_mux@ == dbc_extended_mux(db)
        &&& self.value_labels@ == dbc_value_labels(db)
        &&& self.messages@.len() == dbc_messages(db).len()
        &&& forall|m: int|
            0 <= m < self.messages@.len() ==> (#[trigger] self.messages@[m]).head == dbc_messages(
                db,
            )[m] && are_signals_of(self.messages@[m].signals@, db, m)
    }
}

fn database_of(db: &Dbc) -> (r: Database)
    ensures
        r.is_from(*db),
{
    let heads: Vec<MessageHead> = messages_of(db);
    let mut messages: Vec<DbMessage> = Vec::new();
    let total: usize = heads.len();
    let mut m: usize = 0;
    for head in it: heads
        invariant
            it.seq() == dbc_messages(*db),
            it.seq().len() == total,
            m == it.index(),
            messages@.len() == m,
            forall|j: int|
                0 <= j < m ==> (#[trigger] messages@[j]).head == dbc_messages(*db)[j]
                    && are_signals_of(messages@[j].signals@, *db, j),
    {
        let mut signals: Vec<DbSignal> = Vec::new();
        let marks: Vec<MuxMark> = marks_of(db, m);
        let ranges: Vec<(Number, Number)> = ranges_of(db, m);
        let layouts: Vec<SignalLayout> = layouts_of(db, m);
        let count: usize = layouts.len();
        let mut k: usize = 0;
        for layout in inner: layouts
            invariant
                inner.seq() == dbc_layouts(*db, m as int),
                inner.seq().len() == count,
                k == inner.index(),
                marks@ == dbc_marks(*db, m as int),
                ranges@ == dbc_ranges(*db, m as int),
                marks@.len() == inner.seq().len(),
                ranges@.len() == inner.seq().len(),
                signals@.len() == k,
                forall|j: int|
                    0 <= j < k ==> (#[trigger] signals@[j]).layout == dbc_layouts(*db, m as int)[j]
                        && signals@[j].mark == marks@[j] && signals@[j].range == ranges@[j],
        {
            signals.push(DbSignal { layout, mark: marks[k], range: ranges[k] });
            k = k + 1;
        }
        messages.push(DbMessage { head, signals });
        m = m + 1;
    }
    Database {
        nodes: nodes_of(db),
        messages,
        message_attributes: message_attributes_of(db),
        attribute_defaults: attribute_defaults_of(db),
        signal_kinds: signal_kinds_of(db),
        extended_mux: extended_mux_of(db),
        value_labels: value_labels_of(db),
    }
}

/// Reads a DBC text. The error is the debug print of the parser's.
pub fn read_database(content: &str) -> (r: Result<Database, String>)
    ensures
        r is Ok == parsed_dbc(content@) is Ok,
        r matches Ok(database) ==> database.is_from(parsed_dbc(content@)->Ok_0),
        r matches Err(e) ==> e@ == parsed_dbc(content@)->Err_0,
{
    match parse_dbc(content) {
        Ok(db) => Ok(database_of(&db)),
        Err(e) => Err(e),
    }
}

} // verus!
